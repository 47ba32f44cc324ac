//! The per-tick decisions of the polling loop, as a state machine: the loop
//! asks which readings are due, hands them over, and writes the line it gets.
//!
//! Cadence, in ticks: CPU and memory every tick, network every second tick,
//! GPU every fourth, the secondary copy of the line every eighth.
use vstd::prelude::*;
use crate::rate::{
    cpu_pct, cpu_percent, ema_bound, ema_next, ema_update, net_rate, raw_rate,
};
use crate::sample::{CpuTicks, GpuReading, MemInfo};
use crate::status::{net_text, status_line, status_text};

verus! {

/// The network counters are read every this many ticks.
pub const NET_EVERY: u32 = 2;
/// The GPU is queried every this many ticks.
pub const GPU_EVERY: u32 = 4;
/// The secondary copy of the line is written every this many ticks.
pub const SECONDARY_EVERY: u32 = 8;

/// What the metrics source delivered for one tick; `None` where a read failed
/// or was not due.
#[derive(Clone, Copy, Debug)]
pub struct Readings {
    pub cpu: Option<CpuTicks>,
    pub mem: Option<MemInfo>,
    /// Cumulative received and transmitted bytes of the chosen interface.
    pub net: Option<(u64, u64)>,
    pub gpu: Option<GpuReading>,
}

/// What the loop does at the end of a tick.
#[derive(Debug)]
pub struct TickOutput {
    /// The status line to write to the primary path.
    pub line: String,
    /// Whether the line is also to be written to the secondary path.
    pub write_secondary: bool,
}

/// The state of the loop, as contracts see it.
pub struct MonitorView {
    pub net_enabled: bool,
    pub gpu_enabled: bool,
    pub secondary_enabled: bool,
    pub tick: u32,
    pub prev_cpu: CpuTicks,
    /// Whether the network counters have been read once; the first reading
    /// only gives the counters that later rates are measured from.
    pub net_seeded: bool,
    pub prev_rx: u64,
    pub prev_tx: u64,
    /// Moving averages of the rates, in thousandths of a byte per second.
    pub rx_ema: u128,
    pub tx_ema: u128,
    /// The last GPU answer, repeated until the next query.
    pub gpu: Option<GpuReading>,
}

/// The state of the polling loop. The capabilities are fixed when it is made.
pub struct Monitor {
    net_enabled: bool,
    gpu_enabled: bool,
    secondary_enabled: bool,
    tick: u32,
    prev_cpu: CpuTicks,
    net_seeded: bool,
    prev_rx: u64,
    prev_tx: u64,
    rx_ema: u128,
    tx_ema: u128,
    gpu: Option<GpuReading>,
}

impl MonitorView {
    /// Averages stay in range, and a disabled source never contributes.
    pub open spec fn inv(self) -> bool {
        &&& self.rx_ema <= ema_bound()
        &&& self.tx_ema <= ema_bound()
        &&& !self.net_enabled ==> self.rx_ema == 0 && self.tx_ema == 0
        &&& !self.gpu_enabled ==> self.gpu is None
    }

    pub open spec fn net_due(self) -> bool {
        self.net_enabled && self.tick % NET_EVERY == 0
    }

    pub open spec fn gpu_due(self) -> bool {
        self.gpu_enabled && self.tick % GPU_EVERY == 0
    }

    pub open spec fn secondary_due(self) -> bool {
        self.secondary_enabled && self.tick % SECONDARY_EVERY == 0
    }
}

/// The state right after start-up.
pub open spec fn initial(net_enabled: bool, gpu_enabled: bool, secondary_enabled: bool) -> MonitorView {
    MonitorView {
        net_enabled,
        gpu_enabled,
        secondary_enabled,
        tick: 0,
        prev_cpu: CpuTicks { idle: 0, total: 0 },
        net_seeded: false,
        prev_rx: 0,
        prev_tx: 0,
        rx_ema: 0,
        tx_ema: 0,
        gpu: None,
    }
}

/// The CPU percentage shown for a tick: zero when the counters could not be read.
pub open spec fn tick_cpu(v: MonitorView, r: Readings) -> nat {
    match r.cpu {
        Some(c) => cpu_pct(v.prev_cpu, c),
        None => 0,
    }
}

/// The state after a tick. When the network is due, the first successful
/// read only records the counters; after it, a read updates the averages and
/// a failed read counts as no traffic and keeps the previous counters. When
/// the GPU is due, its answer, or its absence, replaces the last one.
pub open spec fn next_state(v: MonitorView, r: Readings) -> MonitorView {
    let (rx, tx) = match r.net {
        Some(p) => p,
        None => (v.prev_rx, v.prev_tx),
    };
    MonitorView {
        tick: if v.tick == u32::MAX { 0 } else { (v.tick + 1) as u32 },
        prev_cpu: match r.cpu {
            Some(c) => c,
            None => v.prev_cpu,
        },
        net_seeded: v.net_seeded || (v.net_due() && r.net is Some),
        prev_rx: if v.net_due() { rx } else { v.prev_rx },
        prev_tx: if v.net_due() { tx } else { v.prev_tx },
        rx_ema: if v.net_due() && v.net_seeded {
            ema_next(v.rx_ema as nat, raw_rate(v.prev_rx as nat, rx as nat)) as u128
        } else {
            v.rx_ema
        },
        tx_ema: if v.net_due() && v.net_seeded {
            ema_next(v.tx_ema as nat, raw_rate(v.prev_tx as nat, tx as nat)) as u128
        } else {
            v.tx_ema
        },
        gpu: if v.gpu_due() { r.gpu } else { v.gpu },
        ..v
    }
}

/// The line written at the end of a tick.
pub open spec fn tick_line(v: MonitorView, r: Readings) -> Seq<char> {
    let w = next_state(v, r);
    status_text(w.rx_ema as nat, w.tx_ema as nat, tick_cpu(v, r), r.mem, w.gpu)
}

/// The state reached after the readings `rs`, one tick each.
pub open spec fn run(v: MonitorView, rs: Seq<Readings>) -> MonitorView
    decreases rs.len(),
{
    if rs.len() == 0 {
        v
    } else {
        next_state(run(v, rs.drop_last()), rs.last())
    }
}

/// A tick keeps the invariant and the capabilities.
pub proof fn lemma_next_state_inv(v: MonitorView, r: Readings)
    requires
        v.inv(),
    ensures
        next_state(v, r).inv(),
        next_state(v, r).net_enabled == v.net_enabled,
        next_state(v, r).gpu_enabled == v.gpu_enabled,
        next_state(v, r).secondary_enabled == v.secondary_enabled,
{
    let (rx, tx) = match r.net {
        Some(p) => p,
        None => (v.prev_rx, v.prev_tx),
    };
    if v.net_due() {
        lemma_ema_step_bounded(v.rx_ema as nat, raw_rate(v.prev_rx as nat, rx as nat));
        lemma_ema_step_bounded(v.tx_ema as nat, raw_rate(v.prev_tx as nat, tx as nat));
    }
}

proof fn lemma_ema_step_bounded(ema: nat, raw: nat)
    requires
        ema <= ema_bound(),
        raw <= 2 * (u64::MAX as nat),
    ensures
        ema_next(ema, raw) <= ema_bound(),
{
}

/// Every state of a run keeps the invariant and the capabilities it started with.
pub proof fn lemma_run_inv(v: MonitorView, rs: Seq<Readings>)
    requires
        v.inv(),
    ensures
        run(v, rs).inv(),
        run(v, rs).net_enabled == v.net_enabled,
        run(v, rs).gpu_enabled == v.gpu_enabled,
        run(v, rs).secondary_enabled == v.secondary_enabled,
    decreases rs.len(),
{
    if rs.len() > 0 {
        lemma_run_inv(v, rs.drop_last());
        lemma_next_state_inv(run(v, rs.drop_last()), rs.last());
    }
}

/// Without a GPU at start-up no line of any run carries a GPU segment, whatever
/// GPU answers the readings hold later.
pub proof fn lemma_gpu_disabled_never_shown(net_enabled: bool, secondary_enabled: bool, rs: Seq<Readings>)
    ensures
        forall|k: int|
            #![trigger rs[k]]
            0 <= k < rs.len() ==> {
                let v = run(initial(net_enabled, false, secondary_enabled), rs.take(k));
                let w = next_state(v, rs[k]);
                tick_line(v, rs[k]) == status_text(
                    w.rx_ema as nat,
                    w.tx_ema as nat,
                    tick_cpu(v, rs[k]),
                    rs[k].mem,
                    None,
                )
            },
{
    let v0 = initial(net_enabled, false, secondary_enabled);
    assert forall|k: int| #![trigger rs[k]] 0 <= k < rs.len() implies {
        let v = run(v0, rs.take(k));
        let w = next_state(v, rs[k]);
        tick_line(v, rs[k]) == status_text(
            w.rx_ema as nat,
            w.tx_ema as nat,
            tick_cpu(v, rs[k]),
            rs[k].mem,
            None,
        )
    } by {
        lemma_run_inv(v0, rs.take(k));
        lemma_next_state_inv(run(v0, rs.take(k)), rs[k]);
    }
}

/// Without a network interface at start-up every line of any run shows zero
/// rates in both directions.
pub proof fn lemma_net_disabled_shows_zero(gpu_enabled: bool, secondary_enabled: bool, rs: Seq<Readings>)
    ensures
        net_text(0, 0) == seq![
            '\u{2193}', ' ', '0', ' ', 'B', '/', 's', ' ', '\u{2191}', ' ', '0', ' ', 'B', '/', 's',
        ],
        forall|k: int|
            #![trigger rs[k]]
            0 <= k < rs.len() ==> {
                let v = run(initial(false, gpu_enabled, secondary_enabled), rs.take(k));
                let w = next_state(v, rs[k]);
                tick_line(v, rs[k]) == status_text(
                    0,
                    0,
                    tick_cpu(v, rs[k]),
                    rs[k].mem,
                    w.gpu,
                )
            },
{
    assert(net_text(0, 0) =~= seq![
        '\u{2193}', ' ', '0', ' ', 'B', '/', 's', ' ', '\u{2191}', ' ', '0', ' ', 'B', '/', 's',
    ]);
    let v0 = initial(false, gpu_enabled, secondary_enabled);
    assert forall|k: int| #![trigger rs[k]] 0 <= k < rs.len() implies {
        let v = run(v0, rs.take(k));
        let w = next_state(v, rs[k]);
        tick_line(v, rs[k]) == status_text(
            0,
            0,
            tick_cpu(v, rs[k]),
            rs[k].mem,
            w.gpu,
        )
    } by {
        lemma_run_inv(v0, rs.take(k));
        lemma_next_state_inv(run(v0, rs.take(k)), rs[k]);
    }
}

impl View for Monitor {
    type V = MonitorView;

    closed spec fn view(&self) -> MonitorView {
        MonitorView {
            net_enabled: self.net_enabled,
            gpu_enabled: self.gpu_enabled,
            secondary_enabled: self.secondary_enabled,
            tick: self.tick,
            prev_cpu: self.prev_cpu,
            net_seeded: self.net_seeded,
            prev_rx: self.prev_rx,
            prev_tx: self.prev_tx,
            rx_ema: self.rx_ema,
            tx_ema: self.tx_ema,
            gpu: self.gpu,
        }
    }
}

impl Monitor {
    pub open spec fn wf(&self) -> bool {
        self@.inv()
    }

    /// Starts the loop with the capabilities found by the start-up probe.
    pub fn new(net_enabled: bool, gpu_enabled: bool, secondary_enabled: bool) -> (m: Monitor)
        ensures
            m@ == initial(net_enabled, gpu_enabled, secondary_enabled),
            m.wf(),
    {
        Monitor {
            net_enabled,
            gpu_enabled,
            secondary_enabled,
            tick: 0,
            prev_cpu: CpuTicks { idle: 0, total: 0 },
            net_seeded: false,
            prev_rx: 0,
            prev_tx: 0,
            rx_ema: 0,
            tx_ema: 0,
            gpu: None,
        }
    }

    /// Whether the network counters are to be read this tick.
    pub fn net_due(&self) -> (r: bool)
        ensures
            r == self@.net_due(),
    {
        self.net_enabled && self.tick % NET_EVERY == 0
    }

    /// Whether the GPU is to be queried this tick.
    pub fn gpu_due(&self) -> (r: bool)
        ensures
            r == self@.gpu_due(),
    {
        self.gpu_enabled && self.tick % GPU_EVERY == 0
    }

    /// Takes the readings of one tick and returns the line to write.
    pub fn step(&mut self, r: Readings) -> (out: TickOutput)
        requires
            old(self).wf(),
        ensures
            final(self)@ == next_state(old(self)@, r),
            final(self).wf(),
            out.line@ == tick_line(old(self)@, r),
            out.write_secondary == old(self)@.secondary_due(),
    {
        let cpu = match r.cpu {
            Some(c) => {
                let p = cpu_percent(self.prev_cpu, c);
                self.prev_cpu = c;
                p
            },
            None => 0,
        };
        if self.net_due() {
            let (rx, tx) = match r.net {
                Some(p) => p,
                None => (self.prev_rx, self.prev_tx),
            };
            if self.net_seeded {
                let rx_rate = net_rate(self.prev_rx, rx);
                let tx_rate = net_rate(self.prev_tx, tx);
                self.rx_ema = ema_update(self.rx_ema, rx_rate);
                self.tx_ema = ema_update(self.tx_ema, tx_rate);
            }
            self.net_seeded = self.net_seeded || r.net.is_some();
            self.prev_rx = rx;
            self.prev_tx = tx;
        }
        if self.gpu_due() {
            self.gpu = r.gpu;
        }
        let write_secondary = self.secondary_enabled && self.tick % SECONDARY_EVERY == 0;
        self.tick = self.tick.wrapping_add(1);
        let line = status_line(self.rx_ema, self.tx_ema, cpu, r.mem, self.gpu);
        TickOutput { line, write_secondary }
    }
}

} // verus!

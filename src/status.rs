//! Assembly of the status line from its segments.
use vstd::prelude::*;
use vstd::string::*;
use crate::decimal::{dec_chars, push_decimal, round_half_even, tenths_chars};
use crate::format::{
    MILLI_PER_B, MILLI_PER_GB, MILLI_PER_KB, MILLI_PER_MB, gpu_mem_text, mem_gb_text, push_gpu_mem, push_mem_gb, push_throughput, throughput_text,
};
use crate::sample::{used_kib, GpuReading, MemInfo};

verus! {

/// `s` right-aligned in a field three characters wide.
pub open spec fn pad3(s: Seq<char>) -> Seq<char> {
    if s.len() < 3 {
        Seq::new((3 - s.len()) as nat, |i: int| ' ') + s
    } else {
        s
    }
}

/// The network segment: inbound and outbound rates in thousandths of a byte per second.
pub open spec fn net_text(rx: nat, tx: nat) -> Seq<char> {
    seq!['\u{2193}', ' '] + throughput_text(rx) + seq![' ', '\u{2191}', ' '] + throughput_text(tx)
}

/// The CPU segment, the percentage right-aligned in three columns.
pub open spec fn cpu_text(pct: nat) -> Seq<char> {
    seq!['C', 'P', 'U', ':', ' '] + pad3(dec_chars(pct)) + seq!['%']
}

/// The memory segment; question marks when memory could not be read.
pub open spec fn ram_text(mem: Option<MemInfo>) -> Seq<char> {
    match mem {
        Some(m) => seq!['R', 'A', 'M', ':', ' '] + mem_gb_text(used_kib(m)) + seq!['/']
            + mem_gb_text(m.total_kib as nat) + seq!['G', 'B'],
        None => seq!['R', 'A', 'M', ':', ' ', '?', '/', '?', 'G', 'B'],
    }
}

/// The GPU segment.
pub open spec fn gpu_text(g: GpuReading) -> Seq<char> {
    seq!['G', 'P', 'U', ':', ' '] + dec_chars(g.util_pct as nat) + seq!['%', ' ']
        + gpu_mem_text(g.mem_used_mb as nat) + seq!['/'] + gpu_mem_text(g.mem_total_mb as nat)
}

/// The separator between the segments after the network segment.
pub open spec fn sep_text() -> Seq<char> {
    seq![' ', '|', ' ']
}

/// The whole status line: network segment, double pipe, then CPU, memory and,
/// when there is a reading, GPU, separated by single pipes.
pub open spec fn status_text(
    rx: nat,
    tx: nat,
    cpu: nat,
    mem: Option<MemInfo>,
    gpu: Option<GpuReading>,
) -> Seq<char> {
    net_text(rx, tx) + seq!['|', '|'] + cpu_text(cpu) + sep_text() + ram_text(mem) + match gpu {
        Some(g) => sep_text() + gpu_text(g),
        None => Seq::empty(),
    }
}

/// Whether `s` holds two pipes at `i` and `i + 1`.
pub open spec fn double_pipe_at(s: Seq<char>, i: int) -> bool {
    0 <= i && i + 1 < s.len() && s[i] == '|' && s[i + 1] == '|'
}

proof fn lemma_dec_len(n: nat)
    ensures
        n < 10 ==> dec_chars(n).len() == 1,
        10 <= n < 100 ==> dec_chars(n).len() == 2,
        100 <= n ==> dec_chars(n).len() >= 3,
    decreases n,
{
    if n >= 10 {
        lemma_dec_len(n / 10);
    }
}

/// No character of `s` is a pipe.
pub open spec fn pipe_free(s: Seq<char>) -> bool {
    forall|i: int| 0 <= i < s.len() ==> s[i] != '|'
}

/// Every pipe in `s` is followed by a space.
pub open spec fn pipes_spaced(s: Seq<char>) -> bool {
    forall|i: int| 0 <= i < s.len() && #[trigger] s[i] == '|' ==> i + 1 < s.len() && s[i + 1] == ' '
}

proof fn lemma_dec_pipe_free(n: nat)
    ensures
        pipe_free(dec_chars(n)),
    decreases n,
{
    if n >= 10 {
        lemma_dec_pipe_free(n / 10);
    }
}

proof fn lemma_tenths_pipe_free(t: nat)
    ensures
        pipe_free(tenths_chars(t)),
{
    lemma_dec_pipe_free(t / 10);
}

proof fn lemma_throughput_pipe_free(m: nat)
    ensures
        pipe_free(throughput_text(m)),
{
    lemma_tenths_pipe_free(round_half_even(m, (MILLI_PER_GB / 10) as nat));
    lemma_tenths_pipe_free(round_half_even(m, (MILLI_PER_MB / 10) as nat));
    lemma_dec_pipe_free(round_half_even(m, MILLI_PER_KB as nat));
    lemma_dec_pipe_free(round_half_even(m, MILLI_PER_B as nat));
}

proof fn lemma_gpu_mem_pipe_free(mb: nat)
    ensures
        pipe_free(gpu_mem_text(mb)),
{
    lemma_tenths_pipe_free(round_half_even(10 * mb, 1024));
    lemma_dec_pipe_free(mb);
}

proof fn lemma_segments_pipe_free(
    rx: nat,
    tx: nat,
    cpu: nat,
    mem: Option<MemInfo>,
    g: GpuReading,
)
    ensures
        pipe_free(net_text(rx, tx)),
        pipe_free(cpu_text(cpu)),
        pipe_free(ram_text(mem)),
        pipe_free(gpu_text(g)),
{
    lemma_throughput_pipe_free(rx);
    lemma_throughput_pipe_free(tx);
    lemma_dec_pipe_free(cpu);
    if let Some(m) = mem {
        lemma_tenths_pipe_free(round_half_even(10 * used_kib(m), 1_048_576));
        lemma_tenths_pipe_free(round_half_even(10 * (m.total_kib as nat), 1_048_576));
    }
    lemma_dec_pipe_free(g.util_pct as nat);
    lemma_gpu_mem_pipe_free(g.mem_used_mb as nat);
    lemma_gpu_mem_pipe_free(g.mem_total_mb as nat);
}

/// The status line holds the double pipe exactly once: right after the
/// network segment, and nowhere else.
pub proof fn lemma_single_double_pipe(
    rx: nat,
    tx: nat,
    cpu: nat,
    mem: Option<MemInfo>,
    gpu: Option<GpuReading>,
)
    ensures
        forall|i: int|
            double_pipe_at(status_text(rx, tx, cpu, mem, gpu), i) <==> i == net_text(rx, tx).len(),
{
    let g = match gpu {
        Some(g) => g,
        None => GpuReading { util_pct: 0, mem_used_mb: 0, mem_total_mb: 0 },
    };
    lemma_segments_pipe_free(rx, tx, cpu, mem, g);
    let net = net_text(rx, tx);
    let tail = match gpu {
        Some(g) => sep_text() + gpu_text(g),
        None => Seq::empty(),
    };
    let rest = cpu_text(cpu) + sep_text() + ram_text(mem) + tail;
    assert(pipes_spaced(tail));
    assert(pipes_spaced(rest));
    assert(rest[0] == 'C');
    let line = status_text(rx, tx, cpu, mem, gpu);
    assert(line =~= net + seq!['|', '|'] + rest);
    assert forall|i: int| double_pipe_at(line, i) implies i == net.len() by {
        if i < net.len() {
            assert(line[i] == net[i]);
        } else if i == net.len() + 1 {
            assert(line[i + 1] == rest[0]);
        } else if i > net.len() + 1 {
            assert(line[i] == rest[i - net.len() - 2]);
            assert(line[i + 1] == rest[i - net.len() - 1]);
        }
    }
}

/// Appends the network segment.
pub fn push_net(s: &mut String, rx: u128, tx: u128)
    ensures
        final(s)@ == old(s)@ + net_text(rx as nat, tx as nat),
{
    proof {
        reveal_strlit("\u{2193} ");
        reveal_strlit(" \u{2191} ");
    }
    s.append("\u{2193} ");
    push_throughput(s, rx);
    s.append(" \u{2191} ");
    push_throughput(s, tx);
    proof {
        assert(s@ =~= old(s)@ + net_text(rx as nat, tx as nat));
    }
}

/// Appends the CPU segment.
pub fn push_cpu(s: &mut String, pct: u64)
    ensures
        final(s)@ == old(s)@ + cpu_text(pct as nat),
{
    proof {
        reveal_strlit("CPU: ");
        reveal_strlit("  ");
        reveal_strlit(" ");
        reveal_strlit("%");
        lemma_dec_len(pct as nat);
    }
    s.append("CPU: ");
    if pct < 10 {
        s.append("  ");
    } else if pct < 100 {
        s.append(" ");
    }
    push_decimal(s, pct as u128);
    s.append("%");
    proof {
        assert(s@ =~= old(s)@ + cpu_text(pct as nat));
    }
}

/// Appends the memory segment.
pub fn push_ram(s: &mut String, mem: Option<MemInfo>)
    ensures
        final(s)@ == old(s)@ + ram_text(mem),
{
    proof {
        reveal_strlit("RAM: ");
        reveal_strlit("/");
        reveal_strlit("GB");
        reveal_strlit("RAM: ?/?GB");
    }
    match mem {
        Some(m) => {
            s.append("RAM: ");
            push_mem_gb(s, m.used_kib());
            s.append("/");
            push_mem_gb(s, m.total_kib);
            s.append("GB");
        },
        None => {
            s.append("RAM: ?/?GB");
        },
    }
    proof {
        assert(s@ =~= old(s)@ + ram_text(mem));
    }
}

/// Appends the GPU segment.
pub fn push_gpu(s: &mut String, g: GpuReading)
    ensures
        final(s)@ == old(s)@ + gpu_text(g),
{
    proof {
        reveal_strlit("GPU: ");
        reveal_strlit("% ");
        reveal_strlit("/");
    }
    s.append("GPU: ");
    push_decimal(s, g.util_pct as u128);
    s.append("% ");
    push_gpu_mem(s, g.mem_used_mb);
    s.append("/");
    push_gpu_mem(s, g.mem_total_mb);
    proof {
        assert(s@ =~= old(s)@ + gpu_text(g));
    }
}

/// Renders the GPU segment.
pub fn format_gpu(g: GpuReading) -> (r: String)
    ensures
        r@ == gpu_text(g),
{
    let mut s = String::new();
    push_gpu(&mut s, g);
    s
}

/// Builds the status line; rates are in thousandths of a byte per second.
pub fn status_line(
    rx: u128,
    tx: u128,
    cpu: u64,
    mem: Option<MemInfo>,
    gpu: Option<GpuReading>,
) -> (r: String)
    ensures
        r@ == status_text(rx as nat, tx as nat, cpu as nat, mem, gpu),
{
    proof {
        reveal_strlit("||");
        reveal_strlit(" | ");
    }
    let mut s = String::new();
    push_net(&mut s, rx, tx);
    s.append("||");
    push_cpu(&mut s, cpu);
    s.append(" | ");
    push_ram(&mut s, mem);
    if let Some(g) = gpu {
        s.append(" | ");
        push_gpu(&mut s, g);
    }
    proof {
        assert(s@ =~= status_text(rx as nat, tx as nat, cpu as nat, mem, gpu));
    }
    s
}

} // verus!

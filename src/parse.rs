//! Parsers for the kernel's text files and the GPU tool's answer.
use vstd::prelude::*;
use vstd::slice::{slice_subrange, slice_to_vec};
use crate::number::{bounded_value, parse_unsigned};
use crate::sample::{CpuTicks, GpuReading, MemInfo};
use crate::text::{
    ascii, ascii_bytes, byte_offset, field_spans, fields_in, find_byte, line_spans, lines,
    piece_spans, pieces_in, span_is, span_starts_with, spans_view, starts_with, trim_span, trimmed,
};

verus! {

/// The bytes of a span.
pub open spec fn span_bytes(s: Seq<u8>, p: (int, int)) -> Seq<u8> {
    s.subrange(p.0, p.1)
}

/// The number in a span, when it fits in a `u64`.
pub open spec fn span_u64(s: Seq<u8>, p: (int, int)) -> Option<nat> {
    bounded_value(span_bytes(s, p), u64::MAX as nat)
}

// ---------------------------------------------------------------- interface counters

/// Whether a line of the interface table belongs to the interface `name`:
/// stripped of surrounding whitespace, it starts with the name and a colon.
pub open spec fn dev_line_matches(s: Seq<u8>, l: (int, int), name: Seq<u8>) -> bool {
    let t = trimmed(s, l.0, l.1);
    starts_with(s, t.0, t.1, name.push(58))
}

/// The received and transmitted byte counts of an interface table line: its
/// second and tenth fields.
pub open spec fn dev_counters(s: Seq<u8>, l: (int, int)) -> Option<(u64, u64)> {
    let fs = fields_in(s, l.0, l.1);
    if fs.len() < 10 {
        None
    } else {
        match (span_u64(s, fs[1]), span_u64(s, fs[9])) {
            (Some(rx), Some(tx)) => Some((rx as u64, tx as u64)),
            _ => None,
        }
    }
}

/// The counters of the first line, from the `k`-th on, that belongs to `name`.
pub open spec fn net_dev_from(s: Seq<u8>, ls: Seq<(int, int)>, name: Seq<u8>, k: int) -> Option<
    (u64, u64),
>
    decreases ls.len() - k,
{
    if k < 0 || k >= ls.len() {
        None
    } else if dev_line_matches(s, ls[k], name) {
        dev_counters(s, ls[k])
    } else {
        net_dev_from(s, ls, name, k + 1)
    }
}

/// The counters of `name` in the interface table `s`.
pub open spec fn net_dev(s: Seq<u8>, name: Seq<u8>) -> Option<(u64, u64)> {
    net_dev_from(s, lines(s), name, 0)
}

fn read_dev_counters(s: &[u8], start: usize, end: usize) -> (r: Option<(u64, u64)>)
    requires
        start <= end <= s@.len(),
    ensures
        r == dev_counters(s@, (start as int, end as int)),
{
    let fs = field_spans(s, start, end);
    proof {
        assert(spans_view(fs@).len() == fs@.len());
    }
    if fs.len() < 10 {
        return None;
    }
    let ghost v = spans_view(fs@);
    assert(v[1] == (fs@[1].0 as int, fs@[1].1 as int));
    assert(v[9] == (fs@[9].0 as int, fs@[9].1 as int));
    let rx = parse_unsigned(s, fs[1].0, fs[1].1, u64::MAX);
    let tx = parse_unsigned(s, fs[9].0, fs[9].1, u64::MAX);
    match (rx, tx) {
        (Some(a), Some(b)) => Some((a, b)),
        _ => None,
    }
}

/// Reads the received and transmitted byte counts of interface `name` from
/// the kernel's interface table.
pub fn parse_net_dev(s: &[u8], name: &[u8]) -> (r: Option<(u64, u64)>)
    ensures
        r == net_dev(s@, name@),
{
    let ls = line_spans(s);
    let mut prefix: Vec<u8> = slice_to_vec(name);
    prefix.push(58);
    let mut k: usize = 0;
    while k < ls.len()
        invariant
            spans_view(ls@) == lines(s@),
            k <= ls@.len(),
            prefix@ == name@.push(58),
            net_dev(s@, name@) == net_dev_from(s@, lines(s@), name@, k as int),
            forall|m: int| 0 <= m < ls@.len() ==> #[trigger] ls@[m].0 <= ls@[m].1 <= s@.len(),
        decreases ls.len() - k,
    {
        let (a, b) = ls[k];
        let (x, y) = trim_span(s, a, b);
        assert(spans_view(ls@)[k as int] == (a as int, b as int));
        if span_starts_with(s, x, y, prefix.as_slice()) {
            return read_dev_counters(s, a, b);
        }
        k = k + 1;
    }
    None
}

// ---------------------------------------------------------------- memory

/// The key of the line that gives the memory installed.
pub open spec fn mem_total_key() -> Seq<u8> {
    ascii(seq!['M', 'e', 'm', 'T', 'o', 't', 'a', 'l', ':'])
}

/// The key of the line that gives the memory available.
pub open spec fn mem_available_key() -> Seq<u8> {
    ascii(seq!['M', 'e', 'm', 'A', 'v', 'a', 'i', 'l', 'a', 'b', 'l', 'e', ':'])
}

/// The number in the second field of a line, zero when there is none.
pub open spec fn second_field_or_zero(s: Seq<u8>, l: (int, int)) -> u64 {
    let fs = fields_in(s, l.0, l.1);
    if fs.len() < 2 {
        0
    } else {
        match span_u64(s, fs[1]) {
            Some(v) => v as u64,
            None => 0,
        }
    }
}

/// Memory totals after the first `n` lines: each line that starts with one of
/// the two keys sets that total; a later line wins.
pub open spec fn meminfo_upto(s: Seq<u8>, ls: Seq<(int, int)>, n: int) -> MemInfo
    decreases n,
{
    if n <= 0 || n > ls.len() {
        MemInfo { total_kib: 0, available_kib: 0 }
    } else {
        let m = meminfo_upto(s, ls, n - 1);
        let l = ls[n - 1];
        if starts_with(s, l.0, l.1, mem_total_key()) {
            MemInfo { total_kib: second_field_or_zero(s, l), ..m }
        } else if starts_with(s, l.0, l.1, mem_available_key()) {
            MemInfo { available_kib: second_field_or_zero(s, l), ..m }
        } else {
            m
        }
    }
}

/// The memory totals, in KiB, of the kernel's memory report.
pub open spec fn meminfo(s: Seq<u8>) -> MemInfo {
    meminfo_upto(s, lines(s), lines(s).len() as int)
}

fn read_second_field(s: &[u8], start: usize, end: usize) -> (r: u64)
    requires
        start <= end <= s@.len(),
    ensures
        r == second_field_or_zero(s@, (start as int, end as int)),
{
    let fs = field_spans(s, start, end);
    proof {
        assert(spans_view(fs@).len() == fs@.len());
    }
    if fs.len() < 2 {
        return 0;
    }
    assert(spans_view(fs@)[1] == (fs@[1].0 as int, fs@[1].1 as int));
    match parse_unsigned(s, fs[1].0, fs[1].1, u64::MAX) {
        Some(v) => v,
        None => 0,
    }
}

/// Reads the memory installed and available from the kernel's memory report.
/// A key that is missing, or whose value cannot be read, gives zero.
pub fn parse_meminfo(s: &[u8]) -> (r: MemInfo)
    ensures
        r == meminfo(s@),
{
    proof {
        reveal_strlit("MemTotal:");
        reveal_strlit("MemAvailable:");
    }
    let total_key = ascii_bytes("MemTotal:");
    let avail_key = ascii_bytes("MemAvailable:");
    proof {
        assert(total_key@ =~= mem_total_key());
        assert(avail_key@ =~= mem_available_key());
    }
    let ls = line_spans(s);
    let mut m = MemInfo { total_kib: 0, available_kib: 0 };
    let mut k: usize = 0;
    while k < ls.len()
        invariant
            spans_view(ls@) == lines(s@),
            k <= ls@.len(),
            total_key@ == mem_total_key(),
            avail_key@ == mem_available_key(),
            m == meminfo_upto(s@, lines(s@), k as int),
            forall|j: int| 0 <= j < ls@.len() ==> #[trigger] ls@[j].0 <= ls@[j].1 <= s@.len(),
        decreases ls.len() - k,
    {
        let (a, b) = ls[k];
        assert(spans_view(ls@)[k as int] == (a as int, b as int));
        if span_starts_with(s, a, b, total_key) {
            m = MemInfo { total_kib: read_second_field(s, a, b), ..m };
        } else if span_starts_with(s, a, b, avail_key) {
            m = MemInfo { available_kib: read_second_field(s, a, b), ..m };
        }
        k = k + 1;
    }
    m
}

// ---------------------------------------------------------------- CPU time

/// The numbers among the fields `1 .. n` of a line, in order; fields that are
/// not numbers are left out.
pub open spec fn stat_values(s: Seq<u8>, fs: Seq<(int, int)>, n: int) -> Seq<nat>
    decreases n,
{
    if n <= 1 || n > fs.len() {
        Seq::empty()
    } else {
        let prev = stat_values(s, fs, n - 1);
        match span_u64(s, fs[n - 1]) {
            Some(v) => prev.push(v),
            None => prev,
        }
    }
}

pub open spec fn seq_sum(v: Seq<nat>) -> nat
    decreases v.len(),
{
    if v.len() == 0 {
        0
    } else {
        seq_sum(v.drop_last()) + v.last()
    }
}

/// The CPU time counters of the kernel's statistics: on the first line, the
/// numbers after the label; idle time is the fourth plus the fifth (when
/// there is one), total time the sum of all. Absent when there are fewer than
/// four numbers or the sum does not fit in a `u64`.
pub open spec fn cpu_stat(s: Seq<u8>) -> Option<CpuTicks> {
    let ls = lines(s);
    if ls.len() == 0 {
        None
    } else {
        let fs = fields_in(s, ls[0].0, ls[0].1);
        let v = stat_values(s, fs, fs.len() as int);
        if v.len() < 4 || seq_sum(v) > u64::MAX {
            None
        } else {
            Some(
                CpuTicks {
                    idle: (v[3] + if v.len() > 4 { v[4] } else { 0 }) as u64,
                    total: seq_sum(v) as u64,
                },
            )
        }
    }
}

proof fn lemma_sum_prefix(v: Seq<nat>, n: int)
    requires
        0 <= n <= v.len(),
    ensures
        seq_sum(v.take(n)) <= seq_sum(v),
    decreases v.len(),
{
    if n < v.len() {
        assert(v.drop_last().take(n) =~= v.take(n));
        lemma_sum_prefix(v.drop_last(), n);
    } else {
        assert(v.take(n) =~= v);
    }
}

proof fn lemma_sum_idle(v: Seq<nat>)
    requires
        v.len() >= 4,
    ensures
        v[3] + (if v.len() > 4 { v[4] } else { 0 }) <= seq_sum(v),
{
    let n: int = if v.len() > 4 { 5 } else { 4 };
    lemma_sum_prefix(v, n);
    let p = v.take(n);
    assert(p.drop_last().drop_last().drop_last().drop_last() =~= v.take(n - 4));
    if n == 5 {
        assert(p.drop_last().drop_last().drop_last() =~= v.take(2));
        assert(p.drop_last().drop_last().drop_last().drop_last() =~= v.take(1));
        assert(seq_sum(p.drop_last()) >= v[3]);
    } else {
        assert(seq_sum(p) >= v[3]);
    }
}

/// Reads the cumulative CPU time counters from the kernel's statistics.
pub fn parse_cpu_stat(s: &[u8]) -> (r: Option<CpuTicks>)
    ensures
        r == cpu_stat(s@),
{
    let ls = line_spans(s);
    proof {
        assert(spans_view(ls@).len() == ls@.len());
    }
    if ls.len() == 0 {
        return None;
    }
    let (a, b) = ls[0];
    assert(spans_view(ls@)[0] == (a as int, b as int));
    let fs = field_spans(s, a, b);
    let ghost fv = spans_view(fs@);
    let mut vals: Vec<u64> = Vec::new();
    let mut sum: u64 = 0;
    let mut k: usize = 1;
    while k < fs.len()
        invariant
            fv == spans_view(fs@),
            fv == fields_in(s@, a as int, b as int),
            lines(s@).len() > 0,
            lines(s@)[0] == (a as int, b as int),
            1 <= k,
            k <= fs@.len() || fs@.len() == 0,
            vals@.map_values(|x: u64| x as nat) == stat_values(s@, fv, k as int),
            sum as nat == seq_sum(stat_values(s@, fv, k as int)),
            forall|j: int| 0 <= j < fs@.len() ==> a <= #[trigger] fs@[j].0 <= fs@[j].1 <= b,
            b <= s@.len(),
        decreases fs.len() - k,
    {
        assert(fv[k as int] == (fs@[k as int].0 as int, fs@[k as int].1 as int));
        let ghost prev = stat_values(s@, fv, k as int);
        match parse_unsigned(s, fs[k].0, fs[k].1, u64::MAX) {
            Some(x) => {
                let ghost before = vals@;
                vals.push(x);
                proof {
                    assert(vals@.map_values(|x: u64| x as nat) =~= before.map_values(
                        |x: u64| x as nat,
                    ).push(x as nat));
                    assert(prev.push(x as nat).drop_last() =~= prev);
                }
                if sum > u64::MAX - x {
                    proof {
                        let all = stat_values(s@, fv, fv.len() as int);
                        assert(stat_values(s@, fv, k + 1) == prev.push(x as nat));
                        let c = stat_values(s@, fv, k + 1).len() as int;
                        lemma_stat_values_prefix(s@, fv, k + 1, fv.len() as int);
                        lemma_stat_values_len(s@, fv, k + 1, fv.len() as int);
                        lemma_sum_prefix(all, c);
                        assert(seq_sum(prev.push(x as nat)) == sum + x);
                        assert(seq_sum(all) > u64::MAX);
                    }
                    return None;
                }
                sum = sum + x;
            },
            None => {},
        }
        k = k + 1;
    }
    let ghost v = stat_values(s@, fv, fs@.len() as int);
    proof {
        if fs@.len() == 0 {
            assert(v =~= Seq::<nat>::empty());
        } else {
            assert(k == fs@.len());
        }
        assert(vals@.len() == v.len());
    }
    if vals.len() < 4 {
        return None;
    }
    proof {
        assert(v[3] == vals@[3] as nat);
        if v.len() > 4 {
            assert(v[4] == vals@[4] as nat);
        }
        lemma_sum_idle(v);
    }
    let idle = if vals.len() > 4 { vals[3] + vals[4] } else { vals[3] };
    Some(CpuTicks { idle, total: sum })
}

proof fn lemma_stat_values_prefix(s: Seq<u8>, fs: Seq<(int, int)>, n: int, m: int)
    requires
        1 <= n <= m <= fs.len(),
    ensures
        stat_values(s, fs, m).take(stat_values(s, fs, n).len() as int) == stat_values(s, fs, n),
    decreases m - n,
{
    if n < m {
        lemma_stat_values_prefix(s, fs, n, m - 1);
        let p = stat_values(s, fs, m - 1);
        let q = stat_values(s, fs, m);
        let c = stat_values(s, fs, n).len() as int;
        lemma_stat_values_len(s, fs, n, m - 1);
        assert(q.take(c) =~= p.take(c));
    } else {
        assert(stat_values(s, fs, m).take(stat_values(s, fs, n).len() as int) =~= stat_values(
            s,
            fs,
            n,
        ));
    }
}

proof fn lemma_stat_values_len(s: Seq<u8>, fs: Seq<(int, int)>, n: int, m: int)
    requires
        1 <= n <= m <= fs.len(),
    ensures
        stat_values(s, fs, n).len() <= stat_values(s, fs, m).len(),
    decreases m - n,
{
    if n < m {
        lemma_stat_values_len(s, fs, n, m - 1);
    }
}

// ---------------------------------------------------------------- GPU tool

/// The number in a comma-separated piece, stripped of surrounding whitespace,
/// when it fits in a `u32`.
pub open spec fn piece_u32(s: Seq<u8>, p: (int, int)) -> Option<nat> {
    let t = trimmed(s, p.0, p.1);
    bounded_value(s.subrange(t.0, t.1), u32::MAX as nat)
}

/// The GPU tool's answer: the whole output stripped of surrounding
/// whitespace, split at commas into exactly three pieces: utilisation, memory
/// used and memory installed. Absent with any other number of pieces or when
/// one of the three is not a number that fits in a `u32`.
pub open spec fn gpu_query(s: Seq<u8>) -> Option<GpuReading> {
    let t = trimmed(s, 0, s.len() as int);
    let ps = pieces_in(s, t.0, t.1);
    if ps.len() != 3 {
        None
    } else {
        match (piece_u32(s, ps[0]), piece_u32(s, ps[1]), piece_u32(s, ps[2])) {
            (Some(u), Some(m), Some(n)) => Some(
                GpuReading { util_pct: u as u32, mem_used_mb: m as u32, mem_total_mb: n as u32 },
            ),
            _ => None,
        }
    }
}

fn read_piece_u32(s: &[u8], start: usize, end: usize) -> (r: Option<u32>)
    requires
        start <= end <= s@.len(),
    ensures
        match r {
            Some(x) => piece_u32(s@, (start as int, end as int)) == Some(x as nat),
            None => piece_u32(s@, (start as int, end as int)) is None,
        },
{
    let (a, b) = trim_span(s, start, end);
    match parse_unsigned(s, a, b, u32::MAX as u64) {
        Some(v) => Some(v as u32),
        None => None,
    }
}

/// Reads utilisation and memory figures from the GPU tool's answer.
pub fn parse_gpu_query(s: &[u8]) -> (r: Option<GpuReading>)
    ensures
        r == gpu_query(s@),
{
    let (a, b) = trim_span(s, 0, s.len());
    let ps = piece_spans(s, a, b);
    let ghost pv = spans_view(ps@);
    proof {
        assert(pv.len() == ps@.len());
    }
    if ps.len() != 3 {
        return None;
    }
    assert(pv[0] == (ps@[0].0 as int, ps@[0].1 as int));
    assert(pv[1] == (ps@[1].0 as int, ps@[1].1 as int));
    assert(pv[2] == (ps@[2].0 as int, ps@[2].1 as int));
    let u = read_piece_u32(s, ps[0].0, ps[0].1);
    let m = read_piece_u32(s, ps[1].0, ps[1].1);
    let n = read_piece_u32(s, ps[2].0, ps[2].1);
    match (u, m, n) {
        (Some(u), Some(m), Some(n)) => Some(
            GpuReading { util_pct: u, mem_used_mb: m, mem_total_mb: n },
        ),
        _ => None,
    }
}

// ---------------------------------------------------------------- interface choice

/// The destination field of the default route.
pub open spec fn default_dest() -> Seq<u8> {
    ascii(seq!['0', '0', '0', '0', '0', '0', '0', '0'])
}

/// The interface of the first default route in the routing table, from line
/// `k` on: a line whose second field is all zeros names it in its first.
pub open spec fn route_from(s: Seq<u8>, ls: Seq<(int, int)>, k: int) -> Option<Seq<u8>>
    decreases ls.len() - k,
{
    if k < 0 || k >= ls.len() {
        None
    } else {
        let fs = fields_in(s, ls[k].0, ls[k].1);
        if fs.len() >= 2 && span_is(s, fs[1].0, fs[1].1, default_dest()) {
            Some(span_bytes(s, fs[0]))
        } else {
            route_from(s, ls, k + 1)
        }
    }
}

/// The interface of the default route; the table's first line is its header.
pub open spec fn route_iface(s: Seq<u8>) -> Option<Seq<u8>> {
    route_from(s, lines(s), 1)
}

/// Whether an interface name is worth watching: not the loopback, nor a
/// container bridge.
pub open spec fn watchable(name: Seq<u8>) -> bool {
    &&& name != ascii(seq!['l', 'o'])
    &&& !starts_with(name, 0, name.len() as int, ascii(seq!['d', 'o', 'c', 'k', 'e', 'r']))
    &&& !starts_with(name, 0, name.len() as int, ascii(seq!['b', 'r', '-']))
}

/// The interface name of a line of the interface table: what stands before
/// the first colon, stripped of surrounding whitespace.
pub open spec fn dev_name(s: Seq<u8>, l: (int, int)) -> (int, int) {
    trimmed(s, l.0, l.0 + byte_offset(s, l.0, l.1, 58))
}

/// The first watchable interface in the interface table, from line `k` on.
pub open spec fn dev_from(s: Seq<u8>, ls: Seq<(int, int)>, k: int) -> Option<Seq<u8>>
    decreases ls.len() - k,
{
    if k < 0 || k >= ls.len() {
        None
    } else {
        let name = span_bytes(s, dev_name(s, ls[k]));
        if watchable(name) {
            Some(name)
        } else {
            dev_from(s, ls, k + 1)
        }
    }
}

/// The first watchable interface; the table's first two lines are its header.
pub open spec fn dev_iface(s: Seq<u8>) -> Option<Seq<u8>> {
    dev_from(s, lines(s), 2)
}

/// The interface to watch: that of the default route, else the first
/// watchable one of the interface table.
pub open spec fn chosen_iface(route: Option<Seq<u8>>, dev: Option<Seq<u8>>) -> Option<Seq<u8>> {
    let from_route = match route {
        Some(r) => route_iface(r),
        None => None,
    };
    match from_route {
        Some(n) => Some(n),
        None => match dev {
            Some(d) => dev_iface(d),
            None => None,
        },
    }
}

/// An optional byte vector as an optional sequence.
pub open spec fn opt_bytes(r: Option<Vec<u8>>) -> Option<Seq<u8>> {
    match r {
        Some(v) => Some(v@),
        None => None,
    }
}

fn find_route_iface(s: &[u8]) -> (r: Option<Vec<u8>>)
    ensures
        opt_bytes(r) == route_iface(s@),
{
    proof {
        reveal_strlit("00000000");
    }
    let dest = ascii_bytes("00000000");
    proof {
        assert(dest@ =~= default_dest());
    }
    let ls = line_spans(s);
    let mut k: usize = 1;
    while k < ls.len()
        invariant
            spans_view(ls@) == lines(s@),
            1 <= k,
            dest@ == default_dest(),
            route_iface(s@) == route_from(s@, lines(s@), k as int),
            forall|j: int| 0 <= j < ls@.len() ==> #[trigger] ls@[j].0 <= ls@[j].1 <= s@.len(),
        decreases ls.len() - k,
    {
        let (a, b) = ls[k];
        assert(spans_view(ls@)[k as int] == (a as int, b as int));
        let fs = field_spans(s, a, b);
        let ghost fv = spans_view(fs@);
        assert(fv.len() == fs@.len());
        if fs.len() >= 2 {
            assert(fv[0] == (fs@[0].0 as int, fs@[0].1 as int));
            assert(fv[1] == (fs@[1].0 as int, fs@[1].1 as int));
            let (x, y) = fs[1];
            if y - x == dest.len() && span_starts_with(s, x, y, dest) {
                let name = slice_to_vec(slice_subrange(s, fs[0].0, fs[0].1));
                return Some(name);
            }
        }
        k = k + 1;
    }
    None
}

fn find_dev_iface(s: &[u8]) -> (r: Option<Vec<u8>>)
    ensures
        opt_bytes(r) == dev_iface(s@),
{
    proof {
        reveal_strlit("lo");
        reveal_strlit("docker");
        reveal_strlit("br-");
    }
    let lo = ascii_bytes("lo");
    let docker = ascii_bytes("docker");
    let bridge = ascii_bytes("br-");
    proof {
        assert(lo@ =~= ascii(seq!['l', 'o']));
        assert(docker@ =~= ascii(seq!['d', 'o', 'c', 'k', 'e', 'r']));
        assert(bridge@ =~= ascii(seq!['b', 'r', '-']));
    }
    let ls = line_spans(s);
    let mut k: usize = 2;
    while k < ls.len()
        invariant
            spans_view(ls@) == lines(s@),
            2 <= k,
            lo@ == ascii(seq!['l', 'o']),
            docker@ == ascii(seq!['d', 'o', 'c', 'k', 'e', 'r']),
            bridge@ == ascii(seq!['b', 'r', '-']),
            dev_iface(s@) == dev_from(s@, lines(s@), k as int),
            forall|j: int| 0 <= j < ls@.len() ==> #[trigger] ls@[j].0 <= ls@[j].1 <= s@.len(),
        decreases ls.len() - k,
    {
        let (a, b) = ls[k];
        assert(spans_view(ls@)[k as int] == (a as int, b as int));
        let c = find_byte(s, a, b, 58);
        let (x, y) = trim_span(s, a, c);
        let name = slice_subrange(s, x, y);
        let is_lo = name.len() == lo.len() && span_starts_with(name, 0, name.len(), lo);
        let is_docker = span_starts_with(name, 0, name.len(), docker);
        let is_bridge = span_starts_with(name, 0, name.len(), bridge);
        proof {
            if !is_lo {
                if name@ == lo@ {
                    assert(name@.subrange(0, lo@.len() as int) =~= name@);
                }
            } else {
                assert(name@.subrange(0, lo@.len() as int) =~= name@);
            }
        }
        if !is_lo && !is_docker && !is_bridge {
            return Some(slice_to_vec(name));
        }
        k = k + 1;
    }
    None
}

/// Chooses the interface to watch from the routing table and the interface
/// table, each absent when it could not be read.
pub fn select_interface(route: Option<&[u8]>, dev: Option<&[u8]>) -> (r: Option<Vec<u8>>)
    ensures
        opt_bytes(r) == chosen_iface(
            match route {
                Some(t) => Some(t@),
                None => None,
            },
            match dev {
                Some(t) => Some(t@),
                None => None,
            },
        ),
{
    if let Some(t) = route {
        if let Some(name) = find_route_iface(t) {
            return Some(name);
        }
    }
    match dev {
        Some(t) => find_dev_iface(t),
        None => None,
    }
}

} // verus!

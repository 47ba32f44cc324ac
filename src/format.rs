//! Rendering of readings into the fixed-layout texts of the status line.
use vstd::prelude::*;
use vstd::string::*;
use crate::decimal::{
    dec_chars, div_round_half_even, push_decimal, push_tenths, round_half_even, tenths_chars,
};

verus! {

/// Thousandths of a byte per second in one gigabyte per second.
pub const MILLI_PER_GB: u128 = 1_000_000_000_000;
/// Thousandths of a byte per second in one megabyte per second.
pub const MILLI_PER_MB: u128 = 1_000_000_000;
/// Thousandths of a byte per second in one kilobyte per second.
pub const MILLI_PER_KB: u128 = 1_000_000;
/// Thousandths of a byte per second in one byte per second.
pub const MILLI_PER_B: u128 = 1_000;

/// A rate given in thousandths of a byte per second, in the largest decimal
/// unit in which it is at least one: GB/s and MB/s with one decimal place,
/// KB/s and B/s with none, rounded to nearest with ties to even.
pub open spec fn throughput_text(m: nat) -> Seq<char> {
    if m >= MILLI_PER_GB {
        tenths_chars(round_half_even(m, (MILLI_PER_GB / 10) as nat)) + seq![' ', 'G', 'B', '/', 's']
    } else if m >= MILLI_PER_MB {
        tenths_chars(round_half_even(m, (MILLI_PER_MB / 10) as nat)) + seq![' ', 'M', 'B', '/', 's']
    } else if m >= MILLI_PER_KB {
        dec_chars(round_half_even(m, MILLI_PER_KB as nat)) + seq![' ', 'K', 'B', '/', 's']
    } else {
        dec_chars(round_half_even(m, MILLI_PER_B as nat)) + seq![' ', 'B', '/', 's']
    }
}

/// GPU memory given in MiB: one decimal place of GiB from 1024 MiB up, whole MiB below.
pub open spec fn gpu_mem_text(mb: nat) -> Seq<char> {
    if mb >= 1024 {
        tenths_chars(round_half_even(10 * mb, 1024)) + seq!['G']
    } else {
        dec_chars(mb) + seq!['M']
    }
}

/// Memory given in KiB, as GiB with one decimal place.
pub open spec fn mem_gb_text(kib: nat) -> Seq<char> {
    tenths_chars(round_half_even(10 * kib, 1_048_576))
}

/// Appends the text of a rate in thousandths of a byte per second.
pub fn push_throughput(s: &mut String, m: u128)
    ensures
        final(s)@ == old(s)@ + throughput_text(m as nat),
{
    proof {
        reveal_strlit(" GB/s");
        reveal_strlit(" MB/s");
        reveal_strlit(" KB/s");
        reveal_strlit(" B/s");
    }
    if m >= MILLI_PER_GB {
        push_tenths(s, div_round_half_even(m, MILLI_PER_GB / 10));
        s.append(" GB/s");
    } else if m >= MILLI_PER_MB {
        push_tenths(s, div_round_half_even(m, MILLI_PER_MB / 10));
        s.append(" MB/s");
    } else if m >= MILLI_PER_KB {
        push_decimal(s, div_round_half_even(m, MILLI_PER_KB));
        s.append(" KB/s");
    } else {
        push_decimal(s, div_round_half_even(m, MILLI_PER_B));
        s.append(" B/s");
    }
    proof {
        assert(s@ =~= old(s)@ + throughput_text(m as nat));
    }
}

/// Renders a rate given in whole bytes per second.
pub fn format_throughput(bytes_per_sec: u64) -> (r: String)
    ensures
        r@ == throughput_text(bytes_per_sec as nat * 1000),
{
    let mut s = String::new();
    push_throughput(&mut s, bytes_per_sec as u128 * MILLI_PER_B);
    s
}

/// Renders a rate given in thousandths of a byte per second.
pub fn format_milli_rate(milli: u128) -> (r: String)
    ensures
        r@ == throughput_text(milli as nat),
{
    let mut s = String::new();
    push_throughput(&mut s, milli);
    s
}

/// Appends the text of a GPU memory figure in MiB.
pub fn push_gpu_mem(s: &mut String, mb: u32)
    ensures
        final(s)@ == old(s)@ + gpu_mem_text(mb as nat),
{
    proof {
        reveal_strlit("G");
        reveal_strlit("M");
    }
    if mb >= 1024 {
        push_tenths(s, div_round_half_even(10 * mb as u128, 1024));
        s.append("G");
    } else {
        push_decimal(s, mb as u128);
        s.append("M");
    }
    proof {
        assert(s@ =~= old(s)@ + gpu_mem_text(mb as nat));
    }
}

/// Renders a GPU memory figure in MiB.
pub fn format_gpu_mem(mb: u32) -> (r: String)
    ensures
        r@ == gpu_mem_text(mb as nat),
{
    let mut s = String::new();
    push_gpu_mem(&mut s, mb);
    s
}

/// Appends a memory figure in KiB as GiB with one decimal place.
pub fn push_mem_gb(s: &mut String, kib: u64)
    ensures
        final(s)@ == old(s)@ + mem_gb_text(kib as nat),
{
    push_tenths(s, div_round_half_even(10 * kib as u128, 1_048_576));
}

/// Renders a memory figure in KiB as GiB with one decimal place.
pub fn format_mem_gb(kib: u64) -> (r: String)
    ensures
        r@ == mem_gb_text(kib as nat),
{
    let mut s = String::new();
    push_mem_gb(&mut s, kib);
    s
}

} // verus!

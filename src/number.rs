//! Reading unsigned decimal numbers out of byte text.
use vstd::prelude::*;

verus! {

pub open spec fn is_digit(b: u8) -> bool {
    48 <= b <= 57
}

/// Value of a decimal digit byte; other bytes count as zero.
pub open spec fn digit_value(b: u8) -> nat {
    if is_digit(b) {
        (b - 48) as nat
    } else {
        0
    }
}

/// Value of a sequence of decimal digits, most significant first.
pub open spec fn digits_value(t: Seq<u8>) -> nat
    decreases t.len(),
{
    if t.len() == 0 {
        0
    } else {
        digits_value(t.drop_last()) * 10 + digit_value(t.last())
    }
}

/// The digits of `t` after an optional leading `+`.
pub open spec fn unsigned_digits(t: Seq<u8>) -> Seq<u8> {
    if t.len() > 1 && t[0] == 43 {
        t.drop_first()
    } else {
        t
    }
}

/// The number written by `t`: an optional `+`, then one or more decimal digits.
pub open spec fn unsigned_value(t: Seq<u8>) -> Option<nat> {
    let d = unsigned_digits(t);
    if d.len() > 0 && (forall|k: int| 0 <= k < d.len() ==> is_digit(#[trigger] d[k])) {
        Some(digits_value(d))
    } else {
        None
    }
}

/// The number written by `t`, when it is at most `max`.
pub open spec fn bounded_value(t: Seq<u8>, max: nat) -> Option<nat> {
    match unsigned_value(t) {
        Some(v) => if v <= max {
            Some(v)
        } else {
            None
        },
        None => None,
    }
}

/// An optional machine integer as an optional natural number.
pub open spec fn opt_nat(r: Option<u64>) -> Option<nat> {
    match r {
        Some(x) => Some(x as nat),
        None => None,
    }
}

proof fn lemma_digits_value_grows(t: Seq<u8>, n: int)
    requires
        0 <= n <= t.len(),
    ensures
        digits_value(t.subrange(0, n)) <= digits_value(t),
    decreases t.len(),
{
    if n < t.len() {
        assert(t.drop_last().subrange(0, n) =~= t.subrange(0, n));
        lemma_digits_value_grows(t.drop_last(), n);
    } else {
        assert(t.subrange(0, n) =~= t);
    }
}

/// Reads the number written between `start` and `end`, when it is at most `max`.
pub fn parse_unsigned(s: &[u8], start: usize, end: usize, max: u64) -> (r: Option<u64>)
    requires
        start <= end <= s@.len(),
    ensures
        opt_nat(r) == bounded_value(s@.subrange(start as int, end as int), max as nat),
{
    let ghost t = s@.subrange(start as int, end as int);
    let mut j: usize = start;
    if end - start > 1 && s[start] == 43 {
        j = start + 1;
    }
    let ghost d = s@.subrange(j as int, end as int);
    proof {
        if j > start {
            assert(d =~= t.drop_first());
        } else {
            assert(d =~= t);
        }
    }
    if j == end {
        return None;
    }
    let mut acc: u64 = 0;
    let mut i: usize = j;
    while i < end
        invariant
            start <= j <= i <= end <= s@.len(),
            d == s@.subrange(j as int, end as int),
            t == s@.subrange(start as int, end as int),
            d == unsigned_digits(t),
            d.len() > 0,
            forall|k: int| j <= k < i ==> is_digit(s@[k]),
            acc as nat == digits_value(s@.subrange(j as int, i as int)),
            acc <= max,
        decreases end - i,
    {
        let b = s[i];
        if b < 48 || b > 57 {
            proof {
                assert(d[i - j] == s@[i as int]);
                assert(!is_digit(unsigned_digits(t)[i - j]));
            }
            return None;
        }
        let ghost p = s@.subrange(j as int, i + 1);
        proof {
            assert(p.drop_last() =~= s@.subrange(j as int, i as int));
        }
        let next: u128 = acc as u128 * 10 + (b - 48) as u128;
        if next > max as u128 {
            proof {
                assert(p =~= d.subrange(0, i + 1 - j));
                lemma_digits_value_grows(d, i + 1 - j);
            }
            if forall_digits(s, i + 1, end) {
                proof {
                    assert forall|k: int| 0 <= k < d.len() implies is_digit(#[trigger] d[k]) by {
                        assert(d[k] == s@[j + k]);
                    }
                    assert(digits_value(p) == next);
                    assert(unsigned_value(t) == Some(digits_value(d)));
                }
            } else {
                proof {
                    let k = choose|k: int| i + 1 <= k < end && !is_digit(s@[k]);
                    assert(d[k - j] == s@[k]);
                    assert(!is_digit(unsigned_digits(t)[k - j]));
                }
            }
            return None;
        }
        acc = next as u64;
        i = i + 1;
    }
    proof {
        assert(s@.subrange(j as int, i as int) =~= d);
        assert forall|k: int| 0 <= k < d.len() implies is_digit(#[trigger] d[k]) by {
            assert(d[k] == s@[j + k]);
        }
    }
    Some(acc)
}

/// Tells whether every byte from `start` to `end` is a decimal digit.
fn forall_digits(s: &[u8], start: usize, end: usize) -> (r: bool)
    requires
        start <= end <= s@.len(),
    ensures
        r == (forall|k: int| start <= k < end ==> is_digit(s@[k])),
{
    let mut i: usize = start;
    while i < end
        invariant
            start <= i <= end <= s@.len(),
            forall|k: int| start <= k < i ==> is_digit(s@[k]),
        decreases end - i,
    {
        if s[i] < 48 || s[i] > 57 {
            return false;
        }
        i = i + 1;
    }
    true
}

} // verus!

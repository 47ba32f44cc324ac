//! Decisions of the start-up probe that rest on text alone.
use vstd::prelude::*;
use crate::text::{ascii, ascii_bytes};

verus! {

/// ASCII lower case of a byte.
pub open spec fn lower(b: u8) -> u8 {
    if 65 <= b <= 90 {
        (b + 32) as u8
    } else {
        b
    }
}

/// Whether `key`, in lower case, stands in `s` at `i`, ignoring the case of `s`.
pub open spec fn matches_at(s: Seq<u8>, i: int, key: Seq<u8>) -> bool {
    0 <= i && i + key.len() <= s.len() && forall|m: int|
        0 <= m < key.len() ==> lower(#[trigger] s[i + m]) == key[m]
}

/// Whether `key`, in lower case, stands somewhere in `s`, ignoring case.
pub open spec fn contains_folded(s: Seq<u8>, key: Seq<u8>) -> bool {
    exists|i: int| matches_at(s, i, key)
}

/// Whether a kernel version text names the Windows subsystem for Linux.
pub open spec fn names_wsl(s: Seq<u8>) -> bool {
    contains_folded(s, ascii(seq!['m', 'i', 'c', 'r', 'o', 's', 'o', 'f', 't']))
        || contains_folded(s, ascii(seq!['w', 's', 'l']))
}

fn to_lower(b: u8) -> (r: u8)
    ensures
        r == lower(b),
{
    if 65 <= b && b <= 90 {
        b + 32
    } else {
        b
    }
}

fn find_folded(s: &[u8], key: &[u8]) -> (r: bool)
    ensures
        r == contains_folded(s@, key@),
{
    if key.len() > s.len() {
        return false;
    }
    let n = s.len();
    let mut i: usize = 0;
    while i <= n - key.len()
        invariant
            key@.len() <= s@.len(),
            n == s@.len(),
            i <= s@.len() - key@.len() + 1,
            forall|j: int| 0 <= j < i ==> !matches_at(s@, j, key@),
        decreases s.len() - i,
    {
        let mut m: usize = 0;
        let mut ok = true;
        while m < key.len()
            invariant
                i + key@.len() <= s@.len(),
                n == s@.len(),
                m <= key@.len(),
                ok ==> forall|n: int| 0 <= n < m ==> lower(#[trigger] s@[i + n]) == key@[n],
                !ok ==> !matches_at(s@, i as int, key@),
            decreases key.len() - m,
        {
            if to_lower(s[i + m]) != key[m] {
                ok = false;
            }
            m = m + 1;
        }
        if ok {
            proof {
                assert(matches_at(s@, i as int, key@));
            }
            return true;
        }
        i = i + 1;
    }
    proof {
        assert forall|j: int| !matches_at(s@, j, key@) by {
            if 0 <= j < i {
            } else if j >= i {
                assert(!(j + key@.len() <= s@.len()));
            }
        }
    }
    false
}

/// Tells whether a kernel version text names the Windows subsystem for Linux,
/// in any letter case.
pub fn is_wsl_kernel(version: &[u8]) -> (r: bool)
    ensures
        r == names_wsl(version@),
{
    proof {
        reveal_strlit("microsoft");
        reveal_strlit("wsl");
    }
    let ms = ascii_bytes("microsoft");
    let wsl = ascii_bytes("wsl");
    proof {
        assert(ms@ =~= ascii(seq!['m', 'i', 'c', 'r', 'o', 's', 'o', 'f', 't']));
        assert(wsl@ =~= ascii(seq!['w', 's', 'l']));
    }
    find_folded(version, ms) || find_folded(version, wsl)
}

} // verus!

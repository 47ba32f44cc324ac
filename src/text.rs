//! Splitting of byte text into lines, whitespace-separated fields and
//! comma-separated pieces, each given as a half-open span of positions.
use vstd::prelude::*;

verus! {

/// ASCII whitespace: space, tab, line feed, vertical tab, form feed, carriage return.
pub open spec fn is_ws(b: u8) -> bool {
    b == 32 || (9 <= b && b <= 13)
}

/// Whether `b` is ASCII whitespace.
pub fn is_space(b: u8) -> (r: bool)
    ensures
        r == is_ws(b),
{
    b == 32 || (9 <= b && b <= 13)
}

/// Spans as pairs of integers.
pub open spec fn spans_view(v: Seq<(usize, usize)>) -> Seq<(int, int)> {
    v.map_values(|p: (usize, usize)| (p.0 as int, p.1 as int))
}

/// Bytes from `i` up to the next line feed (or the end).
pub open spec fn newline_offset(s: Seq<u8>, i: int) -> nat
    decreases s.len() - i,
{
    if i < 0 || i >= s.len() || s[i] == 10 {
        0
    } else {
        1 + newline_offset(s, i + 1)
    }
}

/// The lines of `s` from position `i`: split at line feeds, a carriage return
/// before a line feed dropped, no empty line after a final line feed.
pub open spec fn lines_from(s: Seq<u8>, i: int) -> Seq<(int, int)>
    decreases s.len() - i,
{
    if i < 0 || i >= s.len() {
        Seq::empty()
    } else {
        let e = i + newline_offset(s, i);
        let stop = if e < s.len() && e > i && s[e - 1] == 13 { e - 1 } else { e };
        if e >= s.len() {
            seq![(i, stop)]
        } else {
            seq![(i, stop)] + lines_from(s, e + 1)
        }
    }
}

/// The lines of `s`.
pub open spec fn lines(s: Seq<u8>) -> Seq<(int, int)> {
    lines_from(s, 0)
}

proof fn lemma_newline_offset(s: Seq<u8>, i: int, j: int)
    requires
        0 <= i <= j <= s.len(),
        forall|k: int| i <= k < j ==> s[k] != 10,
    ensures
        newline_offset(s, i) == (j - i) + newline_offset(s, j),
    decreases j - i,
{
    if i < j {
        lemma_newline_offset(s, i + 1, j);
    }
}

/// Finds the spans of the lines of `s`.
pub fn line_spans(s: &[u8]) -> (r: Vec<(usize, usize)>)
    ensures
        spans_view(r@) == lines(s@),
        forall|k: int| 0 <= k < r@.len() ==> #[trigger] r@[k].0 <= r@[k].1 <= s@.len(),
{
    let mut out: Vec<(usize, usize)> = Vec::new();
    let mut i: usize = 0;
    while i < s.len()
        invariant
            i <= s@.len(),
            lines(s@) == spans_view(out@) + lines_from(s@, i as int),
            forall|k: int| 0 <= k < out@.len() ==> #[trigger] out@[k].0 <= out@[k].1 <= s@.len(),
        decreases s.len() - i,
    {
        let mut e: usize = i;
        while e < s.len() && s[e] != 10
            invariant
                i <= e <= s@.len(),
                forall|k: int| i <= k < e ==> s@[k] != 10,
            decreases s.len() - e,
        {
            e = e + 1;
        }
        proof {
            lemma_newline_offset(s@, i as int, e as int);
        }
        let stop = if e < s.len() && e > i && s[e - 1] == 13 { e - 1 } else { e };
        let ghost before = out@;
        out.push((i, stop));
        proof {
            assert(spans_view(out@) =~= spans_view(before).push((i as int, stop as int)));
        }
        if e == s.len() {
            i = e;
        } else {
            i = e + 1;
        }
        proof {
            assert(lines(s@) =~= spans_view(out@) + lines_from(s@, i as int));
        }
    }
    proof {
        assert(lines(s@) =~= spans_view(out@));
    }
    out
}

/// Length of the run of non-whitespace bytes starting at `i`, within `end`.
pub open spec fn word_len(s: Seq<u8>, i: int, end: int) -> nat
    decreases end - i,
{
    if i < 0 || i >= end || i >= s.len() || is_ws(s[i]) {
        0
    } else {
        1 + word_len(s, i + 1, end)
    }
}

/// The whitespace-separated fields of `s` between `i` and `end`.
pub open spec fn fields_in(s: Seq<u8>, i: int, end: int) -> Seq<(int, int)>
    decreases end - i,
{
    if i < 0 || i >= end || i >= s.len() {
        Seq::empty()
    } else if is_ws(s[i]) {
        fields_in(s, i + 1, end)
    } else {
        let k = i + 1 + word_len(s, i + 1, end);
        if k >= end {
            seq![(i, k)]
        } else {
            seq![(i, k)] + fields_in(s, k, end)
        }
    }
}

proof fn lemma_word_len(s: Seq<u8>, i: int, j: int, end: int)
    requires
        0 <= i <= j <= end <= s.len(),
        forall|k: int| i <= k < j ==> !is_ws(s[k]),
    ensures
        word_len(s, i, end) == (j - i) + word_len(s, j, end),
    decreases j - i,
{
    if i < j {
        lemma_word_len(s, i + 1, j, end);
    }
}

/// Finds the whitespace-separated fields of `s` between `start` and `end`.
pub fn field_spans(s: &[u8], start: usize, end: usize) -> (r: Vec<(usize, usize)>)
    requires
        start <= end <= s@.len(),
    ensures
        spans_view(r@) == fields_in(s@, start as int, end as int),
        forall|k: int| 0 <= k < r@.len() ==> start <= #[trigger] r@[k].0 <= r@[k].1 <= end,
{
    let mut out: Vec<(usize, usize)> = Vec::new();
    let mut i: usize = start;
    while i < end
        invariant
            start <= i <= end <= s@.len(),
            fields_in(s@, start as int, end as int) == spans_view(out@) + fields_in(
                s@,
                i as int,
                end as int,
            ),
            forall|k: int| 0 <= k < out@.len() ==> start <= #[trigger] out@[k].0 <= out@[k].1 <= i,
        decreases end - i,
    {
        if is_space(s[i]) {
            i = i + 1;
        } else {
            let mut k: usize = i + 1;
            while k < end && !is_space(s[k])
                invariant
                    i < k <= end <= s@.len(),
                    forall|m: int| i + 1 <= m < k ==> !is_ws(s@[m]),
                decreases end - k,
            {
                k = k + 1;
            }
            proof {
                lemma_word_len(s@, i + 1, k as int, end as int);
            }
            let ghost before = out@;
            out.push((i, k));
            proof {
                assert(spans_view(out@) =~= spans_view(before).push((i as int, k as int)));
            }
            i = k;
        }
        proof {
            assert(fields_in(s@, start as int, end as int) =~= spans_view(out@) + fields_in(
                s@,
                i as int,
                end as int,
            ));
        }
    }
    proof {
        assert(fields_in(s@, start as int, end as int) =~= spans_view(out@));
    }
    out
}

/// Bytes from `i` up to the next `c` (or `end`).
pub open spec fn byte_offset(s: Seq<u8>, i: int, end: int, c: u8) -> nat
    decreases end - i,
{
    if i < 0 || i >= end || i >= s.len() || s[i] == c {
        0
    } else {
        1 + byte_offset(s, i + 1, end, c)
    }
}

proof fn lemma_byte_offset(s: Seq<u8>, i: int, j: int, end: int, c: u8)
    requires
        0 <= i <= j <= end <= s.len(),
        forall|k: int| i <= k < j ==> s[k] != c,
    ensures
        byte_offset(s, i, end, c) == (j - i) + byte_offset(s, j, end, c),
    decreases j - i,
{
    if i < j {
        lemma_byte_offset(s, i + 1, j, end, c);
    }
}

/// Finds the first `c` from `start` on, or `end` when there is none.
pub fn find_byte(s: &[u8], start: usize, end: usize, c: u8) -> (r: usize)
    requires
        start <= end <= s@.len(),
    ensures
        r == start + byte_offset(s@, start as int, end as int, c),
        start <= r <= end,
        r < end ==> s@[r as int] == c,
{
    let mut i: usize = start;
    while i < end && s[i] != c
        invariant
            start <= i <= end <= s@.len(),
            forall|k: int| start <= k < i ==> s@[k] != c,
        decreases end - i,
    {
        i = i + 1;
    }
    proof {
        lemma_byte_offset(s@, start as int, i as int, end as int, c);
    }
    i
}

/// The pieces of `s` between `i` and `end` separated by commas; an empty
/// text is one empty piece.
pub open spec fn pieces_in(s: Seq<u8>, i: int, end: int) -> Seq<(int, int)>
    decreases end - i,
{
    let c = i + byte_offset(s, i, end, 44);
    if c >= end || i < 0 {
        seq![(i, end)]
    } else {
        seq![(i, c)] + pieces_in(s, c + 1, end)
    }
}

/// Finds the comma-separated pieces of `s` between `start` and `end`.
pub fn piece_spans(s: &[u8], start: usize, end: usize) -> (r: Vec<(usize, usize)>)
    requires
        start <= end <= s@.len(),
    ensures
        spans_view(r@) == pieces_in(s@, start as int, end as int),
        forall|k: int| 0 <= k < r@.len() ==> start <= #[trigger] r@[k].0 <= r@[k].1 <= end,
{
    let mut out: Vec<(usize, usize)> = Vec::new();
    let mut i: usize = start;
    loop
        invariant
            start <= i <= end <= s@.len(),
            pieces_in(s@, start as int, end as int) == spans_view(out@) + pieces_in(
                s@,
                i as int,
                end as int,
            ),
            forall|k: int| 0 <= k < out@.len() ==> start <= #[trigger] out@[k].0 <= out@[k].1 <= i,
        decreases end - i,
    {
        let c = find_byte(s, i, end, 44);
        let ghost before = out@;
        out.push((i, c));
        proof {
            assert(spans_view(out@) =~= spans_view(before).push((i as int, c as int)));
            assert forall|k: int| 0 <= k < out@.len() implies start <= #[trigger] out@[k].0 <= out@[k].1 <= c by {
                if k < before.len() {
                    assert(out@[k] == before[k]);
                }
            }
        }
        if c == end {
            proof {
                assert(pieces_in(s@, start as int, end as int) =~= spans_view(out@));
            }
            return out;
        }
        i = c + 1;
        proof {
            assert(pieces_in(s@, start as int, end as int) =~= spans_view(out@) + pieces_in(
                s@,
                i as int,
                end as int,
            ));
        }
    }
}

/// Whitespace bytes at the start of the span from `i` to `end`.
pub open spec fn lead_ws(s: Seq<u8>, i: int, end: int) -> nat
    decreases end - i,
{
    if i < 0 || i >= end || i >= s.len() || !is_ws(s[i]) {
        0
    } else {
        1 + lead_ws(s, i + 1, end)
    }
}

/// Whitespace bytes at the end of the span from `i` to `end`.
pub open spec fn trail_ws(s: Seq<u8>, i: int, end: int) -> nat
    decreases end - i,
{
    if end <= i || end > s.len() || i < 0 || !is_ws(s[end - 1]) {
        0
    } else {
        1 + trail_ws(s, i, end - 1)
    }
}

/// The span from `i` to `end` without whitespace at either end.
pub open spec fn trimmed(s: Seq<u8>, i: int, end: int) -> (int, int) {
    let a = i + lead_ws(s, i, end);
    (a, end - trail_ws(s, a, end))
}

proof fn lemma_lead_ws(s: Seq<u8>, i: int, j: int, end: int)
    requires
        0 <= i <= j <= end <= s.len(),
        forall|k: int| i <= k < j ==> is_ws(s[k]),
    ensures
        lead_ws(s, i, end) == (j - i) + lead_ws(s, j, end),
    decreases j - i,
{
    if i < j {
        lemma_lead_ws(s, i + 1, j, end);
    }
}

proof fn lemma_trail_ws(s: Seq<u8>, a: int, b: int, end: int)
    requires
        0 <= a <= b <= end <= s.len(),
        forall|k: int| b <= k < end ==> is_ws(s[k]),
    ensures
        trail_ws(s, a, end) == (end - b) + trail_ws(s, a, b),
    decreases end - b,
{
    if b < end {
        lemma_trail_ws(s, a, b + 1, end);
    }
}

/// Finds the span from `start` to `end` without whitespace at either end.
pub fn trim_span(s: &[u8], start: usize, end: usize) -> (r: (usize, usize))
    requires
        start <= end <= s@.len(),
    ensures
        (r.0 as int, r.1 as int) == trimmed(s@, start as int, end as int),
        start <= r.0 <= r.1 <= end,
{
    let mut a: usize = start;
    while a < end && is_space(s[a])
        invariant
            start <= a <= end <= s@.len(),
            forall|k: int| start <= k < a ==> is_ws(s@[k]),
        decreases end - a,
    {
        a = a + 1;
    }
    proof {
        lemma_lead_ws(s@, start as int, a as int, end as int);
    }
    let mut b: usize = end;
    while b > a && is_space(s[b - 1])
        invariant
            a <= b <= end <= s@.len(),
            forall|k: int| b <= k < end ==> is_ws(s@[k]),
        decreases b,
    {
        b = b - 1;
    }
    proof {
        lemma_trail_ws(s@, a as int, b as int, end as int);
    }
    (a, b)
}

/// Whether the span from `i` to `end` begins with `key`.
pub open spec fn starts_with(s: Seq<u8>, i: int, end: int, key: Seq<u8>) -> bool {
    end - i >= key.len() && s.subrange(i, i + key.len()) == key
}

/// Tells whether the span from `start` to `end` begins with `key`.
pub fn span_starts_with(s: &[u8], start: usize, end: usize, key: &[u8]) -> (r: bool)
    requires
        start <= end <= s@.len(),
    ensures
        r == starts_with(s@, start as int, end as int, key@),
{
    if end - start < key.len() {
        return false;
    }
    let mut k: usize = 0;
    while k < key.len()
        invariant
            k <= key@.len(),
            start + key@.len() <= end <= s@.len(),
            forall|m: int| 0 <= m < k ==> s@[start + m] == key@[m],
        decreases key.len() - k,
    {
        if s[start + k] != key[k] {
            proof {
                assert(s@.subrange(start as int, start + key@.len())[k as int] != key@[k as int]);
            }
            return false;
        }
        k = k + 1;
    }
    proof {
        assert(s@.subrange(start as int, start + key@.len()) =~= key@);
    }
    true
}

/// Whether the span from `i` to `end` holds exactly `key`.
pub open spec fn span_is(s: Seq<u8>, i: int, end: int, key: Seq<u8>) -> bool {
    end - i == key.len() && starts_with(s, i, end, key)
}

/// Bytes of an ASCII text.
pub open spec fn ascii(t: Seq<char>) -> Seq<u8> {
    t.map_values(|c: char| c as u8)
}

/// The bytes of an ASCII string literal.
pub fn ascii_bytes(lit: &'static str) -> (r: &'static [u8])
    requires
        vstd::string::is_ascii(lit),
    ensures
        r@ == ascii(lit@),
{
    proof {
        broadcast use vstd::string::is_ascii_spec_bytes;
    }
    let b = lit.as_bytes();
    proof {
        assert(b@ =~= ascii(lit@));
    }
    b
}

} // verus!

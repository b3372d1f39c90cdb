//! Marker substitution: every region opened and closed by the marker (the
//! two characters `ยง`, U+0E22 U+0E07) is replaced, markers included, by the
//! payload. There is no escape for a literal marker.
use vstd::prelude::*;
use vstd::string::StrSliceExecFns;
use vstd::string::StringExecFns;

verus! {

/// First character of the marker.
pub const MARKER_LEAD: char = '\u{0E22}';

/// Second character of the marker.
pub const MARKER_TAIL: char = '\u{0E07}';

/// A marker starts at position `i` of `s`.
pub open spec fn marker_at(s: Seq<char>, i: int) -> bool {
    0 <= i && i + 1 < s.len() && s[i] == MARKER_LEAD && s[i + 1] == MARKER_TAIL
}

/// The least position at or after `from` where a marker starts, or `s.len()`
/// when there is none.
pub open spec fn find_marker(s: Seq<char>, from: int) -> int
    decreases s.len() - from,
{
    if from < 0 || from >= s.len() {
        s.len() as int
    } else if marker_at(s, from) {
        from
    } else {
        find_marker(s, from + 1)
    }
}

/// The text `s` with each marker-delimited region replaced by `p`. An opening
/// marker without a closing one leaves the rest of the text as it is.
pub open spec fn substituted(s: Seq<char>, p: Seq<char>) -> Seq<char>
    decreases s.len(),
{
    let i = find_marker(s, 0);
    let j = find_marker(s, i + 2);
    if marker_at(s, i) && marker_at(s, j) {
        s.take(i) + p + substituted(s.skip(j + 2), p)
    } else {
        s
    }
}

/// Number of markers in `s`, counted left to right without overlap.
pub open spec fn marker_count(s: Seq<char>) -> nat
    decreases s.len(),
{
    let i = find_marker(s, 0);
    if marker_at(s, i) {
        1 + marker_count(s.skip(i + 2))
    } else {
        0
    }
}

proof fn lemma_find_marker_bounds(s: Seq<char>, from: int)
    requires
        0 <= from,
    ensures
        from <= find_marker(s, from) || find_marker(s, from) == s.len(),
        find_marker(s, from) <= s.len(),
        find_marker(s, from) < s.len() ==> marker_at(s, find_marker(s, from)),
        forall|k: int| from <= k < find_marker(s, from) ==> !marker_at(s, k),
    decreases s.len() - from,
{
    if from < s.len() && !marker_at(s, from) {
        lemma_find_marker_bounds(s, from + 1);
    }
}

/// `find_marker` is determined by the absence of markers before a marker (or
/// the end of the text).
proof fn lemma_find_marker_is(s: Seq<char>, from: int, k: int)
    requires
        0 <= from <= k <= s.len(),
        k == s.len() || marker_at(s, k),
        forall|m: int| from <= m < k ==> !marker_at(s, m),
    ensures
        find_marker(s, from) == k,
    decreases k - from,
{
    if from < k {
        lemma_find_marker_is(s, from + 1, k);
    }
}

proof fn lemma_marker_at_skip(s: Seq<char>, d: int)
    requires
        0 <= d <= s.len(),
    ensures
        forall|k: int| #[trigger] marker_at(s.skip(d), k) <==> (0 <= k && marker_at(s, k + d)),
{
}

/// Text without any marker is left unchanged.
pub proof fn lemma_no_marker_unchanged(s: Seq<char>, p: Seq<char>)
    requires
        forall|k: int| !marker_at(s, k),
    ensures
        substituted(s, p) == s,
{
    lemma_find_marker_bounds(s, 0);
}

/// With exactly two markers, the text from the first marker through the
/// second is replaced by the payload and the text around it is kept.
pub proof fn lemma_one_pair_replaced(s: Seq<char>, p: Seq<char>, i: int, j: int)
    requires
        marker_at(s, i),
        marker_at(s, j),
        i < j,
        forall|k: int| k != i && k != j ==> !marker_at(s, k),
    ensures
        i + 2 <= j,
        substituted(s, p) == s.take(i) + p + s.skip(j + 2),
{
    lemma_find_marker_is(s, 0, i);
    lemma_find_marker_is(s, i + 2, j);
    let r = s.skip(j + 2);
    lemma_marker_at_skip(s, j + 2);
    assert forall|k: int| !marker_at(r, k) by {
        if 0 <= k && marker_at(s, k + j + 2) {
            assert(k + j + 2 != i && k + j + 2 != j);
        }
    }
    lemma_no_marker_unchanged(r, p);
}

proof fn lemma_marker_count_two(s: Seq<char>, i: int, j: int)
    requires
        marker_at(s, i),
        marker_at(s, j),
        i + 2 <= j,
        forall|k: int| 0 <= k < i ==> !marker_at(s, k),
        forall|k: int| i + 2 <= k < j ==> !marker_at(s, k),
    ensures
        marker_count(s) == 2 + marker_count(s.skip(j + 2)),
{
    lemma_find_marker_is(s, 0, i);
    let t = s.skip(i + 2);
    lemma_marker_at_skip(s, i + 2);
    assert(marker_at(t, j - i - 2));
    assert forall|k: int| 0 <= k < j - i - 2 implies !marker_at(t, k) by {
        assert(!marker_at(s, k + i + 2));
    }
    lemma_find_marker_is(t, 0, j - i - 2);
    assert(t.skip(j - i) =~= s.skip(j + 2));
    assert(marker_count(s) == 1 + marker_count(t));
    assert(marker_count(t) == 1 + marker_count(t.skip(j - i)));
}

/// An odd number of markers leaves the last, unmatched marker and all text
/// after it unchanged at the end of the result.
pub proof fn lemma_unmatched_tail_kept(s: Seq<char>, p: Seq<char>, m: int)
    requires
        marker_count(s) % 2 == 1,
        marker_at(s, m),
        forall|k: int| k > m ==> !marker_at(s, k),
    ensures
        substituted(s, p) == substituted(s.take(m), p) + s.skip(m),
    decreases s.len(),
{
    lemma_find_marker_bounds(s, 0);
    let i = find_marker(s, 0);
    assert(marker_at(s, i));
    lemma_find_marker_bounds(s, i + 2);
    let j = find_marker(s, i + 2);
    let h = s.take(m);
    assert forall|k: int| k + 1 < m implies (#[trigger] marker_at(h, k) <==> marker_at(s, k)) by {}
    if i == m {
        assert(!marker_at(s, j));
        assert forall|k: int| !marker_at(h, k) by {
            if marker_at(h, k) {
                assert(marker_at(s, k));
                assert(k < i);
            }
        }
        lemma_no_marker_unchanged(h, p);
        assert(h + s.skip(m) =~= s);
    } else {
        assert(i < m);
        if !marker_at(s, j) {
            assert(m >= i + 2);
            assert(false);
        }
        lemma_marker_count_two(s, i, j);
        let r = s.skip(j + 2);
        lemma_marker_at_skip(s, j + 2);
        if j == m {
            assert forall|k: int| !marker_at(r, k) by {}
            lemma_find_marker_bounds(r, 0);
            assert(marker_count(r) == 0);
            assert(false);
        }
        assert(j < m);
        assert(j + 2 <= m);
        let m2 = m - (j + 2);
        lemma_unmatched_tail_kept(r, p, m2);
        lemma_find_marker_is(h, 0, i);
        lemma_find_marker_is(h, i + 2, j);
        assert(h.skip(j + 2) =~= r.take(m2));
        assert(h.take(i) =~= s.take(i));
        assert(r.skip(m2) =~= s.skip(m));
        assert(substituted(h, p) == h.take(i) + p + substituted(h.skip(j + 2), p));
        assert(substituted(s, p) =~= substituted(h, p) + s.skip(m));
    }
}

/// Reads the characters of `s` into a vector.
fn chars_of(s: &str) -> (r: Vec<char>)
    ensures
        r@ == s@,
{
    let n = s.unicode_len();
    let mut r: Vec<char> = Vec::with_capacity(n);
    let mut i: usize = 0;
    while i < n
        invariant
            n == s@.len(),
            i <= n,
            r@ == s@.take(i as int),
        decreases n - i,
    {
        r.push(s.get_char(i));
        i = i + 1;
        assert(r@ =~= s@.take(i as int));
    }
    assert(r@ =~= s@);
    r
}

/// Replaces each region delimited by a pair of markers, markers included,
/// with `payload`; an unmatched trailing marker and the text after it stay.
pub fn replace_markers(input: &str, payload: &str) -> (r: String)
    ensures
        r@ == substituted(input@, payload@),
{
    let cs = chars_of(input);
    let n = cs.len();
    let ghost s = input@;
    let mut out = String::new();
    let mut seg: usize = 0;
    let mut open: Option<usize> = None;
    let mut i: usize = 0;
    proof {
        assert(s.skip(0) =~= s);
        assert(out@ + substituted(s, payload@) =~= substituted(s, payload@));
    }
    while i < n
        invariant
            cs@ == s,
            s == input@,
            n == s.len(),
            seg <= i <= n,
            out@ + substituted(s.skip(seg as int), payload@) == substituted(s, payload@),
            match open {
                None => forall|k: int| seg <= k < i ==> !marker_at(s, k),
                Some(st) => {
                    &&& seg <= st
                    &&& st + 2 <= i
                    &&& marker_at(s, st as int)
                    &&& forall|k: int| seg <= k < st ==> !marker_at(s, k)
                    &&& forall|k: int| st + 2 <= k < i ==> !marker_at(s, k)
                },
            },
        decreases n - i,
    {
        if i + 1 < n && cs[i] == MARKER_LEAD && cs[i + 1] == MARKER_TAIL {
            assert(marker_at(s, i as int));
            match open {
                None => {
                    open = Some(i);
                },
                Some(st) => {
                    proof {
                        let t = s.skip(seg as int);
                        lemma_marker_at_skip(s, seg as int);
                        lemma_find_marker_is(t, 0, st - seg);
                        lemma_find_marker_is(t, st - seg + 2, i - seg);
                        assert(t.skip(i - seg + 2) =~= s.skip(i + 2));
                        assert(t.take(st - seg) =~= s.subrange(seg as int, st as int));
                    }
                    let ghost old_out = out@;
                    let before = input.substring_char(seg, st);
                    out.append(before);
                    out.append(payload);
                    proof {
                        let t = s.skip(seg as int);
                        assert(substituted(t, payload@) == t.take(st - seg) + payload@ + substituted(
                            t.skip(i - seg + 2),
                            payload@,
                        ));
                        assert(out@ + substituted(s.skip(i + 2), payload@) =~= old_out + substituted(t, payload@));
                    }
                    seg = i + 2;
                    open = None;
                },
            }
            i = i + 2;
        } else {
            assert(!marker_at(s, i as int));
            i = i + 1;
        }
    }
    proof {
        let t = s.skip(seg as int);
        lemma_marker_at_skip(s, seg as int);
        match open {
            None => {
                lemma_find_marker_is(t, 0, t.len() as int);
            },
            Some(st) => {
                lemma_find_marker_is(t, 0, st - seg);
                lemma_find_marker_is(t, st - seg + 2, t.len() as int);
            },
        }
        assert(substituted(t, payload@) == t);
        assert(t =~= s.subrange(seg as int, n as int));
    }
    let rest = input.substring_char(seg, n);
    out.append(rest);
    out
}

} // verus!

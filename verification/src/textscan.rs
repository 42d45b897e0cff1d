//! Line- and token-level scanning over raw bytes. The parser works on the
//! bytes of command output: lines are the maximal segments between line
//! breaks, tokens are the maximal runs of non-whitespace bytes within a
//! line, and metric lines are recognised by byte-for-byte prefix or
//! substring match.

use vstd::prelude::*;
use vstd::slice::slice_to_vec;

verus! {

/// The byte sequences held by a sequence of byte vectors, in order.
pub open spec fn byte_views(r: Seq<Vec<u8>>) -> Seq<Seq<u8>> {
    r.map_values(|v: Vec<u8>| v@)
}

pub proof fn lemma_byte_views_push(r: Seq<Vec<u8>>, v: Vec<u8>)
    ensures
        byte_views(r.push(v)) == byte_views(r).push(v@),
{
    assert(byte_views(r.push(v)) =~= byte_views(r).push(v@));
}

/// ASCII whitespace: space, tab, line feed, vertical tab, form feed,
/// carriage return.
pub open spec fn is_ws(b: u8) -> bool {
    b == 32 || (9 <= b <= 13)
}

/// Index of the first occurrence of `d` in `s`, or `s.len()` when there is
/// none.
pub open spec fn first_byte(s: Seq<u8>, d: u8) -> nat
    decreases s.len(),
{
    if s.len() == 0 {
        0
    } else if s[0] == d {
        0
    } else {
        1 + first_byte(s.drop_first(), d)
    }
}

pub proof fn lemma_first_byte(s: Seq<u8>, d: u8)
    ensures
        first_byte(s, d) <= s.len(),
        forall|i: int| 0 <= i < first_byte(s, d) ==> s[i] != d,
        first_byte(s, d) < s.len() ==> s[first_byte(s, d) as int] == d,
    decreases s.len(),
{
    if s.len() > 0 && s[0] != d {
        lemma_first_byte(s.drop_first(), d);
        assert(forall|i: int| 1 <= i < first_byte(s, d) ==> s[i] == s.drop_first()[i - 1]);
    }
}

/// The first occurrence of `d` is at `j` exactly when no earlier byte is
/// `d` and the byte at `j` (if any) is `d`.
pub proof fn lemma_first_byte_is(s: Seq<u8>, d: u8, j: int)
    requires
        0 <= j <= s.len(),
        forall|i: int| 0 <= i < j ==> s[i] != d,
        j < s.len() ==> s[j] == d,
    ensures
        first_byte(s, d) == j,
{
    lemma_first_byte(s, d);
}

/// The segments of `s` between occurrences of the delimiter `d`, in
/// order. The empty input is one empty segment; a trailing delimiter
/// yields a final empty segment.
pub open spec fn split_on(s: Seq<u8>, d: u8) -> Seq<Seq<u8>>
    decreases s.len(),
{
    let e = first_byte(s, d) as int;
    if e >= s.len() {
        seq![s]
    } else {
        seq![s.take(e)] + split_on(s.skip(e + 1), d)
    }
}

/// The lines of `s`: its segments between line feeds.
pub open spec fn split_lines(s: Seq<u8>) -> Seq<Seq<u8>> {
    split_on(s, 10)
}

/// Split a byte string at every occurrence of `d`, as `split_on`
/// describes.
pub fn split_bytes(s: &[u8], d: u8) -> (r: Vec<Vec<u8>>)
    ensures
        byte_views(r@) == split_on(s@, d),
{
    let slen = s.len();
    let mut r: Vec<Vec<u8>> = Vec::new();
    let mut start: usize = 0;
    proof {
        assert(s@.len() <= usize::MAX);
        assert(s@.skip(0) == s@);
        assert(byte_views(r@) =~= Seq::<Seq<u8>>::empty());
        assert(Seq::<Seq<u8>>::empty() + split_on(s@, d) =~= split_on(s@, d));
    }
    loop
        invariant
            start <= s@.len(),
            s@.len() <= usize::MAX,
            split_on(s@, d) == byte_views(r@) + split_on(s@.skip(start as int), d),
        decreases s@.len() - start,
    {
        let ghost rest = s@.skip(start as int);
        let ghost dv0 = byte_views(r@);
        let mut j: usize = start;
        while j < s.len() && s[j] != d
            invariant
                start <= j <= s@.len(),
                forall|k: int| start <= k < j ==> s@[k] != d,
            decreases s@.len() - j,
        {
            j = j + 1;
        }
        proof {
            assert(forall|k: int| 0 <= k < j - start ==> rest[k] == s@[k + start]);
            lemma_first_byte_is(rest, d, j - start);
        }
        let line = slice_to_vec(&s[start..j]);
        proof {
            lemma_byte_views_push(r@, line);
        }
        r.push(line);
        if j < s.len() {
            proof {
                assert(split_on(rest, d) == seq![rest.take(j - start)] + split_on(
                    rest.skip(j - start + 1),
                    d,
                ));
                assert(rest.take(j - start) =~= line@);
                assert(rest.skip(j - start + 1) =~= s@.skip(j + 1));
                assert(dv0 + (seq![line@] + split_on(s@.skip(j + 1), d)) =~= dv0.push(line@)
                    + split_on(s@.skip(j + 1), d));
            }
            start = j + 1;
        } else {
            proof {
                assert(split_on(rest, d) == seq![rest]);
                assert(rest =~= line@);
                assert(dv0 + seq![line@] =~= dv0.push(line@));
                assert(split_on(s@, d) == byte_views(r@));
            }
            return r;
        }
    }
}


/// Split raw output into its lines, as `split_lines` describes.
pub fn lines_of(s: &[u8]) -> (r: Vec<Vec<u8>>)
    ensures
        byte_views(r@) == split_lines(s@),
{
    split_bytes(s, 10)
}

/// Index of the first whitespace byte in `s`, or `s.len()` when there is
/// none.
pub open spec fn first_ws(s: Seq<u8>) -> nat
    decreases s.len(),
{
    if s.len() == 0 {
        0
    } else if is_ws(s[0]) {
        0
    } else {
        1 + first_ws(s.drop_first())
    }
}

pub proof fn lemma_first_ws(s: Seq<u8>)
    ensures
        first_ws(s) <= s.len(),
        forall|i: int| 0 <= i < first_ws(s) ==> !is_ws(s[i]),
        first_ws(s) < s.len() ==> is_ws(s[first_ws(s) as int]),
    decreases s.len(),
{
    if s.len() > 0 && !is_ws(s[0]) {
        lemma_first_ws(s.drop_first());
        assert(forall|i: int| 1 <= i < first_ws(s) ==> s[i] == s.drop_first()[i - 1]);
    }
}

pub proof fn lemma_first_ws_is(s: Seq<u8>, j: int)
    requires
        0 <= j <= s.len(),
        forall|i: int| 0 <= i < j ==> !is_ws(s[i]),
        j < s.len() ==> is_ws(s[j]),
    ensures
        first_ws(s) == j,
{
    lemma_first_ws(s);
}

/// The segments of `s` between single whitespace bytes; two adjacent
/// whitespace bytes enclose an empty segment.
pub open spec fn ws_segments(s: Seq<u8>) -> Seq<Seq<u8>>
    decreases s.len(),
{
    let e = first_ws(s) as int;
    if e >= s.len() {
        seq![s]
    } else {
        seq![s.take(e)] + ws_segments(s.skip(e + 1))
    }
}

/// Whether a segment is a token (nonempty).
pub open spec fn nonempty_seg(t: Seq<u8>) -> bool {
    t.len() > 0
}

/// The whitespace-delimited tokens of `s`, in order: the nonempty maximal
/// runs of non-whitespace bytes.
pub open spec fn ws_tokens(s: Seq<u8>) -> Seq<Seq<u8>> {
    ws_segments(s).filter(|t: Seq<u8>| nonempty_seg(t))
}

proof fn lemma_filter_singleton(t: Seq<u8>)
    ensures
        nonempty_seg(t) ==> seq![t].filter(|x: Seq<u8>| nonempty_seg(x)) == seq![t],
        !nonempty_seg(t) ==> seq![t].filter(|x: Seq<u8>| nonempty_seg(x)) == Seq::<
            Seq<u8>,
        >::empty(),
{
    reveal_with_fuel(Seq::filter, 2);
    assert(seq![t].drop_last() =~= Seq::<Seq<u8>>::empty());
}

/// Split a byte string into its whitespace-delimited tokens, as
/// `ws_tokens` describes.
pub fn tokens_of(s: &[u8]) -> (r: Vec<Vec<u8>>)
    ensures
        byte_views(r@) == ws_tokens(s@),
{
    let slen = s.len();
    let mut r: Vec<Vec<u8>> = Vec::new();
    let mut i: usize = 0;
    proof {
        assert(s@.len() <= usize::MAX);
        assert(s@.skip(0) == s@);
        assert(byte_views(r@) =~= Seq::<Seq<u8>>::empty());
        assert(Seq::<Seq<u8>>::empty() + ws_tokens(s@) =~= ws_tokens(s@));
    }
    while i < s.len()
        invariant
            i <= s@.len(),
            s@.len() <= usize::MAX,
            ws_tokens(s@) == byte_views(r@) + ws_tokens(s@.skip(i as int)),
        decreases s@.len() - i,
    {
        let ghost rest = s@.skip(i as int);
        let ghost dv0 = byte_views(r@);
        let b = s[i];
        if b == 32 || (9 <= b && b <= 13) {
            proof {
                assert(is_ws(rest[0]));
                assert(first_ws(rest) == 0);
                assert(ws_segments(rest) == seq![rest.take(0)] + ws_segments(rest.skip(1)));
                assert(rest.skip(1) =~= s@.skip(i + 1));
                Seq::filter_distributes_over_add(
                    seq![rest.take(0)],
                    ws_segments(rest.skip(1)),
                    |t: Seq<u8>| nonempty_seg(t),
                );
                lemma_filter_singleton(rest.take(0));
                assert(Seq::<Seq<u8>>::empty() + ws_tokens(s@.skip(i + 1)) =~= ws_tokens(
                    s@.skip(i + 1),
                ));
            }
            i = i + 1;
        } else {
            let mut j: usize = i;
            while j < s.len() && !(s[j] == 32 || (9 <= s[j] && s[j] <= 13))
                invariant
                    i <= j <= s@.len(),
                    forall|k: int| i <= k < j ==> !is_ws(s@[k]),
                decreases s@.len() - j,
            {
                j = j + 1;
            }
            proof {
                assert(forall|k: int| 0 <= k < j - i ==> rest[k] == s@[k + i]);
                lemma_first_ws_is(rest, j - i);
            }
            let tok = slice_to_vec(&s[i..j]);
            proof {
                lemma_byte_views_push(r@, tok);
                assert(rest.take(j - i) =~= tok@);
                assert(!is_ws(rest[0]));
                assert(tok@.len() > 0);
                lemma_filter_singleton(tok@);
            }
            r.push(tok);
            if j < s.len() {
                proof {
                    assert(ws_segments(rest) == seq![rest.take(j - i)] + ws_segments(
                        rest.skip(j - i + 1),
                    ));
                    assert(rest.skip(j - i + 1) =~= s@.skip(j + 1));
                    Seq::filter_distributes_over_add(
                        seq![tok@],
                        ws_segments(s@.skip(j + 1)),
                        |t: Seq<u8>| nonempty_seg(t),
                    );
                    assert(ws_tokens(rest) == seq![tok@].filter(|t: Seq<u8>| nonempty_seg(t))
                        + ws_tokens(s@.skip(j + 1)));
                    assert(dv0 + (seq![tok@] + ws_tokens(s@.skip(j + 1))) =~= dv0.push(tok@)
                        + ws_tokens(s@.skip(j + 1)));
                }
                i = j + 1;
            } else {
                proof {
                    assert(first_ws(rest) == rest.len());
                    assert(ws_segments(rest) == seq![rest]);
                    assert(rest =~= tok@);
                    assert(ws_tokens(rest) == seq![tok@]);
                    assert(dv0 + seq![tok@] =~= dv0.push(tok@));
                    assert(ws_tokens(s@) == byte_views(r@));
                }
                return r;
            }
        }
    }
    proof {
        let empty = s@.skip(i as int);
        assert(empty.len() == 0);
        assert(first_ws(empty) == 0);
        assert(ws_segments(empty) == seq![empty]);
        lemma_filter_singleton(empty);
        assert(ws_tokens(empty) == Seq::<Seq<u8>>::empty());
        assert(byte_views(r@) + Seq::<Seq<u8>>::empty() =~= byte_views(r@));
    }
    r
}

/// Bytes `p` occur contiguously in `s` starting at `i`.
pub open spec fn match_at(s: Seq<u8>, p: Seq<u8>, i: int) -> bool {
    0 <= i && i + p.len() <= s.len() && s.subrange(i, i + p.len() as int) == p
}

/// Bytes `p` occur contiguously somewhere in `s`.
pub open spec fn has_sub(s: Seq<u8>, p: Seq<u8>) -> bool {
    exists|i: int| match_at(s, p, i)
}

/// `s` begins with the bytes `p`.
pub open spec fn starts_with(s: Seq<u8>, p: Seq<u8>) -> bool {
    p.len() <= s.len() && s.subrange(0, p.len() as int) == p
}

/// Compare `p` against the bytes of `s` starting at `i`.
fn eq_at(s: &[u8], p: &[u8], i: usize) -> (r: bool)
    requires
        i + p@.len() <= s@.len(),
    ensures
        r == (s@.subrange(i as int, i as int + p@.len() as int) == p@),
{
    let ghost win = s@.subrange(i as int, i as int + p@.len() as int);
    let slen = s.len();
    let mut k: usize = 0;
    while k < p.len()
        invariant
            0 <= k <= p@.len(),
            i + p@.len() <= s@.len(),
            s@.len() <= usize::MAX,
            win == s@.subrange(i as int, i as int + p@.len() as int),
            forall|m: int| 0 <= m < k ==> win[m] == p@[m],
        decreases p@.len() - k,
    {
        if s[i + k] != p[k] {
            proof {
                assert(win[k as int] == s@[i + k]);
                assert(win[k as int] != p@[k as int]);
            }
            return false;
        }
        proof {
            assert(win[k as int] == s@[i + k]);
        }
        k = k + 1;
    }
    proof {
        assert(win =~= p@);
    }
    true
}

/// Whether the bytes `p` occur contiguously anywhere in `s`.
pub fn contains_sub(s: &[u8], p: &[u8]) -> (r: bool)
    ensures
        r == has_sub(s@, p@),
{
    if p.len() > s.len() {
        proof {
            assert forall|i: int| !match_at(s@, p@, i) by {
                if 0 <= i && i + p@.len() <= s@.len() {
                    assert(p@.len() <= s@.len());
                }
            }
        }
        return false;
    }
    if p.len() == 0 {
        proof {
            assert(s@.subrange(0, 0) =~= p@);
            assert(match_at(s@, p@, 0));
        }
        return true;
    }
    let slen = s.len();
    let mut i: usize = 0;
    while i <= s.len() - p.len()
        invariant
            1 <= p@.len() <= s@.len(),
            s@.len() <= usize::MAX,
            0 <= i <= s@.len() - p@.len() + 1,
            forall|k: int| 0 <= k < i ==> !match_at(s@, p@, k),
        decreases s@.len() - p@.len() + 1 - i,
    {
        if eq_at(s, p, i) {
            proof {
                assert(match_at(s@, p@, i as int));
            }
            return true;
        }
        proof {
            assert(!match_at(s@, p@, i as int));
        }
        i = i + 1;
    }
    proof {
        assert forall|k: int| !match_at(s@, p@, k) by {
            if 0 <= k && k + p@.len() <= s@.len() {
                assert(k < i);
            }
        }
    }
    false
}

/// Whether `s` begins with the bytes `p`.
pub fn has_prefix(s: &[u8], p: &[u8]) -> (r: bool)
    ensures
        r == starts_with(s@, p@),
{
    if p.len() > s.len() {
        return false;
    }
    eq_at(s, p, 0)
}

/// Byte-for-byte equality of two byte strings.
pub fn bytes_eq(a: &[u8], b: &[u8]) -> (r: bool)
    ensures
        r == (a@ == b@),
{
    if a.len() != b.len() {
        return false;
    }
    let r = eq_at(a, b, 0);
    proof {
        assert(a@.subrange(0, a@.len() as int) =~= a@);
    }
    r
}

/// Copy the bytes of `s` between `a` and `b` into a fresh vector.
pub fn sub_vec(s: &[u8], a: usize, b: usize) -> (v: Vec<u8>)
    requires
        a <= b <= s@.len(),
    ensures
        v@ == s@.subrange(a as int, b as int),
{
    slice_to_vec(&s[a..b])
}


/// Index of the first non-whitespace byte in `s`, or `s.len()` when `s`
/// is all whitespace.
pub open spec fn first_non_ws(s: Seq<u8>) -> nat
    decreases s.len(),
{
    if s.len() == 0 {
        0
    } else if !is_ws(s[0]) {
        0
    } else {
        1 + first_non_ws(s.drop_first())
    }
}

pub proof fn lemma_first_non_ws(s: Seq<u8>)
    ensures
        first_non_ws(s) <= s.len(),
        forall|i: int| 0 <= i < first_non_ws(s) ==> is_ws(s[i]),
        first_non_ws(s) < s.len() ==> !is_ws(s[first_non_ws(s) as int]),
    decreases s.len(),
{
    if s.len() > 0 && is_ws(s[0]) {
        lemma_first_non_ws(s.drop_first());
        assert(forall|i: int| 1 <= i < first_non_ws(s) ==> s[i] == s.drop_first()[i - 1]);
    }
}

pub proof fn lemma_first_non_ws_is(s: Seq<u8>, j: int)
    requires
        0 <= j <= s.len(),
        forall|i: int| 0 <= i < j ==> is_ws(s[i]),
        j < s.len() ==> !is_ws(s[j]),
    ensures
        first_non_ws(s) == j,
{
    lemma_first_non_ws(s);
}

/// Number of whitespace bytes at the end of `s`.
pub open spec fn trail_ws(s: Seq<u8>) -> nat
    decreases s.len(),
{
    if s.len() == 0 {
        0
    } else if is_ws(s.last()) {
        1 + trail_ws(s.drop_last())
    } else {
        0
    }
}

pub proof fn lemma_trail_ws(s: Seq<u8>)
    ensures
        trail_ws(s) <= s.len(),
        forall|i: int| s.len() - trail_ws(s) <= i < s.len() ==> is_ws(s[i]),
        trail_ws(s) < s.len() ==> !is_ws(s[s.len() - trail_ws(s) - 1]),
    decreases s.len(),
{
    if s.len() > 0 && is_ws(s.last()) {
        lemma_trail_ws(s.drop_last());
        assert(forall|i: int| 0 <= i < s.len() - 1 ==> s[i] == s.drop_last()[i]);
    }
}

pub proof fn lemma_trail_ws_is(s: Seq<u8>, j: int)
    requires
        0 <= j <= s.len(),
        forall|i: int| s.len() - j <= i < s.len() ==> is_ws(s[i]),
        j < s.len() ==> !is_ws(s[s.len() - j - 1]),
    ensures
        trail_ws(s) == j,
{
    lemma_trail_ws(s);
    let t = trail_ws(s) as int;
    if t < j {
        assert(is_ws(s[s.len() - t - 1]));
    }
    if t > j {
        assert(is_ws(s[s.len() - j - 1]));
    }
}

/// `s` with its leading and trailing whitespace removed.
pub open spec fn trim_of(s: Seq<u8>) -> Seq<u8> {
    let a = first_non_ws(s) as int;
    if a >= s.len() {
        Seq::empty()
    } else {
        s.subrange(a, s.len() - trail_ws(s))
    }
}

/// Strip leading and trailing whitespace, as `trim_of` describes.
pub fn trim(s: &[u8]) -> (v: Vec<u8>)
    ensures
        v@ == trim_of(s@),
{
    let slen = s.len();
    let mut a: usize = 0;
    while a < s.len() && (s[a] == 32 || (9 <= s[a] && s[a] <= 13))
        invariant
            0 <= a <= s@.len(),
            forall|k: int| 0 <= k < a ==> is_ws(s@[k]),
        decreases s@.len() - a,
    {
        a = a + 1;
    }
    proof {
        lemma_first_non_ws_is(s@, a as int);
    }
    if a == s.len() {
        let v: Vec<u8> = Vec::new();
        proof {
            assert(v@ =~= trim_of(s@));
        }
        return v;
    }
    let mut b: usize = s.len();
    while b > a + 1 && (s[b - 1] == 32 || (9 <= s[b - 1] && s[b - 1] <= 13))
        invariant
            a < b <= s@.len(),
            forall|k: int| b <= k < s@.len() ==> is_ws(s@[k]),
        decreases b,
    {
        b = b - 1;
    }
    if s[b - 1] == 32 || (9 <= s[b - 1] && s[b - 1] <= 13) {
        // Only possible when b == a + 1; but s[a] is not whitespace.
        proof {
            assert(is_ws(s@[a as int]));
        }
        assert(false);
    }
    proof {
        lemma_trail_ws_is(s@, s@.len() - b);
    }
    sub_vec(s, a, b)
}

/// Index of the first occurrence of `p` in `s`; `s.len()` past the last
/// viable start when there is none.
pub open spec fn first_match(s: Seq<u8>, p: Seq<u8>) -> nat
    decreases s.len(),
{
    if match_at(s, p, 0) {
        0
    } else if s.len() == 0 {
        0
    } else {
        1 + first_match(s.drop_first(), p)
    }
}

pub proof fn lemma_first_match(s: Seq<u8>, p: Seq<u8>)
    ensures
        forall|k: int| 0 <= k < first_match(s, p) ==> !match_at(s, p, k),
        has_sub(s, p) ==> match_at(s, p, first_match(s, p) as int),
    decreases s.len(),
{
    if !match_at(s, p, 0) && s.len() > 0 {
        lemma_first_match(s.drop_first(), p);
        assert forall|k: int| 1 <= k implies match_at(s, p, k) == match_at(
            s.drop_first(),
            p,
            k - 1,
        ) by {
            if 0 <= k - 1 && k - 1 + p.len() <= s.drop_first().len() {
                assert(s.subrange(k, k + p.len() as int) =~= s.drop_first().subrange(
                    k - 1,
                    k - 1 + p.len() as int,
                ));
            }
        }
        if has_sub(s, p) {
            let w = choose|i: int| match_at(s, p, i);
            assert(match_at(s, p, w));
            assert(w >= 1);
            assert(match_at(s.drop_first(), p, w - 1));
            assert(has_sub(s.drop_first(), p));
        }
    }
}

/// Find the first occurrence of `p` in `s`, as `first_match` describes.
pub fn find_sub(s: &[u8], p: &[u8]) -> (r: Option<usize>)
    ensures
        match r {
            Some(i) => i == first_match(s@, p@) && match_at(s@, p@, i as int),
            None => !has_sub(s@, p@),
        },
{
    if p.len() > s.len() {
        proof {
            assert forall|i: int| !match_at(s@, p@, i) by {
                if 0 <= i && i + p@.len() <= s@.len() {
                    assert(p@.len() <= s@.len());
                }
            }
        }
        return None;
    }
    if p.len() == 0 {
        proof {
            assert(s@.subrange(0, 0) =~= p@);
            assert(match_at(s@, p@, 0));
            lemma_first_match(s@, p@);
        }
        return Some(0);
    }
    let slen = s.len();
    let mut i: usize = 0;
    while i <= s.len() - p.len()
        invariant
            1 <= p@.len() <= s@.len(),
            s@.len() <= usize::MAX,
            0 <= i <= s@.len() - p@.len() + 1,
            forall|k: int| 0 <= k < i ==> !match_at(s@, p@, k),
        decreases s@.len() - p@.len() + 1 - i,
    {
        if eq_at(s, p, i) {
            proof {
                assert(match_at(s@, p@, i as int));
                lemma_first_match(s@, p@);
                let fm = first_match(s@, p@) as int;
                if fm < i {
                    assert(match_at(s@, p@, fm));
                } else if fm > i {
                    assert(!match_at(s@, p@, i as int));
                }
            }
            return Some(i);
        }
        proof {
            assert(!match_at(s@, p@, i as int));
        }
        i = i + 1;
    }
    proof {
        assert forall|k: int| !match_at(s@, p@, k) by {
            if 0 <= k && k + p@.len() <= s@.len() {
                assert(k < i);
            }
        }
    }
    None
}

} // verus!

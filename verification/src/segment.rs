//! Row segmenter: normalizes the located table text, then splits it
//! into row spans. A row begins wherever a program-track code token
//! (`I`, `TA`, `DK` or `W`) stands at the start of the text or right
//! after a whitespace character, closed by a word boundary. Spans run
//! from each boundary to the next, the last one to the end of the text.

use vstd::prelude::*;

use crate::chars::{Span, match_at, is_space_char, is_word_char, matches_at, space_char,
    word_char, to_chars};
use crate::normalize::{normalize_spec, normalize, no_double_space};

verus! {

/// The code `code` stands at `j` in `s`, closed by a word boundary:
/// the next character is no word character, or the text ends there.
pub open spec fn code_token_at(s: Seq<char>, code: Seq<char>, j: int) -> bool {
    match_at(s, code, j) && (j + code.len() == s.len() || !is_word_char(s[j + code.len()]))
}

/// One of the four program-track codes stands at `j`, closed by a word
/// boundary.
pub open spec fn boundary_code_at(s: Seq<char>, j: int) -> bool {
    code_token_at(s, "I"@, j) || code_token_at(s, "TA"@, j) || code_token_at(s, "DK"@, j)
        || code_token_at(s, "W"@, j)
}

/// Position `p` starts a row: a boundary code stands at the very start
/// of the text, or right after the whitespace character at `p`.
pub open spec fn is_row_boundary(s: Seq<char>, p: int) -> bool {
    (p == 0 && boundary_code_at(s, 0)) || (0 <= p < s.len() && is_space_char(s[p])
        && boundary_code_at(s, p + 1))
}

/// All row-boundary positions below `k`, in increasing order.
pub open spec fn starts_below(s: Seq<char>, k: int) -> Seq<int>
    decreases k,
{
    if k <= 0 {
        Seq::<int>::empty()
    } else {
        starts_below(s, k - 1) + if is_row_boundary(s, k - 1) {
            seq![k - 1]
        } else {
            Seq::<int>::empty()
        }
    }
}

/// The row spans of `s`: the half-open intervals between consecutive
/// row boundaries, the last one extending to the end of the text.
pub open spec fn row_spans(s: Seq<char>) -> Seq<(int, int)> {
    let starts = starts_below(s, s.len() as int);
    starts.map(
        |k: int, p: int|
            (
                p,
                if k + 1 < starts.len() {
                    starts[k + 1]
                } else {
                    s.len() as int
                },
            ),
    )
}

/// Runtime test for `boundary_code_at`.
fn boundary_code(t: &Vec<char>, j: usize) -> (r: bool)
    requires
        j <= t@.len(),
    ensures
        r == boundary_code_at(t@, j as int),
{
    let code_i = to_chars("I");
    let code_ta = to_chars("TA");
    let code_dk = to_chars("DK");
    let code_w = to_chars("W");
    code_token(t, &code_i, j) || code_token(t, &code_ta, j) || code_token(t, &code_dk, j)
        || code_token(t, &code_w, j)
}

/// Runtime test for `code_token_at`.
fn code_token(t: &Vec<char>, code: &Vec<char>, j: usize) -> (r: bool)
    requires
        j <= t@.len(),
    ensures
        r == code_token_at(t@, code@, j as int),
{
    if !matches_at(t, code, j) {
        return false;
    }
    let tlen = t.len();
    proof {
        assert(j + code@.len() <= tlen);
    }
    let after = j + code.len();
    after == tlen || !word_char(t[after])
}

/// Runtime test for `is_row_boundary`.
fn row_boundary(t: &Vec<char>, p: usize) -> (r: bool)
    requires
        p < t@.len(),
    ensures
        r == is_row_boundary(t@, p as int),
{
    let tlen = t.len();
    proof {
        assert(p < tlen);
    }
    (p == 0 && boundary_code(t, 0)) || (space_char(t[p]) && boundary_code(t, p + 1))
}

/// The row-boundary positions of `m`, in increasing order.
fn boundaries(m: &Vec<char>) -> (r: Vec<usize>)
    ensures
        r@.map(|_k: int, p: usize| p as int) == starts_below(m@, m@.len() as int),
{
    let mut r: Vec<usize> = Vec::new();
    let mut p: usize = 0;
    while p < m.len()
        invariant
            p <= m@.len(),
            r@.map(|_k: int, q: usize| q as int) == starts_below(m@, p as int),
        decreases m@.len() - p,
    {
        let ghost before = r@.map(|_k: int, q: usize| q as int);
        if row_boundary(m, p) {
            r.push(p);
            proof {
                assert(r@.map(|_k: int, q: usize| q as int) =~= before + seq![p as int]);
                assert(starts_below(m@, p + 1) =~= before + seq![p as int]);
            }
        } else {
            proof {
                assert(starts_below(m@, p + 1) =~= before);
            }
        }
        p = p + 1;
    }
    r
}

/// Builds the row spans of `m` from its boundary positions.
pub(crate) fn spans_from(m: &Vec<char>) -> (r: Vec<Span>)
    ensures
        r@.map(|_k: int, sp: Span| (sp.start as int, sp.end as int)) == row_spans(m@),
{
    let starts = boundaries(m);
    let ghost sb = starts_below(m@, m@.len() as int);
    let mut r: Vec<Span> = Vec::new();
    let mut k: usize = 0;
    while k < starts.len()
        invariant
            k <= starts@.len(),
            starts@.map(|_k2: int, p: usize| p as int) == sb,
            row_spans(m@) == sb.map(
                |k2: int, p: int|
                    (
                        p,
                        if k2 + 1 < sb.len() {
                            sb[k2 + 1]
                        } else {
                            m@.len() as int
                        },
                    ),
            ),
            r@.map(|_k2: int, sp: Span| (sp.start as int, sp.end as int)) == row_spans(
                m@,
            ).subrange(0, k as int),
        decreases starts@.len() - k,
    {
        let ghost before = r@.map(|_k2: int, sp: Span| (sp.start as int, sp.end as int));
        let e: usize = if k + 1 < starts.len() {
            starts[k + 1]
        } else {
            m.len()
        };
        r.push(Span { start: starts[k], end: e });
        proof {
            assert(starts@.map(|_k2: int, p: usize| p as int)[k as int] == sb[k as int]);
            if k + 1 < starts@.len() {
                assert(starts@.map(|_k2: int, p: usize| p as int)[k + 1] == sb[k + 1]);
            }
            assert(row_spans(m@)[k as int] == (sb[k as int], if k + 1 < sb.len() {
                sb[k + 1]
            } else {
                m@.len() as int
            }));
            assert(r@.map(|_k2: int, sp: Span| (sp.start as int, sp.end as int)) =~= before
                + seq![(starts@[k as int] as int, e as int)]);
            assert(r@.map(|_k2: int, sp: Span| (sp.start as int, sp.end as int))
                =~= row_spans(m@).subrange(0, k + 1));
        }
        k = k + 1;
    }
    proof {
        assert(row_spans(m@).subrange(0, k as int) =~= row_spans(m@));
    }
    r
}

/// Segments the table text into row spans. The spans index into the
/// normalized text, `normalize_spec` of the input; text before the
/// first boundary belongs to no span, and text without any boundary
/// yields no spans at all.
pub fn segment(table_text: &str) -> (r: Vec<Span>)
    ensures
        r@.map(|_k: int, sp: Span| (sp.start as int, sp.end as int)) == row_spans(
            normalize_spec(table_text@),
        ),
{
    let t = to_chars(table_text);
    segment_chars(&t)
}

/// `segment`, on text already split into characters.
pub fn segment_chars(t: &Vec<char>) -> (r: Vec<Span>)
    ensures
        r@.map(|_k: int, sp: Span| (sp.start as int, sp.end as int)) == row_spans(
            normalize_spec(t@),
        ),
{
    let m = normalize(t);
    spans_from(&m)
}

/// Every boundary position recorded below `k` lies in `[0, k)`, and
/// the positions are strictly increasing.
pub proof fn lemma_starts_below_props(s: Seq<char>, k: int)
    ensures
        forall|x: int|
            0 <= x < starts_below(s, k).len() ==> 0 <= #[trigger] starts_below(s, k)[x] < k,
        forall|x: int, y: int|
            0 <= x < y < starts_below(s, k).len() ==> #[trigger] starts_below(s, k)[x]
                < #[trigger] starts_below(s, k)[y],
    decreases k,
{
    if k > 0 {
        lemma_starts_below_props(s, k - 1);
        let prev = starts_below(s, k - 1);
        let cur = starts_below(s, k);
        if is_row_boundary(s, k - 1) {
            assert(cur =~= prev + seq![k - 1]);
            assert(forall|x: int| 0 <= x < prev.len() ==> cur[x] == #[trigger] prev[x]);
            assert(cur[cur.len() - 1] == k - 1);
        } else {
            assert(cur =~= prev);
        }
    }
}

/// Every row span is a valid interval within the text.
pub proof fn lemma_row_spans_valid(s: Seq<char>)
    ensures
        forall|x: int|
            0 <= x < row_spans(s).len() ==> 0 <= #[trigger] row_spans(s)[x].0 && row_spans(s)[x].0
                <= row_spans(s)[x].1 && row_spans(s)[x].1 <= s.len(),
{
    lemma_starts_below_props(s, s.len() as int);
}

/// Law: when the normal form of the table text holds no double space,
/// normalization is a fixpoint, so segmenting the already-normalized
/// text yields exactly the same row spans again.
pub proof fn lemma_segment_idempotent(t: Seq<char>)
    requires
        no_double_space(normalize_spec(t)),
    ensures
        row_spans(normalize_spec(normalize_spec(t))) == row_spans(normalize_spec(t)),
{
    crate::normalize::lemma_normalize_idempotent(t);
}

} // verus!

//! Whitespace normalization of the located table text: every line break
//! becomes a space, then each pair of adjacent spaces collapses to one.
//! The collapse is a single left-to-right pass, not a fixpoint iteration,
//! so a run of three or more spaces leaves a double space behind.

use vstd::prelude::*;

verus! {

/// Every line-break character replaced by a space.
pub open spec fn replace_nl(s: Seq<char>) -> Seq<char> {
    s.map(|_i: int, c: char| if c == '\n' { ' ' } else { c })
}

/// One left-to-right pass replacing each non-overlapping pair of
/// adjacent spaces with a single space.
pub open spec fn collapse(s: Seq<char>) -> Seq<char>
    decreases s.len(),
{
    if s.len() >= 2 && s[0] == ' ' && s[1] == ' ' {
        seq![' '] + collapse(s.skip(2))
    } else if s.len() >= 1 {
        seq![s[0]] + collapse(s.skip(1))
    } else {
        Seq::<char>::empty()
    }
}

/// The whole normalization: line breaks to spaces, then one collapse pass.
pub open spec fn normalize_spec(s: Seq<char>) -> Seq<char> {
    collapse(replace_nl(s))
}

pub open spec fn no_newline(s: Seq<char>) -> bool {
    forall|i: int| 0 <= i < s.len() ==> s[i] != '\n'
}

pub open spec fn no_double_space(s: Seq<char>) -> bool {
    forall|i: int| 0 <= i && i + 1 < s.len() ==> !(#[trigger] s[i] == ' ' && s[i + 1] == ' ')
}

/// Computes `normalize_spec` of the input.
pub fn normalize(s: &Vec<char>) -> (r: Vec<char>)
    ensures
        r@ == normalize_spec(s@),
{
    let mut t: Vec<char> = Vec::new();
    let mut i: usize = 0;
    while i < s.len()
        invariant
            i <= s@.len(),
            t@ == replace_nl(s@).subrange(0, i as int),
        decreases s@.len() - i,
    {
        if s[i] == '\n' {
            t.push(' ');
        } else {
            t.push(s[i]);
        }
        i = i + 1;
        proof {
            assert(t@ =~= replace_nl(s@).subrange(0, i as int));
        }
    }
    proof {
        assert(t@ =~= replace_nl(s@));
    }
    let mut out: Vec<char> = Vec::new();
    let mut j: usize = 0;
    while j < t.len()
        invariant
            j <= t@.len(),
            collapse(t@) == out@ + collapse(t@.skip(j as int)),
        decreases t@.len() - j,
    {
        let sub = Ghost(t@.skip(j as int));
        if j + 1 < t.len() && t[j] == ' ' && t[j + 1] == ' ' {
            out.push(' ');
            j = j + 2;
            proof {
                assert(sub@[0] == ' ' && sub@[1] == ' ');
                assert(sub@.skip(2) =~= t@.skip(j as int));
                assert(collapse(sub@) == seq![' '] + collapse(t@.skip(j as int)));
                assert(out@ + collapse(t@.skip(j as int)) =~= out@.drop_last() + collapse(sub@));
            }
        } else {
            let c = t[j];
            out.push(c);
            j = j + 1;
            proof {
                assert(sub@[0] == c);
                assert(!(sub@.len() >= 2 && sub@[0] == ' ' && sub@[1] == ' '));
                assert(sub@.skip(1) =~= t@.skip(j as int));
                assert(collapse(sub@) == seq![c] + collapse(t@.skip(j as int)));
                assert(out@ + collapse(t@.skip(j as int)) =~= out@.drop_last() + collapse(sub@));
            }
        }
    }
    proof {
        assert(t@.skip(j as int) =~= Seq::<char>::empty());
        assert(out@ + collapse(t@.skip(j as int)) =~= out@);
    }
    out
}

proof fn lemma_replace_nl_id(s: Seq<char>)
    requires
        no_newline(s),
    ensures
        replace_nl(s) == s,
{
    assert(replace_nl(s) =~= s);
}

proof fn lemma_collapse_id(s: Seq<char>)
    requires
        no_double_space(s),
    ensures
        collapse(s) == s,
    decreases s.len(),
{
    if s.len() >= 1 {
        assert(!(s.len() >= 2 && s[0] == ' ' && s[1] == ' '));
        assert(no_double_space(s.skip(1))) by {
            assert(forall|i: int|
                0 <= i && i + 1 < s.skip(1).len() ==> #[trigger] s.skip(1)[i] == s[i + 1]
                    && s.skip(1)[i + 1] == s[i + 2]);
        }
        lemma_collapse_id(s.skip(1));
        assert(seq![s[0]] + s.skip(1) =~= s);
    } else {
        assert(collapse(s) =~= s);
    }
}

proof fn lemma_collapse_no_newline(s: Seq<char>)
    requires
        no_newline(s),
    ensures
        no_newline(collapse(s)),
    decreases s.len(),
{
    if s.len() >= 2 && s[0] == ' ' && s[1] == ' ' {
        assert(no_newline(s.skip(2)));
        lemma_collapse_no_newline(s.skip(2));
        assert(forall|i: int|
            0 <= i < collapse(s).len() ==> collapse(s)[i] == (seq![' '] + collapse(s.skip(2)))[i]);
    } else if s.len() >= 1 {
        assert(no_newline(s.skip(1)));
        lemma_collapse_no_newline(s.skip(1));
        assert(forall|i: int|
            0 <= i < collapse(s).len() ==> collapse(s)[i] == (seq![s[0]] + collapse(s.skip(1)))[i]);
    }
}

/// Law: on text whose normal form holds no double space, normalization
/// is a fixpoint, so normalizing the already-normalized text changes
/// nothing. (A run of three or more spaces in the input breaks the
/// premise: its normal form still holds a double space.)
pub proof fn lemma_normalize_idempotent(s: Seq<char>)
    requires
        no_double_space(normalize_spec(s)),
    ensures
        normalize_spec(normalize_spec(s)) == normalize_spec(s),
{
    let n = normalize_spec(s);
    assert(no_newline(replace_nl(s)));
    lemma_collapse_no_newline(replace_nl(s));
    lemma_replace_nl_id(n);
    lemma_collapse_id(n);
}

} // verus!

//! Row parser: matches one row span against the fixed table grammar.
//! A row is a non-whitespace token, a space, a program-name literal
//! from the closed bilingual vocabulary, a space, a shortest-possible
//! type-code field free of line breaks, a space, and one of the four
//! obligatory/elective literals. The match is the leftmost one; the
//! type-code field ends at the earliest obligatory/elective literal.

use vstd::prelude::*;

use crate::chars::{match_at, is_space_char, matches_at, space_char, to_chars, sub_chars};
use crate::row::{Bachelor, ModuleOffer, ModuleType, bachelor_of, module_type_of, obligatory_of};

verus! {

/// The first position at or after `i` that ends the text or holds a
/// whitespace character: the end of the non-whitespace token at `i`.
pub open spec fn token_end(s: Seq<char>, i: int) -> int
    decreases s.len() - i,
{
    if i < 0 || i >= s.len() || is_space_char(s[i]) {
        i
    } else {
        token_end(s, i + 1)
    }
}

/// The program-name literal standing at `j`, if any. The vocabulary is
/// closed; no literal is a prefix of another, so at most one can stand
/// at a given position.
pub open spec fn prog_lit_at(s: Seq<char>, j: int) -> Option<Seq<char>> {
    if match_at(s, "Artificial Intelligence & Machine Learning"@, j) {
        Some("Artificial Intelligence & Machine Learning"@)
    } else if match_at(s, "Information & Cyber Security"@, j) {
        Some("Information & Cyber Security"@)
    } else if match_at(s, "Informatik"@, j) {
        Some("Informatik"@)
    } else if match_at(s, "Wirtschaftsinformatik"@, j) {
        Some("Wirtschaftsinformatik"@)
    } else if match_at(s, "Mobility , Data Science & Economics"@, j) {
        Some("Mobility , Data Science & Economics"@)
    } else if match_at(s, "Digital Ideation"@, j) {
        Some("Digital Ideation"@)
    } else if match_at(s, "Wirtschaftsingenieurwesen"@, j) {
        Some("Wirtschaftsingenieurwesen"@)
    } else if match_at(s, "Elektrotechnik und Informationstechnologie"@, j) {
        Some("Elektrotechnik und Informationstechnologie"@)
    } else if match_at(s, "Digital Construction"@, j) {
        Some("Digital Construction"@)
    } else if match_at(s, "Digital Engineering"@, j) {
        Some("Digital Engineering"@)
    } else {
        None
    }
}

/// Position `m` separates the type-code field from an
/// obligatory/elective literal: a space followed by one of the four
/// literals.
pub open spec fn obl_sep_at(s: Seq<char>, m: int) -> bool {
    0 <= m < s.len() && s[m] == ' ' && (match_at(s, "Pflicht"@, m + 1) || match_at(
        s,
        "Wahl"@,
        m + 1,
    ) || match_at(s, "Mandatory"@, m + 1) || match_at(s, "Elective"@, m + 1))
}

/// The obligatory/elective literal standing at `j`.
pub open spec fn obl_lit_at(s: Seq<char>, j: int) -> Seq<char> {
    if match_at(s, "Pflicht"@, j) {
        "Pflicht"@
    } else if match_at(s, "Wahl"@, j) {
        "Wahl"@
    } else if match_at(s, "Mandatory"@, j) {
        "Mandatory"@
    } else if match_at(s, "Elective"@, j) {
        "Elective"@
    } else {
        Seq::<char>::empty()
    }
}

/// The earliest obligatory/elective separator at or after `from`,
/// reachable without crossing a line break (the type-code field may
/// hold anything but a line break).
pub open spec fn obl_scan(s: Seq<char>, from: int) -> Option<int>
    decreases s.len() - from,
{
    if from < 0 || from >= s.len() {
        None
    } else if obl_sep_at(s, from) {
        Some(from)
    } else if s[from] == '\n' {
        None
    } else {
        obl_scan(s, from + 1)
    }
}

/// A full row match starts exactly at `i`: a non-whitespace token, a
/// space, a program-name literal, a space, and further on a separator
/// before an obligatory/elective literal.
pub open spec fn row_match_at(s: Seq<char>, i: int) -> bool {
    0 <= i < s.len() && !is_space_char(s[i]) && {
        let e = token_end(s, i);
        e < s.len() && s[e] == ' ' && match prog_lit_at(s, e + 1) {
            Some(p) => {
                let pe = e + 1 + p.len();
                pe < s.len() && s[pe] == ' ' && obl_scan(s, pe + 1) is Some
            },
            None => false,
        }
    }
}

/// The leftmost row-match position at or after `i`.
pub open spec fn row_scan(s: Seq<char>, i: int) -> Option<int>
    decreases s.len() - i,
{
    if i < 0 || i >= s.len() {
        None
    } else if row_match_at(s, i) {
        Some(i)
    } else {
        row_scan(s, i + 1)
    }
}

/// The program-name literal captured by the leftmost row match.
pub open spec fn row_prog(s: Seq<char>) -> Option<Seq<char>> {
    match row_scan(s, 0) {
        Some(i) => prog_lit_at(s, token_end(s, i) + 1),
        None => None,
    }
}

/// The type-code field captured by the leftmost row match.
pub open spec fn row_code(s: Seq<char>) -> Option<Seq<char>> {
    match row_scan(s, 0) {
        Some(i) => {
            let e = token_end(s, i);
            match prog_lit_at(s, e + 1) {
                Some(p) => {
                    let pe = e + 1 + p.len();
                    match obl_scan(s, pe + 1) {
                        Some(m) => Some(s.subrange(pe + 1, m)),
                        None => None,
                    }
                },
                None => None,
            }
        },
        None => None,
    }
}

/// What parsing one row span returns: the resolved program and offer of
/// the leftmost row match, or nothing when the span does not match,
/// names an untracked program, or carries an unrecognized type code.
pub open spec fn row_result(s: Seq<char>) -> Option<(Bachelor, ModuleOffer)> {
    match row_scan(s, 0) {
        Some(i) => {
            let e = token_end(s, i);
            match prog_lit_at(s, e + 1) {
                Some(p) => {
                    let pe = e + 1 + p.len();
                    match obl_scan(s, pe + 1) {
                        Some(m) => {
                            let code = s.subrange(pe + 1, m);
                            let obl = obl_lit_at(s, m + 1);
                            match bachelor_of(p) {
                                Some(b) => match module_type_of(code) {
                                    Some(ty) => Some(
                                        (b, ModuleOffer { ty, obligatory: obligatory_of(obl) }),
                                    ),
                                    None => None,
                                },
                                None => None,
                            }
                        },
                        None => None,
                    }
                },
                None => None,
            }
        },
        None => None,
    }
}

/// Finds the end of the non-whitespace token starting at `i`.
fn token_end_exec(t: &Vec<char>, i: usize) -> (r: usize)
    requires
        i <= t@.len(),
    ensures
        r as int == token_end(t@, i as int),
        i <= r <= t@.len(),
{
    let mut j: usize = i;
    while j < t.len() && !space_char(t[j])
        invariant
            i <= j <= t@.len(),
            token_end(t@, i as int) == token_end(t@, j as int),
        decreases t@.len() - j,
    {
        proof {
            assert(token_end(t@, j as int) == token_end(t@, j + 1));
        }
        j = j + 1;
    }
    proof {
        assert(token_end(t@, j as int) == j as int);
    }
    j
}

/// Which program-name literal stands at `j`, reported as its length.
fn prog_at(t: &Vec<char>, j: usize) -> (r: Option<usize>)
    requires
        j <= t@.len(),
    ensures
        match r {
            Some(l) => j + l <= t@.len() && prog_lit_at(t@, j as int) == Some(
                t@.subrange(j as int, j + l),
            ),
            None => prog_lit_at(t@, j as int) is None,
        },
{
    let lits: [&str; 10] = [
        "Artificial Intelligence & Machine Learning",
        "Information & Cyber Security",
        "Informatik",
        "Wirtschaftsinformatik",
        "Mobility , Data Science & Economics",
        "Digital Ideation",
        "Wirtschaftsingenieurwesen",
        "Elektrotechnik und Informationstechnologie",
        "Digital Construction",
        "Digital Engineering",
    ];
    let mut k: usize = 0;
    while k < 10
        invariant
            j <= t@.len(),
            k <= 10,
            lits@.len() == 10,
            lits@[0]@ == "Artificial Intelligence & Machine Learning"@,
            lits@[1]@ == "Information & Cyber Security"@,
            lits@[2]@ == "Informatik"@,
            lits@[3]@ == "Wirtschaftsinformatik"@,
            lits@[4]@ == "Mobility , Data Science & Economics"@,
            lits@[5]@ == "Digital Ideation"@,
            lits@[6]@ == "Wirtschaftsingenieurwesen"@,
            lits@[7]@ == "Elektrotechnik und Informationstechnologie"@,
            lits@[8]@ == "Digital Construction"@,
            lits@[9]@ == "Digital Engineering"@,
            forall|x: int| 0 <= x < k ==> !match_at(t@, lits@[x]@, j as int),
        decreases 10 - k,
    {
        let lit = to_chars(lits[k]);
        if matches_at(t, &lit, j) {
            proof {
                assert(t@.subrange(j as int, j + lit@.len()) =~= lit@);
            }
            return Some(lit.len());
        }
        k = k + 1;
    }
    None
}

/// Does an obligatory/elective separator stand at `m`?
fn obl_sep(t: &Vec<char>, m: usize) -> (r: bool)
    requires
        m <= t@.len(),
    ensures
        r == obl_sep_at(t@, m as int),
{
    if m >= t.len() || t[m] != ' ' {
        return false;
    }
    let pf = to_chars("Pflicht");
    let wa = to_chars("Wahl");
    let ma = to_chars("Mandatory");
    let el = to_chars("Elective");
    matches_at(t, &pf, m + 1) || matches_at(t, &wa, m + 1) || matches_at(t, &ma, m + 1)
        || matches_at(t, &el, m + 1)
}

/// Finds the earliest obligatory/elective separator at or after `from`.
fn obl_scan_exec(t: &Vec<char>, from: usize) -> (r: Option<usize>)
    requires
        from <= t@.len(),
    ensures
        match r {
            Some(m) => obl_scan(t@, from as int) == Some(m as int) && from <= m < t@.len(),
            None => obl_scan(t@, from as int) is None,
        },
{
    let mut j: usize = from;
    while j < t.len()
        invariant
            from <= j <= t@.len(),
            obl_scan(t@, from as int) == obl_scan(t@, j as int),
        decreases t@.len() - j,
    {
        if obl_sep(t, j) {
            proof {
                assert(obl_scan(t@, j as int) == Some(j as int));
            }
            return Some(j);
        }
        if t[j] == '\n' {
            proof {
                assert(obl_scan(t@, j as int) is None);
            }
            return None;
        }
        proof {
            assert(obl_scan(t@, j as int) == obl_scan(t@, j + 1));
        }
        j = j + 1;
    }
    proof {
        assert(obl_scan(t@, j as int) is None);
    }
    None
}

/// The positions of the pieces of a row match starting at some `i`:
/// the token's end, the program literal's length, and the separator
/// before the obligatory/elective literal.
struct RowHit {
    e: usize,
    plen: usize,
    m: usize,
}

/// Checks for a row match starting exactly at `i` and reports its
/// pieces.
fn try_row_at(t: &Vec<char>, i: usize) -> (r: Option<RowHit>)
    requires
        i < t@.len(),
    ensures
        match r {
            Some(h) => row_match_at(t@, i as int) && h.e as int == token_end(t@, i as int)
                && h.e + 1 + h.plen + 1 <= h.m < t@.len() && prog_lit_at(t@, h.e + 1) == Some(
                t@.subrange(h.e + 1, h.e + 1 + h.plen),
            ) && obl_scan(t@, h.e + 1 + h.plen + 1) == Some(h.m as int),
            None => !row_match_at(t@, i as int),
        },
{
    if space_char(t[i]) {
        return None;
    }
    let e = token_end_exec(t, i);
    if e == t.len() || t[e] != ' ' {
        return None;
    }
    match prog_at(t, e + 1) {
        None => None,
        Some(plen) => {
            let pe = e + 1 + plen;
            if pe == t.len() || t[pe] != ' ' {
                proof {
                    assert(!row_match_at(t@, i as int));
                }
                return None;
            }
            match obl_scan_exec(t, pe + 1) {
                None => {
                    proof {
                        assert(!row_match_at(t@, i as int));
                    }
                    None
                },
                Some(m) => {
                    proof {
                        assert(row_match_at(t@, i as int));
                    }
                    Some(RowHit { e, plen, m })
                },
            }
        },
    }
}

/// Finds the leftmost row match in `t` and reports its pieces.
fn find_row(t: &Vec<char>) -> (r: Option<(usize, RowHit)>)
    ensures
        match r {
            Some(pair) => row_scan(t@, 0) == Some(pair.0 as int) && {
                let h = pair.1;
                h.e as int == token_end(t@, pair.0 as int) && h.e + 1 + h.plen + 1 <= h.m
                    < t@.len() && prog_lit_at(t@, h.e + 1) == Some(
                    t@.subrange(h.e + 1, h.e + 1 + h.plen),
                ) && obl_scan(t@, h.e + 1 + h.plen + 1) == Some(h.m as int)
            },
            None => row_scan(t@, 0) is None,
        },
{
    let mut i: usize = 0;
    while i < t.len()
        invariant
            i <= t@.len(),
            row_scan(t@, 0) == row_scan(t@, i as int),
        decreases t@.len() - i,
    {
        match try_row_at(t, i) {
            Some(h) => {
                proof {
                    assert(row_scan(t@, i as int) == Some(i as int));
                }
                return Some((i, h));
            },
            None => {
                proof {
                    assert(row_scan(t@, i as int) == row_scan(t@, i + 1));
                }
                i = i + 1;
            },
        }
    }
    proof {
        assert(row_scan(t@, i as int) is None);
    }
    None
}

/// The outcome of classifying one row span.
#[derive(Debug, PartialEq, Eq)]
pub enum RowOutcome {
    /// The row parsed to an offer of a tracked program.
    Parsed(Bachelor, ModuleOffer),
    /// The row matched, but names a program that is not tracked.
    Ignored,
    /// The row matched, but its type-code field is unrecognized; the
    /// field is carried for diagnosis.
    UnknownType(Vec<char>),
    /// No row match at all; the span is dropped.
    NoMatch,
}

/// Classifies one row span, keeping the material for a diagnostic.
pub fn classify_row_chars(t: &Vec<char>) -> (r: RowOutcome)
    ensures
        match r {
            RowOutcome::Parsed(b, o) => row_result(t@) == Some((b, o)) && row_scan(t@, 0) is Some
                && (row_prog(t@) matches Some(p) && bachelor_of(p) is Some) && (row_code(t@)
                matches Some(c) && module_type_of(c) is Some),
            RowOutcome::Ignored => row_scan(t@, 0) is Some && (row_prog(t@) matches Some(p)
                && bachelor_of(p) is None),
            RowOutcome::UnknownType(c) => row_scan(t@, 0) is Some && (row_prog(t@) matches Some(p)
                && bachelor_of(p) is Some) && row_code(t@) == Some(c@) && module_type_of(c@)
                is None,
            RowOutcome::NoMatch => row_scan(t@, 0) is None,
        },
{
    match find_row(t) {
        None => RowOutcome::NoMatch,
        Some((i, h)) => {
            let tlen = t.len();
            proof {
                assert(h.e + 1 + h.plen + 1 <= tlen);
            }
            let pe = h.e + 1 + h.plen;
            let prog = sub_chars(t, h.e + 1, pe);
            match Bachelor::from_chars(&prog) {
                None => {
                    proof {
                        assert(row_prog(t@) == Some(prog@));
                    }
                    RowOutcome::Ignored
                },
                Some(b) => {
                    let code = sub_chars(t, pe + 1, h.m);
                    proof {
                        assert(row_prog(t@) == Some(prog@));
                        assert(row_code(t@) == Some(code@));
                    }
                    match ModuleType::from_chars(&code) {
                        None => RowOutcome::UnknownType(code),
                        Some(ty) => {
                            let pf = to_chars("Pflicht");
                            let ma = to_chars("Mandatory");
                            let obligatory = matches_at(t, &pf, h.m + 1) || matches_at(
                                t,
                                &ma,
                                h.m + 1,
                            );
                            proof {
                                lemma_obl_scan_sep(t@, h.e + 1 + h.plen + 1, h.m as int);
                                lemma_obl_lit(t@, h.m as int);
                                assert(obligatory == obligatory_of(obl_lit_at(t@, h.m + 1)));
                            }
                            RowOutcome::Parsed(b, ModuleOffer { ty, obligatory })
                        },
                    }
                },
            }
        },
    }
}

/// Whatever position `obl_scan` reports is indeed a separator.
proof fn lemma_obl_scan_sep(s: Seq<char>, from: int, m: int)
    requires
        obl_scan(s, from) == Some(m),
    ensures
        obl_sep_at(s, m),
        from <= m,
    decreases s.len() - from,
{
    if 0 <= from < s.len() && !obl_sep_at(s, from) && s[from] != '\n' {
        lemma_obl_scan_sep(s, from + 1, m);
    }
}

/// The separator at `m` is followed by exactly one of the four
/// literals, so the mandatory words are captured exactly when one of
/// them stands there.
proof fn lemma_obl_lit(s: Seq<char>, m: int)
    requires
        obl_sep_at(s, m),
    ensures
        obligatory_of(obl_lit_at(s, m + 1)) == (match_at(s, "Pflicht"@, m + 1) || match_at(
            s,
            "Mandatory"@,
            m + 1,
        )),
{
    reveal_strlit("Pflicht");
    reveal_strlit("Wahl");
    reveal_strlit("Mandatory");
    reveal_strlit("Elective");
    if match_at(s, "Pflicht"@, m + 1) {
        assert(obl_lit_at(s, m + 1) == "Pflicht"@);
    } else if match_at(s, "Wahl"@, m + 1) {
        assert(s.subrange(m + 1, m + 1 + "Wahl"@.len())[0] == s[m + 1]);
        assert(s[m + 1] == 'W');
        assert(!match_at(s, "Mandatory"@, m + 1)) by {
            if match_at(s, "Mandatory"@, m + 1) {
                assert(s.subrange(m + 1, m + 1 + "Mandatory"@.len())[0] == s[m + 1]);
            }
        }
        assert(obl_lit_at(s, m + 1) == "Wahl"@);
        assert(!obligatory_of("Wahl"@));
    } else if match_at(s, "Mandatory"@, m + 1) {
        assert(obl_lit_at(s, m + 1) == "Mandatory"@);
    } else {
        assert(match_at(s, "Elective"@, m + 1));
        assert(obl_lit_at(s, m + 1) == "Elective"@);
        assert(!obligatory_of("Elective"@));
    }
}

/// Parses one row span, as `row_result` says: the resolved pair for
/// the leftmost row match, or nothing when the span does not match,
/// names an untracked program, or carries an unrecognized type code.
pub fn parse_row(row: &str) -> (r: Option<(Bachelor, ModuleOffer)>)
    ensures
        r == row_result(row@),
{
    let t = to_chars(row);
    parse_row_chars(&t)
}

/// `parse_row`, on text already split into characters.
pub fn parse_row_chars(t: &Vec<char>) -> (r: Option<(Bachelor, ModuleOffer)>)
    ensures
        r == row_result(t@),
{
    match classify_row_chars(t) {
        RowOutcome::Parsed(b, o) => Some((b, o)),
        RowOutcome::Ignored => {
            proof {
                assert(row_result(t@) is None);
            }
            None
        },
        RowOutcome::UnknownType(_) => {
            proof {
                assert(row_result(t@) is None);
            }
            None
        },
        RowOutcome::NoMatch => None,
    }
}

} // verus!

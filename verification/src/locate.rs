//! Table locator: finds the span of the classification table inside the
//! linearized document text. The table begins right after the first
//! occurrence of the header `" Major/Minor"` (or, failing that, of
//! `" Major"`) and ends right before the first later occurrence of
//! `"Modulverantwortlich"` (or, failing that, of `"Module Coordinator"`).

use vstd::prelude::*;

use crate::chars::{Span, match_at, has_match, has_match_from, find_from, to_chars};

verus! {

/// A document in which no classification table can be located.
#[derive(Clone, Copy, Debug, PartialEq, Eq, Structural)]
pub enum ParseModuleError {
    IncorrectDocument,
}

pub open spec fn start_marker_main() -> Seq<char> {
    " Major/Minor"@
}

pub open spec fn start_marker_alt() -> Seq<char> {
    " Major"@
}

pub open spec fn end_marker_main() -> Seq<char> {
    "Modulverantwortlich"@
}

pub open spec fn end_marker_alt() -> Seq<char> {
    "Module Coordinator"@
}

/// The needle's first occurrence in `h` at or after `from` is at `i`.
pub open spec fn first_match_from(h: Seq<char>, n: Seq<char>, from: int, i: int) -> bool {
    from <= i && match_at(h, n, i) && forall|j: int| from <= j < i ==> !match_at(h, n, j)
}

/// Some start marker occurs in `t`.
pub open spec fn has_table_start(t: Seq<char>) -> bool {
    has_match(t, start_marker_main()) || has_match(t, start_marker_alt())
}

/// `s` is the position just after the preferred start marker: the end of
/// the first `" Major/Minor"`, or of the first `" Major"` when the
/// longer marker is absent.
pub open spec fn table_start(t: Seq<char>, s: int) -> bool {
    (exists|i: int|
        first_match_from(t, start_marker_main(), 0, i) && s == i + start_marker_main().len()) || (
    !has_match(t, start_marker_main()) && exists|i: int|
        first_match_from(t, start_marker_alt(), 0, i) && s == i + start_marker_alt().len())
}

/// Some end marker occurs in `t` at or after `s`.
pub open spec fn has_table_end(t: Seq<char>, s: int) -> bool {
    has_match_from(t, end_marker_main(), s) || has_match_from(t, end_marker_alt(), s)
}

/// `e` is the position of the preferred end marker at or after `s`: the
/// first `"Modulverantwortlich"`, or the first `"Module Coordinator"`
/// when the German marker is absent after `s`.
pub open spec fn table_end(t: Seq<char>, s: int, e: int) -> bool {
    first_match_from(t, end_marker_main(), s, e) || (!has_match_from(t, end_marker_main(), s)
        && first_match_from(t, end_marker_alt(), s, e))
}

/// The document holds a locatable table: a start marker, and an end
/// marker after the table start.
pub open spec fn locate_ok(t: Seq<char>) -> bool {
    exists|s: int| table_start(t, s) && has_table_end(t, s)
}

proof fn lemma_first_match_unique(h: Seq<char>, n: Seq<char>, from: int, i1: int, i2: int)
    requires
        first_match_from(h, n, from, i1),
        first_match_from(h, n, from, i2),
    ensures
        i1 == i2,
{
}

/// The table start position is determined by the text alone.
pub proof fn lemma_table_start_unique(t: Seq<char>, s1: int, s2: int)
    requires
        table_start(t, s1),
        table_start(t, s2),
    ensures
        s1 == s2,
{
    if has_match(t, start_marker_main()) {
        let i1 = choose|i: int|
            first_match_from(t, start_marker_main(), 0, i) && s1 == i
                + start_marker_main().len();
        let i2 = choose|i: int|
            first_match_from(t, start_marker_main(), 0, i) && s2 == i
                + start_marker_main().len();
        lemma_first_match_unique(t, start_marker_main(), 0, i1, i2);
    } else {
        let i1 = choose|i: int|
            first_match_from(t, start_marker_alt(), 0, i) && s1 == i + start_marker_alt().len();
        let i2 = choose|i: int|
            first_match_from(t, start_marker_alt(), 0, i) && s2 == i + start_marker_alt().len();
        lemma_first_match_unique(t, start_marker_alt(), 0, i1, i2);
    }
}

/// Law: text holding neither start marker holds no locatable table, so
/// `locate_table` rejects it as an incorrect document.
pub proof fn lemma_no_start_marker_no_table(t: Seq<char>)
    requires
        !has_table_start(t),
    ensures
        !locate_ok(t),
{
}

/// Law: text whose table start is followed by no end marker holds no
/// locatable table, so `locate_table` rejects it as an incorrect
/// document.
pub proof fn lemma_no_end_marker_no_table(t: Seq<char>, s: int)
    requires
        table_start(t, s),
        !has_table_end(t, s),
    ensures
        !locate_ok(t),
{
    assert forall|s2: int| table_start(t, s2) implies s2 == s by {
        lemma_table_start_unique(t, s2, s);
    }
}

/// The table end position is determined by the text and the start.
pub proof fn lemma_table_end_unique(t: Seq<char>, s: int, e1: int, e2: int)
    requires
        table_end(t, s, e1),
        table_end(t, s, e2),
    ensures
        e1 == e2,
{
    if has_match_from(t, end_marker_main(), s) {
        lemma_first_match_unique(t, end_marker_main(), s, e1, e2);
    } else {
        lemma_first_match_unique(t, end_marker_alt(), s, e1, e2);
    }
}

/// The text of the located table: the substring between the start
/// markers' end and the end marker.
pub open spec fn the_table(t: Seq<char>) -> Seq<char>
    recommends
        locate_ok(t),
{
    let s = choose|s: int| table_start(t, s) && has_table_end(t, s);
    let e = choose|e: int| table_end(t, s, e);
    t.subrange(s, e)
}

/// Locates the classification table inside the document text.
/// Succeeds exactly when a start marker occurs and an end marker occurs
/// after the start; the returned span runs from just after the start
/// marker to just before the end marker.
pub fn locate_table(text: &str) -> (r: Result<Span, ParseModuleError>)
    ensures
        r is Ok <==> locate_ok(text@),
        r matches Ok(sp) ==> table_start(text@, sp.start as int) && table_end(
            text@,
            sp.start as int,
            sp.end as int,
        ) && sp.start <= sp.end <= text@.len(),
        r matches Err(e) ==> e == ParseModuleError::IncorrectDocument,
{
    let t = to_chars(text);
    locate_table_chars(&t)
}

/// `locate_table`, on text already split into characters.
pub fn locate_table_chars(t: &Vec<char>) -> (r: Result<Span, ParseModuleError>)
    ensures
        r is Ok <==> locate_ok(t@),
        r matches Ok(sp) ==> table_start(t@, sp.start as int) && table_end(
            t@,
            sp.start as int,
            sp.end as int,
        ) && sp.start <= sp.end <= t@.len(),
        r matches Err(e) ==> e == ParseModuleError::IncorrectDocument,
{
    let smm = to_chars(" Major/Minor");
    let sma = to_chars(" Major");
    let start: usize;
    match find_from(t, &smm, 0) {
        Some(i) => {
            let tlen = t.len();
            proof {
                assert(match_at(t@, smm@, i as int));
                assert(i + smm@.len() <= tlen);
            }
            start = i + smm.len();
            proof {
                assert(first_match_from(t@, start_marker_main(), 0, i as int));
                assert(table_start(t@, start as int));
            }
        },
        None => {
            match find_from(t, &sma, 0) {
                Some(i) => {
                    let tlen = t.len();
                    proof {
                        assert(match_at(t@, sma@, i as int));
                        assert(i + sma@.len() <= tlen);
                    }
                    start = i + sma.len();
                    proof {
                        assert(first_match_from(t@, start_marker_alt(), 0, i as int));
                        assert(table_start(t@, start as int));
                    }
                },
                None => {
                    proof {
                        assert(!has_table_start(t@));
                        assert(forall|s: int| !table_start(t@, s));
                        assert(!locate_ok(t@));
                    }
                    return Err(ParseModuleError::IncorrectDocument);
                },
            }
        },
    };
    let emm = to_chars("Modulverantwortlich");
    let ema = to_chars("Module Coordinator");
    let end: usize = match find_from(t, &emm, start) {
        Some(i) => i,
        None => {
            match find_from(t, &ema, start) {
                Some(i) => i,
                None => {
                    proof {
                        assert(!has_table_end(t@, start as int));
                        assert(forall|s: int|
                            table_start(t@, s) ==> s == start as int) by {
                            assert forall|s: int| table_start(t@, s) implies s
                                == start as int by {
                                lemma_table_start_unique(t@, s, start as int);
                            }
                        }
                        assert(!locate_ok(t@));
                    }
                    return Err(ParseModuleError::IncorrectDocument);
                },
            }
        },
    };
    Ok(Span { start, end })
}

} // verus!

//! Module assembly and the whole document pipeline: locate the table,
//! normalize and segment it, parse every row span, and build the
//! program-to-offer table with first-wins semantics, collecting a
//! diagnostic for every dropped row and duplicated program.

use vstd::prelude::*;

use crate::chars::{Span, to_chars, sub_chars};
use crate::locate::{ParseModuleError, locate_table_chars, table_start, table_end, has_table_end,
    locate_ok, the_table, lemma_table_start_unique, lemma_table_end_unique};
use crate::normalize::{normalize_spec, normalize};
use crate::parse::{RowOutcome, classify_row_chars, row_scan, row_prog, row_code, row_result};
use crate::row::{Bachelor, ModuleOffer, bachelor_of, module_type_of};
use crate::segment::{row_spans, spans_from, lemma_row_spans_valid};

verus! {

/// Some entry of `s` carries the program `b`.
pub open spec fn contains_program(s: Seq<(Bachelor, ModuleOffer)>, b: Bachelor) -> bool {
    exists|i: int| 0 <= i < s.len() && s[i].0 == b
}

/// No program occurs twice among the entries.
pub open spec fn unique_programs(s: Seq<(Bachelor, ModuleOffer)>) -> bool {
    forall|i: int, j: int| 0 <= i < j < s.len() ==> s[i].0 != s[j].0
}

/// The entries with every later repetition of a program dropped: the
/// first offer seen for a program wins.
pub open spec fn first_wins(s: Seq<(Bachelor, ModuleOffer)>) -> Seq<(Bachelor, ModuleOffer)>
    decreases s.len(),
{
    if s.len() == 0 {
        Seq::<(Bachelor, ModuleOffer)>::empty()
    } else {
        let rest = first_wins(s.drop_last());
        if contains_program(s.drop_last(), s.last().0) {
            rest
        } else {
            rest.push(s.last())
        }
    }
}

/// The programs of the dropped repetitions, one per dropped entry, in
/// order.
pub open spec fn dup_programs(s: Seq<(Bachelor, ModuleOffer)>) -> Seq<Bachelor>
    decreases s.len(),
{
    if s.len() == 0 {
        Seq::<Bachelor>::empty()
    } else {
        dup_programs(s.drop_last()) + if contains_program(s.drop_last(), s.last().0) {
            seq![s.last().0]
        } else {
            Seq::<Bachelor>::empty()
        }
    }
}

/// `first_wins` keeps exactly the programs of the input.
pub proof fn lemma_first_wins_programs(s: Seq<(Bachelor, ModuleOffer)>)
    ensures
        forall|b: Bachelor| contains_program(first_wins(s), b) == contains_program(s, b),
    decreases s.len(),
{
    if s.len() > 0 {
        lemma_first_wins_programs(s.drop_last());
        assert forall|b: Bachelor| contains_program(first_wins(s), b) == contains_program(
            s,
            b,
        ) by {
            if contains_program(s, b) {
                let i = choose|i: int| 0 <= i < s.len() && s[i].0 == b;
                if i < s.len() - 1 {
                    assert(s.drop_last()[i].0 == b);
                    assert(contains_program(s.drop_last(), b));
                    if contains_program(first_wins(s.drop_last()), b) {
                        let x = choose|x: int|
                            0 <= x < first_wins(s.drop_last()).len() && first_wins(
                                s.drop_last(),
                            )[x].0 == b;
                        if !contains_program(s.drop_last(), s.last().0) {
                            assert(first_wins(s)[x].0 == b);
                        } else {
                            assert(first_wins(s)[x].0 == b);
                        }
                    }
                } else {
                    if contains_program(s.drop_last(), b) {
                        let y = choose|y: int| 0 <= y < s.drop_last().len() && s.drop_last()[y].0 == b;
                        assert(contains_program(first_wins(s.drop_last()), b));
                        let x = choose|x: int|
                            0 <= x < first_wins(s.drop_last()).len() && first_wins(
                                s.drop_last(),
                            )[x].0 == b;
                        assert(first_wins(s)[x].0 == b);
                    } else {
                        assert(first_wins(s).last().0 == b);
                    }
                }
            }
            if contains_program(first_wins(s), b) {
                let x = choose|x: int|
                    0 <= x < first_wins(s).len() && first_wins(s)[x].0 == b;
                if contains_program(s.drop_last(), s.last().0) {
                    assert(contains_program(s.drop_last(), b));
                    let y = choose|y: int| 0 <= y < s.drop_last().len() && s.drop_last()[y].0 == b;
                    assert(s[y].0 == b);
                } else {
                    if x < first_wins(s).len() - 1 {
                        assert(first_wins(s.drop_last())[x].0 == b);
                        assert(contains_program(s.drop_last(), b));
                        let y = choose|y: int|
                            0 <= y < s.drop_last().len() && s.drop_last()[y].0 == b;
                        assert(s[y].0 == b);
                    } else {
                        assert(s.last().0 == b);
                    }
                }
            }
        }
    }
}

/// `first_wins` never keeps a program twice.
pub proof fn lemma_first_wins_unique(s: Seq<(Bachelor, ModuleOffer)>)
    ensures
        unique_programs(first_wins(s)),
    decreases s.len(),
{
    if s.len() > 0 {
        lemma_first_wins_unique(s.drop_last());
        lemma_first_wins_programs(s.drop_last());
    }
}

/// One academic module: its externally supplied name, and the offers
/// recovered from its table, at most one per program.
#[derive(Debug, PartialEq, Eq)]
pub struct Module {
    pub name: String,
    pub offers: Vec<(Bachelor, ModuleOffer)>,
}

impl Module {
    /// The offer recorded for program `b`, if any.
    pub fn get(&self, b: Bachelor) -> (r: Option<ModuleOffer>)
        ensures
            match r {
                Some(o) => exists|i: int|
                    0 <= i < self.offers@.len() && self.offers@[i] == (b, o),
                None => !contains_program(self.offers@, b),
            },
    {
        let mut i: usize = 0;
        while i < self.offers.len()
            invariant
                i <= self.offers@.len(),
                forall|j: int| 0 <= j < i ==> self.offers@[j].0 != b,
            decreases self.offers@.len() - i,
        {
            if self.offers[i].0 == b {
                return Some(self.offers[i].1);
            }
            i = i + 1;
        }
        None
    }
}

/// Is the program of some entry of `v` equal to `b`?
fn has_program(v: &Vec<(Bachelor, ModuleOffer)>, b: Bachelor) -> (r: bool)
    ensures
        r == contains_program(v@, b),
{
    let mut i: usize = 0;
    while i < v.len()
        invariant
            i <= v@.len(),
            forall|j: int| 0 <= j < i ==> v@[j].0 != b,
        decreases v@.len() - i,
    {
        if v[i].0 == b {
            return true;
        }
        i = i + 1;
    }
    false
}

/// Builds the module's program-to-offer table from the parsed rows.
/// When the same program occurs more than once, the first offer wins;
/// each program keeps at most one offer.
pub fn assemble(name: String, rows: &Vec<(Bachelor, ModuleOffer)>) -> (r: Module)
    ensures
        r.name@ == name@,
        r.offers@ == first_wins(rows@),
        unique_programs(r.offers@),
{
    let mut offers: Vec<(Bachelor, ModuleOffer)> = Vec::new();
    let mut k: usize = 0;
    while k < rows.len()
        invariant
            k <= rows@.len(),
            offers@ == first_wins(rows@.take(k as int)),
        decreases rows@.len() - k,
    {
        let ghost prefix = rows@.take(k as int);
        proof {
            assert(rows@.take(k + 1).drop_last() =~= prefix);
            assert(rows@.take(k + 1).last() == rows@[k as int]);
            lemma_first_wins_programs(prefix);
        }
        let pair = (rows[k].0, rows[k].1);
        if !has_program(&offers, pair.0) {
            offers.push(pair);
        }
        k = k + 1;
    }
    proof {
        assert(rows@.take(k as int) =~= rows@);
        lemma_first_wins_unique(rows@);
    }
    Module { name, offers }
}

/// The programs of the rows that `assemble` drops as repetitions, in
/// order, one per dropped row.
pub fn duplicate_programs(rows: &Vec<(Bachelor, ModuleOffer)>) -> (r: Vec<Bachelor>)
    ensures
        r@ == dup_programs(rows@),
{
    let mut r: Vec<Bachelor> = Vec::new();
    let mut k: usize = 0;
    while k < rows.len()
        invariant
            k <= rows@.len(),
            r@ == dup_programs(rows@.take(k as int)),
        decreases rows@.len() - k,
    {
        let ghost prefix = rows@.take(k as int);
        proof {
            assert(rows@.take(k + 1).drop_last() =~= prefix);
            assert(rows@.take(k + 1).last() == rows@[k as int]);
        }
        if program_in_prefix(rows, k, rows[k].0) {
            r.push(rows[k].0);
            proof {
                assert(r@ =~= dup_programs(rows@.take(k + 1)));
            }
        }
        k = k + 1;
    }
    proof {
        assert(rows@.take(k as int) =~= rows@);
    }
    r
}

/// Does the program `b` occur among the first `k` entries?
fn program_in_prefix(rows: &Vec<(Bachelor, ModuleOffer)>, k: usize, b: Bachelor) -> (r: bool)
    requires
        k <= rows@.len(),
    ensures
        r == contains_program(rows@.take(k as int), b),
{
    let mut j: usize = 0;
    while j < k
        invariant
            j <= k <= rows@.len(),
            forall|x: int| 0 <= x < j ==> rows@[x].0 != b,
        decreases k - j,
    {
        if rows[j].0 == b {
            proof {
                assert(rows@.take(k as int)[j as int].0 == b);
            }
            return true;
        }
        j = j + 1;
    }
    proof {
        assert(forall|x: int| 0 <= x < k ==> rows@.take(k as int)[x] == rows@[x]);
    }
    false
}

/// A diagnostic for one recovered-from failure: a row span that did
/// not match, a matched row with an unrecognized type code, or a row
/// repeating a program that already had an offer.
#[derive(Debug, PartialEq, Eq)]
pub enum Diagnostic {
    UnmatchedRow(Vec<char>),
    UnknownType(Vec<char>),
    DuplicateProgram(Bachelor),
}

/// The mathematical shape of a diagnostic.
pub enum DiagView {
    UnmatchedRow(Seq<char>),
    UnknownType(Seq<char>),
    DuplicateProgram(Bachelor),
}

impl View for Diagnostic {
    type V = DiagView;

    open spec fn view(&self) -> DiagView {
        match self {
            Diagnostic::UnmatchedRow(v) => DiagView::UnmatchedRow(v@),
            Diagnostic::UnknownType(v) => DiagView::UnknownType(v@),
            Diagnostic::DuplicateProgram(b) => DiagView::DuplicateProgram(*b),
        }
    }
}

/// The diagnostics one row span yields: its text when it does not
/// match, its type-code field when that is unrecognized, nothing
/// otherwise (in particular, nothing for an untracked program).
pub open spec fn diags_of_row(row: Seq<char>) -> Seq<DiagView> {
    if row_scan(row, 0) is None {
        seq![DiagView::UnmatchedRow(row)]
    } else {
        match row_prog(row) {
            Some(p) => match bachelor_of(p) {
                Some(_) => match row_code(row) {
                    Some(c) => if module_type_of(c) is None {
                        seq![DiagView::UnknownType(c)]
                    } else {
                        Seq::<DiagView>::empty()
                    },
                    None => Seq::<DiagView>::empty(),
                },
                None => Seq::<DiagView>::empty(),
            },
            None => Seq::<DiagView>::empty(),
        }
    }
}

/// The diagnostics of all row spans, in order.
pub open spec fn row_diags(n: Seq<char>, spans: Seq<(int, int)>) -> Seq<DiagView>
    decreases spans.len(),
{
    if spans.len() == 0 {
        Seq::<DiagView>::empty()
    } else {
        row_diags(n, spans.drop_last()) + diags_of_row(
            n.subrange(spans.last().0, spans.last().1),
        )
    }
}

/// The successfully parsed rows of all spans, in order.
pub open spec fn parsed_rows(n: Seq<char>, spans: Seq<(int, int)>) -> Seq<(Bachelor, ModuleOffer)>
    decreases spans.len(),
{
    if spans.len() == 0 {
        Seq::<(Bachelor, ModuleOffer)>::empty()
    } else {
        parsed_rows(n, spans.drop_last()) + match row_result(
            n.subrange(spans.last().0, spans.last().1),
        ) {
            Some(pr) => seq![pr],
            None => Seq::<(Bachelor, ModuleOffer)>::empty(),
        }
    }
}

/// The parse of one whole document: the module, and the diagnostics of
/// every dropped row and duplicated program.
#[derive(Debug)]
pub struct ModuleReport {
    pub module: Module,
    pub diagnostics: Vec<Diagnostic>,
}

/// Parses one document's text into a module. Fails exactly when no
/// table can be located; a row that cannot be parsed costs only that
/// row, never the document.
pub fn parse_module(name: String, text: &str) -> (r: Result<ModuleReport, ParseModuleError>)
    ensures
        r is Ok <==> locate_ok(text@),
        r matches Err(e) ==> e == ParseModuleError::IncorrectDocument,
        r matches Ok(rep) ==> ({
            let n = normalize_spec(the_table(text@));
            let spans = row_spans(n);
            rep.module.name@ == name@ && rep.module.offers@ == first_wins(parsed_rows(n, spans))
                && unique_programs(rep.module.offers@) && rep.diagnostics@.map(
                |_k: int, d: Diagnostic| d@,
            ) == row_diags(n, spans) + dup_programs(parsed_rows(n, spans)).map(
                |_k: int, b: Bachelor| DiagView::DuplicateProgram(b),
            )
        }),
{
    let t = to_chars(text);
    let sp = match locate_table_chars(&t) {
        Ok(sp) => sp,
        Err(e) => {
            return Err(e);
        },
    };
    let table = sub_chars(&t, sp.start, sp.end);
    proof {
        let s0 = choose|s: int| table_start(t@, s) && has_table_end(t@, s);
        assert(table_start(t@, sp.start as int) && has_table_end(t@, sp.start as int));
        lemma_table_start_unique(t@, s0, sp.start as int);
        let e0 = choose|e: int| table_end(t@, s0, e);
        lemma_table_end_unique(t@, s0, e0, sp.end as int);
        assert(table@ == the_table(text@));
    }
    let n = normalize(&table);
    let spans = spans_from(&n);
    let ghost gs = row_spans(n@);
    proof {
        lemma_row_spans_valid(n@);
    }
    let mut parsed: Vec<(Bachelor, ModuleOffer)> = Vec::new();
    let mut diags: Vec<Diagnostic> = Vec::new();
    let mut k: usize = 0;
    while k < spans.len()
        invariant
            k <= spans@.len(),
            spans@.map(|_x: int, q: Span| (q.start as int, q.end as int)) == gs,
            gs == row_spans(n@),
            forall|x: int|
                0 <= x < gs.len() ==> 0 <= #[trigger] gs[x].0 && gs[x].0 <= gs[x].1 && gs[x].1
                    <= n@.len(),
            parsed@ == parsed_rows(n@, gs.take(k as int)),
            diags@.map(|_x: int, d: Diagnostic| d@) == row_diags(n@, gs.take(k as int)),
        decreases spans@.len() - k,
    {
        let ghost prefix = gs.take(k as int);
        proof {
            assert(gs.take(k + 1).drop_last() =~= prefix);
            assert(gs.take(k + 1).last() == gs[k as int]);
            assert(spans@.map(|_x: int, q: Span| (q.start as int, q.end as int))[k as int]
                == gs[k as int]);
        }
        let spk = spans[k];
        proof {
            assert((spk.start as int, spk.end as int) == gs[k as int]);
            assert(spk.start as int == gs[k as int].0 && spk.end as int == gs[k as int].1);
        }
        let row = sub_chars(&n, spk.start, spk.end);
        let ghost grow = n@.subrange(gs[k as int].0, gs[k as int].1);
        let ghost dbefore = diags@.map(|_x: int, d: Diagnostic| d@);
        match classify_row_chars(&row) {
            RowOutcome::Parsed(b, o) => {
                parsed.push((b, o));
                proof {
                    assert(diags_of_row(grow) =~= Seq::<DiagView>::empty());
                    assert(parsed@ =~= parsed_rows(n@, gs.take(k + 1)));
                    assert(row_diags(n@, gs.take(k + 1)) =~= dbefore);
                }
            },
            RowOutcome::Ignored => {
                proof {
                    assert(row_result(grow) is None);
                    assert(diags_of_row(grow) =~= Seq::<DiagView>::empty());
                    assert(parsed@ =~= parsed_rows(n@, gs.take(k + 1)));
                    assert(row_diags(n@, gs.take(k + 1)) =~= dbefore);
                }
            },
            RowOutcome::UnknownType(c) => {
                proof {
                    assert(row_result(grow) is None);
                    assert(diags_of_row(grow) =~= seq![DiagView::UnknownType(c@)]);
                    assert(parsed@ =~= parsed_rows(n@, gs.take(k + 1)));
                }
                diags.push(Diagnostic::UnknownType(c));
                proof {
                    assert(diags@.map(|_x: int, d: Diagnostic| d@) =~= dbefore + seq![
                        DiagView::UnknownType(c@),
                    ]);
                    assert(diags@.map(|_x: int, d: Diagnostic| d@) =~= row_diags(
                        n@,
                        gs.take(k + 1),
                    ));
                }
            },
            RowOutcome::NoMatch => {
                proof {
                    assert(row_result(grow) is None);
                    assert(diags_of_row(grow) =~= seq![DiagView::UnmatchedRow(grow)]);
                    assert(parsed@ =~= parsed_rows(n@, gs.take(k + 1)));
                }
                diags.push(Diagnostic::UnmatchedRow(row));
                proof {
                    assert(diags@.map(|_x: int, d: Diagnostic| d@) =~= dbefore + seq![
                        DiagView::UnmatchedRow(grow),
                    ]);
                    assert(diags@.map(|_x: int, d: Diagnostic| d@) =~= row_diags(
                        n@,
                        gs.take(k + 1),
                    ));
                }
            },
        }
        k = k + 1;
    }
    proof {
        assert(gs.take(k as int) =~= gs);
    }
    let module = assemble(name, &parsed);
    let dupd = duplicate_programs(&parsed);
    let ghost base = diags@.map(|_x: int, d: Diagnostic| d@);
    let ghost dupviews = dup_programs(parsed@).map(|_k: int, b: Bachelor|
        DiagView::DuplicateProgram(b));
    let mut x: usize = 0;
    while x < dupd.len()
        invariant
            x <= dupd@.len(),
            dupd@ == dup_programs(parsed@),
            dupviews == dup_programs(parsed@).map(|_k: int, b: Bachelor|
                DiagView::DuplicateProgram(b)),
            diags@.map(|_x2: int, d: Diagnostic| d@) == base + dupviews.take(x as int),
        decreases dupd@.len() - x,
    {
        let ghost before = diags@.map(|_x2: int, d: Diagnostic| d@);
        diags.push(Diagnostic::DuplicateProgram(dupd[x]));
        proof {
            assert(dupviews[x as int] == DiagView::DuplicateProgram(dupd@[x as int]));
            assert(diags@.map(|_x2: int, d: Diagnostic| d@) =~= before + seq![
                DiagView::DuplicateProgram(dupd@[x as int]),
            ]);
            assert(diags@.map(|_x2: int, d: Diagnostic| d@) =~= base + dupviews.take(x + 1));
        }
        x = x + 1;
    }
    proof {
        assert(dupviews.take(x as int) =~= dupviews);
    }
    Ok(ModuleReport { module, diagnostics: diags })
}

} // verus!

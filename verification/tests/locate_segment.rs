use module_extractor::{locate_table, segment, to_chars, ParseModuleError, Span};
use module_extractor::normalize::normalize;

fn chars_of(s: &str) -> Vec<char> {
    s.chars().collect()
}

fn string_of(v: &[char]) -> String {
    v.iter().collect()
}

#[test]
fn locate_fails_without_start_marker() {
    let r = locate_table("just some prose about modules, Modulverantwortlich included");
    assert_eq!(r, Err(ParseModuleError::IncorrectDocument));
}

#[test]
fn locate_fails_on_empty_text() {
    assert_eq!(locate_table(""), Err(ParseModuleError::IncorrectDocument));
}

#[test]
fn locate_fails_without_end_marker() {
    let r = locate_table("prelude Major/Minor I Informatik K Pflicht and nothing closes it");
    assert_eq!(r, Err(ParseModuleError::IncorrectDocument));
}

#[test]
fn locate_finds_main_markers() {
    let text = "prelude Major/Minor I Informatik K Pflicht Modulverantwortlich trailer";
    let start = text.find(" Major/Minor").unwrap() + " Major/Minor".len();
    let end = text.find("Modulverantwortlich").unwrap();
    assert_eq!(locate_table(text), Ok(Span { start, end }));
}

#[test]
fn locate_falls_back_to_short_start_marker() {
    let text = "prelude Major I Informatik K Pflicht Module Coordinator trailer";
    let start = text.find(" Major").unwrap() + " Major".len();
    let end = text.find("Module Coordinator").unwrap();
    assert_eq!(locate_table(text), Ok(Span { start, end }));
}

#[test]
fn locate_prefers_long_marker_even_when_short_comes_first() {
    let text = "x Major y Major/Minor table Modulverantwortlich";
    let start = text.find(" Major/Minor").unwrap() + " Major/Minor".len();
    let end = text.find("Modulverantwortlich").unwrap();
    assert_eq!(locate_table(text), Ok(Span { start, end }));
}

#[test]
fn locate_prefers_german_end_marker() {
    let text = " Major/Minor rows Module Coordinator then Modulverantwortlich";
    let start = " Major/Minor".len();
    let end = text.find("Modulverantwortlich").unwrap();
    assert_eq!(locate_table(text), Ok(Span { start, end }));
}

#[test]
fn segment_of_empty_text_has_no_spans() {
    let spans = segment("");
    assert_eq!(spans.len(), 0);
}

#[test]
fn segment_without_boundaries_has_no_spans() {
    let spans = segment("nothing that looks like a row code");
    assert_eq!(spans.len(), 0);
}

#[test]
fn segment_splits_at_code_tokens() {
    let text = " I Informatik K Pflicht TA Wirtschaftsinformatik Z Wahl";
    let spans = segment(text);
    assert_eq!(spans.len(), 2);
    assert_eq!(spans[0], Span { start: 0, end: 23 });
    assert_eq!(spans[1], Span { start: 23, end: text.chars().count() });
}

#[test]
fn segment_ignores_code_letters_inside_words() {
    // The W of Wirtschaftsinformatik follows a space but is closed by a
    // word character, so it opens no row.
    let spans = segment("x Wirtschaftsinformatik x");
    assert_eq!(spans.len(), 0);
}

#[test]
fn segment_drops_text_before_first_boundary() {
    let text = "header text I Informatik K Pflicht";
    let spans = segment(text);
    assert_eq!(spans.len(), 1);
    assert_eq!(spans[0].start, text.find(" I ").unwrap());
    assert_eq!(spans[0].end, text.chars().count());
}

#[test]
fn normalize_replaces_line_breaks_and_double_spaces() {
    let out = normalize(&chars_of("a\nb  c"));
    assert_eq!(string_of(&out), "a b c");
}

#[test]
fn normalize_collapses_once_not_recursively() {
    let out = normalize(&chars_of("a   b"));
    assert_eq!(string_of(&out), "a  b");
    let out2 = normalize(&chars_of("a    b"));
    assert_eq!(string_of(&out2), "a  b");
}

#[test]
fn normalize_is_fixpoint_without_double_spaces() {
    let once = normalize(&chars_of("row one\nrow  two"));
    let twice = normalize(&once);
    assert_eq!(once, twice);
}

#[test]
fn segment_of_normalized_text_yields_same_spans() {
    let text = " I Informatik\nK Pflicht TA Wirtschaftsinformatik  Z Wahl";
    let normalized = string_of(&normalize(&chars_of(text)));
    assert_eq!(segment(text), segment(&normalized));
}

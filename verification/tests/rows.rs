use module_extractor::{parse_row, Bachelor, ModuleOffer, ModuleType};
use module_extractor::parse::{classify_row_chars, RowOutcome};
use module_extractor::html::{extract_title, is_module_link};

fn chars_of(s: &str) -> Vec<char> {
    s.chars().collect()
}

#[test]
fn core_row_parses_as_obligatory() {
    assert_eq!(
        parse_row("I Informatik K Pflicht"),
        Some((Bachelor::ComputerScience, ModuleOffer { ty: ModuleType::Core, obligatory: true }))
    );
}

#[test]
fn combined_code_row_parses_as_major_elective() {
    assert_eq!(
        parse_row("W Wirtschaftsinformatik M, E Wahl"),
        Some((Bachelor::Economics, ModuleOffer { ty: ModuleType::Major, obligatory: false }))
    );
}

#[test]
fn swapped_combined_code_also_means_major() {
    assert_eq!(
        parse_row("W Wirtschaftsinformatik E, M Mandatory"),
        Some((Bachelor::Economics, ModuleOffer { ty: ModuleType::Major, obligatory: true }))
    );
}

#[test]
fn english_literals_parse_too() {
    assert_eq!(
        parse_row("AI Artificial Intelligence & Machine Learning P Elective"),
        Some((
            Bachelor::ArtificialIntelligence,
            ModuleOffer { ty: ModuleType::Project, obligatory: false }
        ))
    );
    assert_eq!(
        parse_row("ICS Information & Cyber Security Z Mandatory"),
        Some((Bachelor::CyberSecurity, ModuleOffer { ty: ModuleType::Misc, obligatory: true }))
    );
}

#[test]
fn unknown_program_row_is_skipped() {
    assert_eq!(parse_row("DK Klingonisch K Pflicht"), None);
}

#[test]
fn unknown_type_code_row_is_skipped() {
    assert_eq!(parse_row("I Informatik Q Pflicht"), None);
}

#[test]
fn untracked_program_row_is_skipped_silently() {
    assert_eq!(parse_row("DI Digital Ideation K Pflicht"), None);
    let outcome = classify_row_chars(&chars_of("DI Digital Ideation K Pflicht"));
    assert_eq!(outcome, RowOutcome::Ignored);
}

#[test]
fn unmatched_row_is_reported_as_such() {
    let outcome = classify_row_chars(&chars_of("nothing like a row"));
    assert_eq!(outcome, RowOutcome::NoMatch);
}

#[test]
fn unknown_type_code_is_carried_in_the_outcome() {
    let outcome = classify_row_chars(&chars_of("I Informatik Q Pflicht"));
    assert_eq!(outcome, RowOutcome::UnknownType(chars_of("Q")));
}

#[test]
fn type_code_field_is_shortest_possible() {
    // The lazily matched field stops at the first obligatory/elective
    // literal, so the code field is exactly "K".
    let outcome = classify_row_chars(&chars_of("M1 Informatik K Wahl Pflicht"));
    assert_eq!(
        outcome,
        RowOutcome::Parsed(
            Bachelor::ComputerScience,
            ModuleOffer { ty: ModuleType::Core, obligatory: false }
        )
    );
}

#[test]
fn row_match_may_start_after_leading_noise() {
    assert_eq!(
        parse_row("some noise M1 Informatik E Pflicht"),
        Some((
            Bachelor::ComputerScience,
            ModuleOffer { ty: ModuleType::Extension, obligatory: true }
        ))
    );
}

#[test]
fn bachelor_from_str_resolves_tracked_programs() {
    assert_eq!(Bachelor::from_str("Informatik"), Some(Bachelor::ComputerScience));
    assert_eq!(Bachelor::from_str("Wirtschaftsinformatik"), Some(Bachelor::Economics));
    assert_eq!(
        Bachelor::from_str("Information & Cyber Security"),
        Some(Bachelor::CyberSecurity)
    );
    assert_eq!(
        Bachelor::from_str("Artificial Intelligence & Machine Learning"),
        Some(Bachelor::ArtificialIntelligence)
    );
}

#[test]
fn bachelor_from_str_drops_untracked_and_unknown_programs() {
    assert_eq!(Bachelor::from_str("Digital Ideation"), None);
    assert_eq!(Bachelor::from_str("Wirtschaftsingenieurwesen"), None);
    assert_eq!(Bachelor::from_str("Elektrotechnik und Informationstechnologie"), None);
    assert_eq!(Bachelor::from_str("Mobility , Data Science & Economics"), None);
    assert_eq!(Bachelor::from_str("Digital Construction"), None);
    assert_eq!(Bachelor::from_str("Digital Engineering"), None);
    assert_eq!(Bachelor::from_str("Klingonisch"), None);
}

#[test]
fn module_type_from_str_resolves_all_codes() {
    assert_eq!(ModuleType::from_str("K"), Some(ModuleType::Core));
    assert_eq!(ModuleType::from_str("P"), Some(ModuleType::Project));
    assert_eq!(ModuleType::from_str("E"), Some(ModuleType::Extension));
    assert_eq!(ModuleType::from_str("M"), Some(ModuleType::Major));
    assert_eq!(ModuleType::from_str("M, E"), Some(ModuleType::Major));
    assert_eq!(ModuleType::from_str("E, M"), Some(ModuleType::Major));
    assert_eq!(ModuleType::from_str("Z"), Some(ModuleType::Misc));
    assert_eq!(ModuleType::from_str("Q"), None);
    assert_eq!(ModuleType::from_str(""), None);
}

#[test]
fn urls_name_each_catalogue_page() {
    assert_eq!(
        Bachelor::ComputerScience.url(),
        "https://mycampus.hslu.ch/de-ch/info-i/infos-und-dokumente/bachelor/bachelor-allgemein/moduleinschreibung/modulbeschriebe/modulbeschriebe-studiengang-informatik/"
    );
    assert!(Bachelor::CyberSecurity.url().contains("information-and-cyber-security"));
    assert!(Bachelor::Economics.url().contains("wirtschaftsinformatik"));
    assert!(Bachelor::ArtificialIntelligence.url().contains("artificial-intelligence"));
}

#[test]
fn module_links_are_recognized_by_path() {
    assert!(is_module_link("/de-ch/x/modulbeschriebe/abc.pdf"));
    assert!(!is_module_link("/de-ch/x/other/abc.pdf"));
}

#[test]
fn titles_come_from_the_first_nonempty_group() {
    assert_eq!(extract_title("Download (Modul AI) PDF"), Some(chars_of("Modul AI")));
    assert_eq!(extract_title("nothing here"), None);
    assert_eq!(extract_title("empty () then (real)"), Some(chars_of("real")));
    assert_eq!(extract_title("(a)(b)"), Some(chars_of("a")));
    assert_eq!(extract_title("(unclosed"), None);
}

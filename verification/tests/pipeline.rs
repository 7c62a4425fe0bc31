use module_extractor::{assemble, parse_module, Bachelor, Diagnostic, ModuleOffer, ModuleType,
    ParseModuleError};

fn chars_of(s: &str) -> Vec<char> {
    s.chars().collect()
}

#[test]
fn document_with_two_rows_yields_two_offers() {
    let text = " Major/Minor I Informatik K Pflicht TA Wirtschaftsinformatik Z Wahl \
                Modulverantwortlich trailing prose";
    let rep = parse_module(String::from("Synthetic"), text).unwrap();
    assert_eq!(rep.module.name, "Synthetic");
    assert_eq!(rep.module.offers.len(), 2);
    assert_eq!(
        rep.module.get(Bachelor::ComputerScience),
        Some(ModuleOffer { ty: ModuleType::Core, obligatory: true })
    );
    assert_eq!(
        rep.module.get(Bachelor::Economics),
        Some(ModuleOffer { ty: ModuleType::Misc, obligatory: false })
    );
    assert_eq!(rep.module.get(Bachelor::CyberSecurity), None);
    assert_eq!(rep.module.get(Bachelor::ArtificialIntelligence), None);
    assert_eq!(rep.diagnostics.len(), 0);
}

#[test]
fn document_without_table_fails_as_a_whole() {
    let r = parse_module(String::from("M"), "no table markers anywhere");
    assert!(matches!(r, Err(ParseModuleError::IncorrectDocument)));
}

#[test]
fn unknown_program_costs_only_its_row() {
    let text = " Major/Minor DK Klingonisch K Pflicht I Informatik K Pflicht \
                Modulverantwortlich";
    let rep = parse_module(String::from("M"), text).unwrap();
    assert_eq!(rep.module.offers.len(), 1);
    assert_eq!(
        rep.module.get(Bachelor::ComputerScience),
        Some(ModuleOffer { ty: ModuleType::Core, obligatory: true })
    );
    assert_eq!(rep.diagnostics, vec![Diagnostic::UnmatchedRow(chars_of(" DK Klingonisch K Pflicht"))]);
}

#[test]
fn unknown_type_code_costs_only_its_row() {
    let text = " Major/Minor I Informatik Q Pflicht TA Wirtschaftsinformatik Z Wahl \
                Modulverantwortlich";
    let rep = parse_module(String::from("M"), text).unwrap();
    assert_eq!(rep.module.offers.len(), 1);
    assert_eq!(
        rep.module.get(Bachelor::Economics),
        Some(ModuleOffer { ty: ModuleType::Misc, obligatory: false })
    );
    assert_eq!(rep.diagnostics, vec![Diagnostic::UnknownType(chars_of("Q"))]);
}

#[test]
fn duplicated_program_keeps_first_offer_and_is_reported() {
    let text = " Major/Minor I Informatik K Pflicht I Informatik E Wahl Modulverantwortlich";
    let rep = parse_module(String::from("M"), text).unwrap();
    assert_eq!(rep.module.offers.len(), 1);
    assert_eq!(
        rep.module.get(Bachelor::ComputerScience),
        Some(ModuleOffer { ty: ModuleType::Core, obligatory: true })
    );
    assert_eq!(rep.diagnostics, vec![Diagnostic::DuplicateProgram(Bachelor::ComputerScience)]);
}

#[test]
fn line_breaks_inside_the_table_are_tolerated() {
    let text = " Major/Minor I Informatik\nK  Pflicht TA Wirtschaftsinformatik\n\nZ Wahl Modulverantwortlich";
    let rep = parse_module(String::from("M"), text).unwrap();
    assert_eq!(rep.module.offers.len(), 2);
    assert_eq!(
        rep.module.get(Bachelor::ComputerScience),
        Some(ModuleOffer { ty: ModuleType::Core, obligatory: true })
    );
    assert_eq!(
        rep.module.get(Bachelor::Economics),
        Some(ModuleOffer { ty: ModuleType::Misc, obligatory: false })
    );
}

#[test]
fn empty_table_body_yields_empty_module() {
    let text = " Major/Minor Modulverantwortlich";
    let rep = parse_module(String::from("M"), text).unwrap();
    assert_eq!(rep.module.offers.len(), 0);
    assert_eq!(rep.diagnostics.len(), 0);
}

#[test]
fn assemble_keeps_first_offer_per_program() {
    let rows = vec![
        (Bachelor::ComputerScience, ModuleOffer { ty: ModuleType::Core, obligatory: true }),
        (Bachelor::Economics, ModuleOffer { ty: ModuleType::Major, obligatory: false }),
        (Bachelor::ComputerScience, ModuleOffer { ty: ModuleType::Misc, obligatory: false }),
    ];
    let module = assemble(String::from("M"), &rows);
    assert_eq!(module.offers.len(), 2);
    assert_eq!(
        module.get(Bachelor::ComputerScience),
        Some(ModuleOffer { ty: ModuleType::Core, obligatory: true })
    );
    assert_eq!(
        module.get(Bachelor::Economics),
        Some(ModuleOffer { ty: ModuleType::Major, obligatory: false })
    );
}

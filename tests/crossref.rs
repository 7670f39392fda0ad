use terminology::codes::{extract_code_system, NamasteCode};

fn namaste_with_code(code: &str) -> NamasteCode {
    NamasteCode {
        sr_no: 1,
        namc_id: 1,
        namc_code: code.to_string(),
        namc_term: "Jvara".to_string(),
        namc_term_diacritical: "jvara".to_string(),
        namc_term_devanagari: "ज्वर".to_string(),
        short_definition: None,
        long_definition: None,
        ontology_branches: None,
        embedding: None,
    }
}

#[test]
fn parses_parenthesized_cross_reference() {
    let (own, other) = namaste_with_code("AAA-1 (SR-11)").parse_codes();
    assert_eq!(own, "AAA-1");
    assert_eq!(other, Some("SR-11".to_string()));
}

#[test]
fn parses_dash_cross_reference() {
    let (own, other) = namaste_with_code("AAA-1 - SR-11").parse_codes();
    assert_eq!(own, "AAA-1");
    assert_eq!(other, Some("SR-11".to_string()));
}

#[test]
fn parses_plain_code() {
    let (own, other) = namaste_with_code("AAA-1").parse_codes();
    assert_eq!(own, "AAA-1");
    assert_eq!(other, None);
}

#[test]
fn two_open_brackets_give_no_cross_reference() {
    let (own, other) = namaste_with_code("A (B) (C)").parse_codes();
    assert_eq!(own, "A (B) (C)");
    assert_eq!(other, None);
}

#[test]
fn closing_brackets_are_dropped_from_cross_reference() {
    let (own, other) = namaste_with_code("  X1  ( Y2 )) ").parse_codes();
    assert_eq!(own, "X1");
    assert_eq!(other, Some("Y2".to_string()));
}

#[test]
fn brackets_in_any_order_split_at_the_open_bracket() {
    let (own, other) = namaste_with_code("P ) - (Q").parse_codes();
    assert_eq!(own, "P ) -");
    assert_eq!(other, Some("Q".to_string()));
}

#[test]
fn dash_split_into_three_gives_no_cross_reference() {
    let (own, other) = namaste_with_code("A - B - C").parse_codes();
    assert_eq!(own, "A - B - C");
    assert_eq!(other, None);
}

#[test]
fn extracts_bracketed_code_system() {
    assert_eq!(extract_code_system("Fever (ICD-11)"), Some("ICD-11".to_string()));
    assert_eq!(extract_code_system("a)b(c"), None);
    assert_eq!(extract_code_system("no brackets"), None);
    assert_eq!(extract_code_system("()"), Some(String::new()));
}

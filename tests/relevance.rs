use terminology::relevance::{classify, match_kind_of, relevance_of, relevance_score, MatchType};

#[test]
fn classifies_in_priority_order() {
    assert_eq!(classify("Fever", "R50 Fever"), MatchType::ExactTitle);
    assert_eq!(classify("fev", "R50 Fever"), MatchType::StartsWith);
    assert_eq!(classify("acute", "N17 Kidney acute failure"), MatchType::WordStart);
    assert_eq!(classify("ever", "R50 Fever"), MatchType::Contains);
    assert_eq!(classify("xyz", "R50 Fever"), MatchType::Related);
}

#[test]
fn classification_on_lowered_text() {
    assert_eq!(match_kind_of("fever", "r50 fever", "fever"), MatchType::ExactTitle);
    assert_eq!(match_kind_of("Fever", "r50 fever", "fever"), MatchType::Related);
    assert_eq!(match_kind_of("kid acute", "n17 kidney acute", "kidney acute"), MatchType::Related);
}

#[test]
fn entry_without_space_is_its_own_title() {
    assert_eq!(classify("fever", "FEVER"), MatchType::ExactTitle);
}

#[test]
fn score_formula_exact_values() {
    assert_eq!(relevance_score("fever", "r50 fever", "R50 Fever", MatchType::ExactTitle), 16_611_111);
    assert_eq!(relevance_score("fever", "r50 fever", "R50 Fever", MatchType::Related), 7_611_111);
    assert_eq!(relevance_of("FEVER", "R50 Fever", MatchType::ExactTitle), 16_611_111);
}

#[test]
fn exact_title_outscores_related() {
    let exact = relevance_of("pain", "M79 Pain in limb", MatchType::ExactTitle);
    let related = relevance_of("pain", "M79 Pain in limb", MatchType::Related);
    assert!(exact > related);
}

#[test]
fn score_never_falls_below_floor() {
    let e = "LONGCODE unspecified not elsewhere classified other specified without mention with mention sequela";
    assert_eq!(relevance_of("zzz", e, MatchType::Related), 100_000);
    assert_eq!(relevance_of("zzz", e, MatchType::ExactTitle), 100_000);
}

#[test]
fn empty_entry_skips_specificity() {
    assert_eq!(relevance_score("abc", "", "", MatchType::Contains), 3_000_000);
}

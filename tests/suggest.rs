use terminology::codes::{IcdCode, IcdCodec, NamasteCode, NamasteCodec};
use terminology::suggest::{
    candidate_cap, decimal_text, index_records, index_words, merge_suggestions, normalized_term, rank_entries,
    suggestion_plan, unique_entries, word_range, AutocompleteRequest, BulkSuggestion,
    FormattedSuggestion, SuggestError, SuggestionCategory,
};

fn request(query: &str, category: Option<&str>, limit: Option<usize>) -> AutocompleteRequest {
    AutocompleteRequest { query: query.to_string(), category: category.map(|c| c.to_string()), limit }
}

fn formatted(id: &str, score: i128) -> FormattedSuggestion {
    FormattedSuggestion {
        id: id.to_string(),
        code: id.to_string(),
        title: id.to_string(),
        definition: None,
        source: "ICD-11".to_string(),
        system: "Biomedicine".to_string(),
        relevance_score: score,
    }
}

#[test]
fn plan_trims_query_and_applies_defaults() {
    let plan = suggestion_plan(&request("  Fev  ", None, None)).ok().unwrap();
    assert_eq!(plan.query, "Fev");
    assert_eq!(plan.limit, 3);
    assert_eq!(plan.categories, vec![SuggestionCategory::Icd, SuggestionCategory::Namaste]);
    assert_eq!(plan.category, "all");
}

#[test]
fn plan_selects_one_category() {
    let plan = suggestion_plan(&request("fev", Some("namaste"), Some(7))).ok().unwrap();
    assert_eq!(plan.categories, vec![SuggestionCategory::Namaste]);
    assert_eq!(plan.limit, 7);
    let other = suggestion_plan(&request("fev", Some("both"), None)).ok().unwrap();
    assert_eq!(other.categories, vec![SuggestionCategory::Icd, SuggestionCategory::Namaste]);
    assert_eq!(other.category, "both");
}

#[test]
fn blank_query_is_refused() {
    assert!(matches!(suggestion_plan(&request("   ", None, None)), Err(SuggestError::InvalidArgument)));
    assert!(matches!(suggestion_plan(&request("", None, None)), Err(SuggestError::InvalidArgument)));
}

#[test]
fn candidate_cap_triples_limit() {
    assert_eq!(candidate_cap(5), 15);
    assert_eq!(candidate_cap(0), 0);
    assert_eq!(candidate_cap(usize::MAX), usize::MAX);
}

#[test]
fn word_range_bounds_prefix() {
    let (lo, hi) = word_range("fev");
    assert_eq!(lo, "[fev");
    assert_eq!(hi, "[fev~");
}

#[test]
fn unique_entries_keep_first_occurrence() {
    let got = unique_entries(vec![
        Some("b".to_string()),
        None,
        Some("a".to_string()),
        Some("b".to_string()),
        Some("a".to_string()),
    ]);
    assert_eq!(got, vec!["b".to_string(), "a".to_string()]);
}

#[test]
fn ranks_entries_by_relevance() {
    let entries = vec![
        ("z99 unrelated".to_string(), None),
        ("a01 typhoid fever".to_string(), Some("pay-b".to_string())),
        ("r50 fever".to_string(), Some("pay-a".to_string())),
    ];
    let got = rank_entries("  FEV ", entries, 2);
    assert_eq!(got.len(), 2);
    assert_eq!(got[0].text, "r50 fever");
    assert_eq!(got[0].payload, Some("pay-a".to_string()));
    assert_eq!(got[0].score, 14_166_666);
    assert_eq!(got[1].text, "a01 typhoid fever");
    assert_eq!(got[1].score, 10_852_941);
}

#[test]
fn merge_keeps_best_across_categories() {
    let got = merge_suggestions(
        vec![formatted("a", 5), formatted("b", 1)],
        vec![formatted("c", 3), formatted("d", 9)],
        3,
    );
    let ids: Vec<&str> = got.iter().map(|s| s.id.as_str()).collect();
    assert_eq!(ids, vec!["d", "a", "c"]);
}

#[test]
fn index_words_split_filter_and_strip() {
    let words = index_words("acute kidney,  injury a. b");
    assert_eq!(words, vec!["acute", "kidney", "injury", "a"]);
    assert!(index_words("   ").is_empty());
}

#[test]
fn index_records_normalise_text() {
    let recs = index_records(&vec![BulkSuggestion {
        category: "icd".to_string(),
        text: "  Acute Fever!  ".to_string(),
        score: 1_000_000,
        payload: Some("{}".to_string()),
    }]);
    assert_eq!(recs.len(), 1);
    assert_eq!(recs[0].category, "icd");
    assert_eq!(recs[0].text, "acute fever!");
    assert_eq!(recs[0].words, vec!["acute", "fever"]);
    assert_eq!(recs[0].payload, Some("{}".to_string()));
}

#[test]
fn decimal_text_writes_integers() {
    assert_eq!(decimal_text(0), "0");
    assert_eq!(decimal_text(-42), "-42");
    assert_eq!(decimal_text(1907), "1907");
    assert_eq!(decimal_text(i32::MIN), "-2147483648");
}

#[test]
fn suggestion_entries_for_both_catalogs() {
    let icd = IcdCode {
        id: "x".to_string(),
        code: "J18".to_string(),
        title: "Pneumonia".to_string(),
        definition: None,
        parent: None,
        browser_url: None,
        coding_note: None,
        synonyms: None,
        exclusions: None,
        inclusions: None,
        is_leaf: None,
        embedding: None,
    };
    let s = IcdCodec::new().suggestion(&icd, None);
    assert_eq!(s.category, "icd");
    assert_eq!(s.text, "J18 Pneumonia");
    assert_eq!(s.score, 1_000_000);
    let nam = NamasteCode {
        sr_no: 3,
        namc_id: 17,
        namc_code: "AAA-1".to_string(),
        namc_term: "Jvara".to_string(),
        namc_term_diacritical: String::new(),
        namc_term_devanagari: String::new(),
        short_definition: None,
        long_definition: None,
        ontology_branches: None,
        embedding: None,
    };
    let t = NamasteCodec::new().suggestion(&nam, Some("p".to_string()));
    assert_eq!(t.category, "namaste");
    assert_eq!(t.text, "17 Jvara");
    assert_eq!(t.payload, Some("p".to_string()));
}

#[test]
fn lookup_term_is_trimmed_and_lowered() {
    assert_eq!(normalized_term("  Acute FEVER "), "acute fever");
    assert_eq!(normalized_term(""), "");
}

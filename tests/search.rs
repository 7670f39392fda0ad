use terminology::catalog::{Catalog, EntryId, SearchType};
use terminology::codes::{IcdCode, IcdCodec, IcdDiscipline, IcdFilter, Language, NamasteCode};
use terminology::search::{
    keyword_search, method_from_lowered, needs_embedding, terminology_search, EmbeddingOutcome,
    FallbackReason, SearchError, SearchMethod,
};
use terminology::similarity::Embedding;

fn icd(id: &str, code: &str, title: &str, definition: Option<&str>, v: Option<&[i16]>) -> IcdCode {
    IcdCode {
        id: id.to_string(),
        code: code.to_string(),
        title: title.to_string(),
        definition: definition.map(|d| d.to_string()),
        parent: None,
        browser_url: None,
        coding_note: None,
        synonyms: None,
        exclusions: None,
        inclusions: None,
        is_leaf: None,
        embedding: v.map(|x| Embedding::new(x.to_vec()).unwrap()),
    }
}

fn nam(id: i32, code: &str, term: &str, v: Option<&[i16]>) -> NamasteCode {
    NamasteCode {
        sr_no: id,
        namc_id: id,
        namc_code: code.to_string(),
        namc_term: term.to_string(),
        namc_term_diacritical: String::new(),
        namc_term_devanagari: String::new(),
        short_definition: None,
        long_definition: None,
        ontology_branches: None,
        embedding: v.map(|x| Embedding::new(x.to_vec()).unwrap()),
    }
}

fn ready(v: &[i16]) -> EmbeddingOutcome {
    EmbeddingOutcome::Ready(Embedding::new(v.to_vec()).unwrap())
}

#[test]
fn keyword_search_end_to_end() {
    let icds = vec![icd("i1", "J18", "Pneumonia", Some("lung infection"), None)];
    let nams = vec![nam(1, "AAA-1 (J18)", "Fever disorder", None)];
    let resp = terminology_search(
        &"fever".to_string(),
        Some(10),
        None,
        SearchMethod::Regex,
        Language::Both,
        EmbeddingOutcome::NotConfigured,
        &icds,
        &nams,
    )
    .ok()
    .unwrap();
    assert_eq!(resp.results.len(), 1);
    let r = &resp.results[0];
    assert_eq!(r.source, Catalog::TraditionalMedicine);
    assert_eq!(r.search_type, SearchType::Regex);
    assert_eq!(r.icd_code, None);
    assert_eq!(r.nam_code, Some("AAA-1".to_string()));
    assert_eq!(r.cross_reference, Some("J18".to_string()));
    assert_eq!(r.title, "Fever disorder");
    assert!(matches!(r.id, EntryId::Number(1)));
    assert_eq!(r.similarity, None);
    assert_eq!(resp.search_type, SearchType::Regex);
    assert_eq!(resp.fallback_reason, None);
    assert_eq!((resp.namaste_count, resp.icd_count), (1, 0));
}

#[test]
fn keyword_results_respect_limit() {
    let icds = vec![
        icd("i1", "A00", "Cholera fever", None, None),
        icd("i2", "A01", "Typhoid fever", None, None),
        icd("i3", "A02", "Other", Some("FEVER of unknown origin"), None),
    ];
    let nams = vec![nam(1, "N-1", "Fever", None), nam(2, "N-2", "Cough", None)];
    let resp = terminology_search(
        &"Fever".to_string(),
        Some(2),
        None,
        SearchMethod::Regex,
        Language::English,
        EmbeddingOutcome::NotConfigured,
        &icds,
        &nams,
    )
    .ok()
    .unwrap();
    assert_eq!(resp.results.len(), 2);
    assert!(resp.results.iter().all(|r| r.search_type == SearchType::Regex));
    assert_eq!(resp.results[0].source, Catalog::TraditionalMedicine);
    assert_eq!(resp.results[1].code, "A00");
    assert_eq!(resp.results[1].icd_code, Some("A00".to_string()));
    assert_eq!((resp.namaste_count, resp.icd_count), (1, 2));
    let all = keyword_search(&"fever".to_string(), 10, Language::Both, &icds, &nams);
    assert_eq!(all.0.len(), 4);
}

#[test]
fn forced_semantic_without_credential_is_unavailable() {
    let icds = vec![icd("i1", "J18", "Pneumonia", None, Some(&[1, 0]))];
    let r = terminology_search(
        &"pneumonia".to_string(),
        None,
        None,
        SearchMethod::Semantic,
        Language::Both,
        EmbeddingOutcome::NotConfigured,
        &icds,
        &vec![],
    );
    assert!(matches!(r, Err(SearchError::DependencyUnavailable)));
}

#[test]
fn forced_semantic_with_failed_embedding_is_an_error() {
    let r = terminology_search(
        &"pneumonia".to_string(),
        None,
        None,
        SearchMethod::Semantic,
        Language::Both,
        EmbeddingOutcome::Failed("boom".to_string()),
        &vec![],
        &vec![],
    );
    match r {
        Err(SearchError::DependencyError(m)) => assert_eq!(m, "boom"),
        _ => panic!("expected a dependency error"),
    }
}

#[test]
fn auto_with_no_semantic_results_falls_back() {
    let icds = vec![icd("i1", "J18", "Pneumonia", None, Some(&[0, 1]))];
    let nams = vec![nam(1, "AAA-1", "Pneumonia like", None)];
    let resp = terminology_search(
        &"pneumonia".to_string(),
        None,
        None,
        SearchMethod::Auto,
        Language::Both,
        ready(&[1, 0]),
        &icds,
        &nams,
    )
    .ok()
    .unwrap();
    assert_eq!(resp.fallback_reason, Some(FallbackReason::NoSemanticResults));
    assert_eq!(resp.search_type, SearchType::Regex);
    assert_eq!(resp.results.len(), 2);
    assert_eq!(resp.threshold, Some(700_000));
    assert_eq!(FallbackReason::NoSemanticResults.label(), "no_semantic_results");
}

#[test]
fn auto_falls_back_without_credential_or_on_failure() {
    let icds = vec![icd("i1", "J18", "Pneumonia", None, Some(&[1, 0]))];
    let a = terminology_search(
        &"pneu".to_string(),
        None,
        None,
        SearchMethod::Auto,
        Language::Both,
        EmbeddingOutcome::NotConfigured,
        &icds,
        &vec![],
    )
    .ok()
    .unwrap();
    assert_eq!(a.fallback_reason, Some(FallbackReason::NoEmbeddingKey));
    assert_eq!(a.results.len(), 1);
    let b = terminology_search(
        &"pneu".to_string(),
        None,
        None,
        SearchMethod::Auto,
        Language::Both,
        EmbeddingOutcome::Failed("timeout".to_string()),
        &icds,
        &vec![],
    )
    .ok()
    .unwrap();
    assert_eq!(b.fallback_reason, Some(FallbackReason::EmbeddingFailed));
    assert_eq!(b.search_type, SearchType::Regex);
}

#[test]
fn auto_answers_semantically_when_something_is_similar() {
    let icds = vec![
        icd("i1", "J18", "Pneumonia", None, Some(&[1, 0])),
        icd("i2", "J20", "Bronchitis", None, Some(&[0, 1])),
    ];
    let nams = vec![nam(1, "AAA-1 (J18)", "Kasa", Some(&[1, 1])), nam(2, "AAA-2", "Other", Some(&[1, 0, 0]))];
    let resp = terminology_search(
        &"lung".to_string(),
        Some(5),
        Some(500_000),
        SearchMethod::Auto,
        Language::Both,
        ready(&[1, 0]),
        &icds,
        &nams,
    )
    .ok()
    .unwrap();
    assert_eq!(resp.search_type, SearchType::Semantic);
    assert_eq!(resp.fallback_reason, None);
    assert_eq!(resp.results.len(), 2);
    assert_eq!(resp.results[0].source, Catalog::Biomedical);
    assert_eq!(resp.results[0].similarity, Some(1_000_000));
    assert_eq!(resp.results[0].search_type, SearchType::Semantic);
    assert_eq!(resp.results[1].source, Catalog::TraditionalMedicine);
    assert_eq!(resp.results[1].similarity, Some(707_106));
    assert_eq!(resp.results[1].cross_reference, Some("J18".to_string()));
    assert_eq!((resp.namaste_count, resp.icd_count), (1, 1));
}

#[test]
fn semantic_results_are_truncated_globally() {
    let icds = vec![
        icd("i1", "J18", "Pneumonia", None, Some(&[1, 0])),
        icd("i2", "J20", "Bronchitis", None, Some(&[3, 1])),
    ];
    let nams = vec![nam(1, "AAA-1", "Kasa", Some(&[1, 1]))];
    let resp = terminology_search(
        &"lung".to_string(),
        Some(1),
        Some(0),
        SearchMethod::Semantic,
        Language::Both,
        ready(&[1, 0]),
        &icds,
        &nams,
    )
    .ok()
    .unwrap();
    assert_eq!(resp.results.len(), 1);
    assert_eq!(resp.results[0].code, "J18");
}

#[test]
fn blank_query_is_invalid() {
    let r = terminology_search(
        &"   ".to_string(),
        None,
        None,
        SearchMethod::Regex,
        Language::Both,
        EmbeddingOutcome::NotConfigured,
        &vec![],
        &vec![],
    );
    assert!(matches!(r, Err(SearchError::InvalidArgument)));
    assert!(matches!(needs_embedding("", SearchMethod::Auto), Err(SearchError::InvalidArgument)));
}

#[test]
fn embedding_needed_unless_keyword_mode() {
    assert!(matches!(needs_embedding("fever", SearchMethod::Auto), Ok(true)));
    assert!(matches!(needs_embedding("fever", SearchMethod::Semantic), Ok(true)));
    assert!(matches!(needs_embedding("fever", SearchMethod::Regex), Ok(false)));
}

#[test]
fn method_names_are_case_insensitive() {
    assert_eq!(SearchMethod::from_str("VECTOR"), SearchMethod::Semantic);
    assert_eq!(SearchMethod::from_str("Keyword"), SearchMethod::Regex);
    assert_eq!(SearchMethod::from_str("hybrid"), SearchMethod::Auto);
    assert_eq!(SearchMethod::from_str("nonsense"), SearchMethod::Auto);
    assert_eq!(method_from_lowered("embedding"), SearchMethod::Semantic);
    assert_eq!(method_from_lowered("TEXT"), SearchMethod::Auto);
}

#[test]
fn icd_filter_by_discipline_and_parent() {
    let mut a = icd("http://id/icd/release/11/mms/123", "A", "Alpha", None, None);
    a.parent = Some("X01".to_string());
    let b = icd("http://id/icd/release/11/tm/9", "B", "Beta", None, None);
    let codes = vec![a, b];
    let codec = IcdCodec::new();
    let mms = IcdFilter { discipline: Some(IcdDiscipline::Biomedicine), search_term: None, parent_filter: None };
    assert_eq!(codec.search_codes(&mms, &codes, None), vec![0]);
    let tm = IcdFilter { discipline: Some(IcdDiscipline::TM2), search_term: None, parent_filter: None };
    assert_eq!(codec.search_codes(&tm, &codes, None), vec![1]);
    let parent = IcdFilter { discipline: None, search_term: None, parent_filter: Some("X01".to_string()) };
    assert_eq!(codec.search_codes(&parent, &codes, None), vec![0]);
    let all = IcdFilter { discipline: None, search_term: None, parent_filter: None };
    assert_eq!(codec.search_codes(&all, &codes, Some(1)), vec![0]);
    assert_eq!(IcdDiscipline::TM2.label(), "TM2");
}

#[test]
fn display_name_follows_language() {
    let mut n = nam(4, "X-1", "Jvara", None);
    n.namc_term_diacritical = "jvara".to_string();
    n.namc_term_devanagari = "ज्वर".to_string();
    let codec = terminology::codes::NamasteCodec::new();
    assert_eq!(codec.display(&n, Language::English), "jvara");
    assert_eq!(codec.display(&n, Language::Hindi), "ज्वर");
    assert_eq!(codec.display(&n, Language::Both), "jvara / ज्वर");
    let r = codec.format_code(&n, Language::Both, SearchType::Regex, None);
    assert_eq!(r.code_system, "NAMASTE");
}

#[test]
fn branch_listings_of_the_biomedical_catalog() {
    let codes = vec![
        icd("http://id/icd/release/11/MMS/1", "A", "Alpha", None, None),
        icd("http://id/icd/release/11/tm/2", "B", "Beta", None, None),
        icd("http://id/icd/release/11/mms/3", "C", "Gamma", None, None),
    ];
    let codec = IcdCodec::new();
    assert_eq!(codec.get_biomedicine_codes(&codes, None), vec![0, 2]);
    assert_eq!(codec.get_biomedicine_codes(&codes, Some(1)), vec![0]);
    assert_eq!(codec.get_tm2_codes(&codes, None), vec![1]);
    assert_eq!(codec.get_all_codes(&codes, Some(2)), vec![0, 1]);
    let nams = vec![nam(1, "X", "x", None), nam(2, "Y", "y", None)];
    assert_eq!(terminology::codes::NamasteCodec::new().get_all_codes(&nams, None), vec![0, 1]);
}

#[test]
fn semantic_ties_keep_scan_order() {
    let icds = vec![icd("i1", "J18", "Pneumonia", None, Some(&[1, 0]))];
    let nams = vec![nam(1, "AAA-1", "Kasa", Some(&[2, 0])), nam(2, "AAA-2", "Svasa", Some(&[5, 0]))];
    let resp = terminology_search(
        &"lung".to_string(),
        None,
        None,
        SearchMethod::Semantic,
        Language::Both,
        ready(&[1, 0]),
        &icds,
        &nams,
    )
    .ok()
    .unwrap();
    let codes: Vec<&str> = resp.results.iter().map(|r| r.code.as_str()).collect();
    assert_eq!(codes, vec!["AAA-1", "AAA-2", "J18"]);
    assert!(resp.results.iter().all(|r| r.similarity == Some(1_000_000)));
}

use terminology::backfill::{
    apply_pass, plan_entry, settle, BackfillStep, BackfillSummary, EmbeddingSource, ProcessResult,
    WriteOutcome,
};
use terminology::codes::{IcdCode, NamasteCode};
use terminology::similarity::Embedding;

fn entry(title: &str, definition: Option<&str>, code: &str, v: Option<&[i16]>) -> IcdCode {
    IcdCode {
        id: code.to_string(),
        code: code.to_string(),
        title: title.to_string(),
        definition: definition.map(|d| d.to_string()),
        parent: None,
        browser_url: None,
        coding_note: None,
        synonyms: None,
        exclusions: None,
        inclusions: None,
        is_leaf: None,
        embedding: v.map(|x| Embedding::new(x.to_vec()).unwrap()),
    }
}

fn vector(v: &[i16]) -> Option<Embedding> {
    Embedding::new(v.to_vec())
}

#[test]
fn plan_skips_embedded_and_blank_records() {
    assert!(matches!(plan_entry(&entry("Pneumonia", None, "J18", Some(&[1]))), BackfillStep::AlreadyEmbedded));
    assert!(matches!(plan_entry(&entry("", None, "", None)), BackfillStep::Skip));
    match plan_entry(&entry("Pneumonia", Some("lung infection"), "J18", Some(&[]))) {
        BackfillStep::Embed(t) => assert_eq!(t, "Pneumonia lung infection J18"),
        _ => panic!("expected an embedding step"),
    }
}

#[test]
fn embedding_text_of_traditional_record() {
    let n = NamasteCode {
        sr_no: 1,
        namc_id: 1,
        namc_code: "AAA-1".to_string(),
        namc_term: "Jvara".to_string(),
        namc_term_diacritical: String::new(),
        namc_term_devanagari: "ज्वर".to_string(),
        short_definition: None,
        long_definition: None,
        ontology_branches: None,
        embedding: None,
    };
    assert_eq!(n.embedding_text(), "Jvara ज्वर AAA-1");
}

#[test]
fn settle_maps_outcomes() {
    assert_eq!(settle(false, WriteOutcome::Modified), ProcessResult::Failed);
    assert_eq!(settle(true, WriteOutcome::Modified), ProcessResult::Success);
    assert_eq!(settle(true, WriteOutcome::NoMatch), ProcessResult::AlreadyExists);
    assert_eq!(settle(true, WriteOutcome::Error), ProcessResult::Failed);
}

#[test]
fn summary_counts_and_combines() {
    let mut s = BackfillSummary::new();
    s.record(ProcessResult::Success);
    s.record(ProcessResult::Success);
    s.record(ProcessResult::Failed);
    s.record(ProcessResult::Skipped);
    s.record(ProcessResult::AlreadyExists);
    assert_eq!((s.processed, s.skipped, s.already_embedded, s.failed), (2, 1, 1, 1));
    assert_eq!(s.total(), 5);
    let both = s.combine(&s);
    assert_eq!(both.total(), 10);
}

#[test]
fn failures_are_isolated_per_record() {
    let mut cat = vec![
        entry("A", None, "A1", None),
        entry("B", None, "B1", None),
        entry("", None, "", None),
        entry("C", None, "C1", Some(&[5, 5])),
    ];
    let s = apply_pass(&mut cat, vec![vector(&[1, 2]), None, None, None]);
    assert_eq!((s.processed, s.skipped, s.already_embedded, s.failed), (1, 1, 1, 1));
    assert_eq!(cat[0].embedding.as_ref().unwrap().values, vec![1, 2]);
    assert!(cat[1].embedding.is_none());
    assert_eq!(cat[3].embedding.as_ref().unwrap().values, vec![5, 5]);
}

#[test]
fn second_run_embeds_nothing_more() {
    let mut cat = vec![entry("A", None, "A1", None), entry("B", Some("b"), "B1", Some(&[3]))];
    let first = apply_pass(&mut cat, vec![vector(&[1, 2]), vector(&[9, 9])]);
    assert_eq!((first.processed, first.already_embedded), (1, 1));
    let second = apply_pass(&mut cat, vec![vector(&[7, 7]), vector(&[8, 8])]);
    assert_eq!(second.processed, 0);
    assert_eq!(second.already_embedded, 2);
    assert_eq!(cat[0].embedding.as_ref().unwrap().values, vec![1, 2]);
}

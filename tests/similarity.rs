use terminology::codes::IcdCode;
use terminology::similarity::{cosine_similarity, dot_product, int_root, similarity_search, Embedding, UNIT};

fn emb(v: &[i16]) -> Embedding {
    Embedding::new(v.to_vec()).unwrap()
}

fn icd_with_vector(id: &str, v: Option<&[i16]>) -> IcdCode {
    IcdCode {
        id: id.to_string(),
        code: String::new(),
        title: String::new(),
        definition: None,
        parent: None,
        browser_url: None,
        coding_note: None,
        synonyms: None,
        exclusions: None,
        inclusions: None,
        is_leaf: None,
        embedding: v.map(emb),
    }
}

#[test]
fn vector_is_fully_similar_to_itself() {
    assert_eq!(cosine_similarity(&emb(&[3, 4]), &emb(&[3, 4])), UNIT as i128);
    assert_eq!(cosine_similarity(&emb(&[-7, 0, 2]), &emb(&[-7, 0, 2])), 1_000_000);
}

#[test]
fn mismatched_dimensions_have_zero_similarity() {
    assert_eq!(cosine_similarity(&emb(&[1, 2]), &emb(&[1, 2, 3])), 0);
}

#[test]
fn zero_vector_has_zero_similarity() {
    assert_eq!(cosine_similarity(&emb(&[0, 0]), &emb(&[1, 2])), 0);
}

#[test]
fn similarity_values_in_millionths() {
    assert_eq!(cosine_similarity(&emb(&[1, 1]), &emb(&[1, 0])), 707_106);
    assert_eq!(cosine_similarity(&emb(&[1, 0]), &emb(&[-1, 0])), -1_000_000);
    assert_eq!(cosine_similarity(&emb(&[1, 0]), &emb(&[0, 1])), 0);
    assert_eq!(cosine_similarity(&emb(&[3, 4]), &emb(&[4, 3])), 960_000);
}

#[test]
fn dot_product_and_root() {
    assert_eq!(dot_product(&vec![1, -2, 3], &vec![4, 5, 6]), 12);
    assert_eq!(int_root(0), 0);
    assert_eq!(int_root(15), 3);
    assert_eq!(int_root(16), 4);
}

#[test]
fn embedding_dimension_is_bounded() {
    assert!(Embedding::new(vec![0; 4096]).is_some());
    assert!(Embedding::new(vec![0; 4097]).is_none());
}

#[test]
fn search_filters_ranks_and_truncates() {
    let items = vec![
        icd_with_vector("a", Some(&[1, 1])),
        icd_with_vector("b", Some(&[1, 0])),
        icd_with_vector("c", None),
        icd_with_vector("d", Some(&[1, 0, 0])),
        icd_with_vector("e", Some(&[0, 1])),
        icd_with_vector("f", Some(&[])),
    ];
    let q = emb(&[1, 0]);
    let hits = similarity_search(&q, 10, 500_000, &items);
    assert_eq!(hits.len(), 2);
    assert_eq!((hits[0].index, hits[0].similarity), (1, 1_000_000));
    assert_eq!((hits[1].index, hits[1].similarity), (0, 707_106));
    let top_one = similarity_search(&q, 1, 500_000, &items);
    assert_eq!(top_one.len(), 1);
    assert_eq!(top_one[0].index, 1);
    let strict = similarity_search(&q, 10, 800_000, &items);
    assert_eq!(strict.len(), 1);
    let everything = similarity_search(&q, 10, 0, &items);
    assert_eq!(everything.len(), 3);
}

// Resolution of free-text clinical queries against a biomedical classification and a
// traditional-medicine terminology.
//
// - `search`: the hybrid resolver (keyword, semantic, and automatic with fallback).
// - `similarity`: fixed-point embeddings, exact cosine similarity, nearest-neighbour scan.
// - `relevance` and `suggest`: the autocomplete scorer, ranking and index tokenising.
// - `catalog` and `codes`: the two catalogs' records, filters and result shaping.
// - `backfill`: the decisions and bookkeeping of the bulk embedding job.
// - `ranking`: highest-first ordering and top-k selection shared by the above.
// - `status`: connection state reports.
// - `text`: character-sequence predicates and string building.
use vstd::prelude::*;

pub mod backfill;
pub mod catalog;
pub mod codes;
pub mod ranking;
pub mod relevance;
pub mod search;
pub mod similarity;
pub mod status;
pub mod suggest;
pub mod text;

verus! {

} // verus!

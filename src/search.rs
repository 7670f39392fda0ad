use vstd::prelude::*;
use crate::catalog::{
    SearchResult, SearchType, cap, icd_term_positions, lemma_icd_positions_bound,
    lemma_icd_term_filter, lemma_namaste_positions_bound, lemma_namaste_term_filter,
    namaste_term_positions, presents_icd, presents_namaste,
};
use crate::codes::{IcdCode, IcdCodec, IcdFilter, Language, NamasteCode, NamasteCodec, NamasteFilter};
use crate::ranking::{Ranked, lemma_top_members, top, top_k};
use crate::similarity::{Embedding, Hit, lemma_scan_indices, scan, scan_hits};
use crate::text::{chars_of, lower_of, lowercase, same, trim_bounds, trimmed};

verus! {

/// The number of results when the caller gives no limit.
pub const DEFAULT_LIMIT: usize = 10;

/// The similarity cut-off (millionths) when the caller gives none.
pub const DEFAULT_THRESHOLD: i64 = 700_000;

/// The search method a caller asks for.
#[derive(Clone, Copy, Debug, PartialEq, Eq, Structural)]
pub enum SearchMethod {
    Semantic,
    Regex,
    Auto,
}

/// The method named by lower-cased `s`; any name not known means `Auto`.
pub open spec fn method_named(s: Seq<char>) -> SearchMethod {
    if s == "semantic"@ || s == "vector"@ || s == "embedding"@ {
        SearchMethod::Semantic
    } else if s == "regex"@ || s == "text"@ || s == "keyword"@ {
        SearchMethod::Regex
    } else {
        SearchMethod::Auto
    }
}

fn is_word(s: &Vec<char>, w: &str) -> (r: bool)
    ensures
        r == (s@ == w@),
{
    let wc = chars_of(w);
    same(s, &wc)
}

/// The method named by an already lower-cased name.
pub fn method_from_lowered(s: &str) -> (r: SearchMethod)
    ensures
        r == method_named(s@),
{
    let c = chars_of(s);
    if is_word(&c, "semantic") || is_word(&c, "vector") || is_word(&c, "embedding") {
        SearchMethod::Semantic
    } else if is_word(&c, "regex") || is_word(&c, "text") || is_word(&c, "keyword") {
        SearchMethod::Regex
    } else {
        SearchMethod::Auto
    }
}

impl SearchMethod {
    /// The method named by `s`, compared in lower case.
    pub fn from_str(s: &str) -> (r: SearchMethod)
        ensures
            r == method_named(lower_of(s@)),
    {
        let l = lowercase(s);
        method_from_lowered(l.as_str())
    }
}

/// Why a search in automatic mode fell back to keyword search.
#[derive(Clone, Copy, Debug, PartialEq, Eq, Structural)]
pub enum FallbackReason {
    NoEmbeddingKey,
    EmbeddingFailed,
    NoSemanticResults,
}

impl FallbackReason {
    /// The reason's name in responses.
    pub fn label(&self) -> (r: &'static str)
        ensures
            r@ == (match self {
                FallbackReason::NoEmbeddingKey => "no_gemini_key"@,
                FallbackReason::EmbeddingFailed => "embedding_generation_failed"@,
                FallbackReason::NoSemanticResults => "no_semantic_results"@,
            }),
    {
        match self {
            FallbackReason::NoEmbeddingKey => "no_gemini_key",
            FallbackReason::EmbeddingFailed => "embedding_generation_failed",
            FallbackReason::NoSemanticResults => "no_semantic_results",
        }
    }
}

/// What became of the request for the query's embedding.
pub enum EmbeddingOutcome {
    /// No embedding credential is configured, so nothing was asked.
    NotConfigured,
    /// The embedding service was asked and failed.
    Failed(String),
    Ready(Embedding),
}

/// Why a search gave no answer.
pub enum SearchError {
    InvalidArgument,
    DependencyUnavailable,
    DependencyError(String),
}

/// The answer to a search.
pub struct SearchResponse {
    pub results: Vec<SearchResult>,
    pub namaste_count: usize,
    pub icd_count: usize,
    pub search_type: SearchType,
    pub method_requested: SearchMethod,
    pub fallback_reason: Option<FallbackReason>,
    /// The similarity cut-off, reported where a semantic scan was made.
    pub threshold: Option<i64>,
}

/// Where a result comes from: a position in one of the two catalogs.
#[derive(Clone, Copy, Debug, PartialEq, Eq, Structural)]
pub enum Origin {
    Traditional(usize),
    Biomedical(usize),
}

/// A semantic hit of either catalog.
#[derive(Clone, Copy, Debug, PartialEq, Eq, Structural)]
pub struct Tagged {
    pub origin: Origin,
    pub similarity: i128,
}

impl Ranked for Tagged {
    open spec fn rank(&self) -> int {
        self.similarity as int
    }

    fn rank_of(&self) -> (r: i128) {
        self.similarity
    }
}

/// `r` presents the record at origin `o`.
pub open spec fn presents(
    r: SearchResult,
    o: Origin,
    icd: Seq<IcdCode>,
    nam: Seq<NamasteCode>,
    language: Language,
    st: SearchType,
    sim: Option<i128>,
) -> bool {
    match o {
        Origin::Traditional(i) => i < nam.len() && presents_namaste(r, nam[i as int], language, st, sim),
        Origin::Biomedical(i) => i < icd.len() && presents_icd(r, icd[i as int], st, sim),
    }
}

/// Positions of the traditional-medicine catalog as origins.
pub open spec fn as_traditional(p: Seq<usize>) -> Seq<Origin> {
    p.map_values(|i: usize| Origin::Traditional(i))
}

/// Positions of the biomedical catalog as origins.
pub open spec fn as_biomedical(p: Seq<usize>) -> Seq<Origin> {
    p.map_values(|i: usize| Origin::Biomedical(i))
}

/// The origins of a keyword search for lower-cased `term`: the traditional-medicine
/// matches, then the biomedical ones, each catalog cut to `limit`, and the whole cut
/// to `limit`.
pub open spec fn keyword_origins(term: Seq<char>, limit: int, icd: Seq<IcdCode>, nam: Seq<NamasteCode>) -> Seq<Origin> {
    cap(
        as_traditional(cap(namaste_term_positions(term, nam, nam.len() as int), limit)) + as_biomedical(
            cap(icd_term_positions(term, icd, icd.len() as int), limit),
        ),
        limit,
    )
}

/// `results` with the two counts are what a keyword search for `term` gives.
pub open spec fn keyword_found(
    term: Seq<char>,
    limit: int,
    icd: Seq<IcdCode>,
    nam: Seq<NamasteCode>,
    language: Language,
    results: Seq<SearchResult>,
    nam_count: int,
    icd_count: int,
) -> bool {
    let origins = keyword_origins(lower_of(term), limit, icd, nam);
    &&& results.len() == origins.len()
    &&& forall|k: int|
        0 <= k < results.len() ==> presents(
            #[trigger] results[k],
            origins[k],
            icd,
            nam,
            language,
            SearchType::Regex,
            None,
        )
    &&& nam_count == cap(namaste_term_positions(lower_of(term), nam, nam.len() as int), limit).len()
    &&& icd_count == cap(icd_term_positions(lower_of(term), icd, icd.len() as int), limit).len()
}

/// Hits of the traditional-medicine catalog, tagged with their origin.
pub open spec fn tag_traditional(h: Seq<Hit>) -> Seq<Tagged> {
    h.map_values(|x: Hit| Tagged { origin: Origin::Traditional(x.index), similarity: x.similarity })
}

/// Hits of the biomedical catalog, tagged with their origin.
pub open spec fn tag_biomedical(h: Seq<Hit>) -> Seq<Tagged> {
    h.map_values(|x: Hit| Tagged { origin: Origin::Biomedical(x.index), similarity: x.similarity })
}

/// `results` with the two counts are what a semantic search for embedding `q` gives:
/// the top `limit` hits of each catalog, merged, and the top `limit` of the merge
/// (ties in the merge keep traditional-medicine hits first, each catalog in its order).
pub open spec fn semantic_found(
    q: Seq<i16>,
    threshold: int,
    limit: int,
    icd: Seq<IcdCode>,
    nam: Seq<NamasteCode>,
    language: Language,
    results: Seq<SearchResult>,
    nam_count: int,
    icd_count: int,
) -> bool {
    let hn = top_k(scan(q, nam, threshold, nam.len() as int), limit);
    let hi = top_k(scan(q, icd, threshold, icd.len() as int), limit);
    let merged = top_k(tag_traditional(hn) + tag_biomedical(hi), limit);
    &&& nam_count == hn.len()
    &&& icd_count == hi.len()
    &&& results.len() == merged.len()
    &&& forall|k: int|
        0 <= k < results.len() ==> presents(
            #[trigger] results[k],
            merged[k].origin,
            icd,
            nam,
            language,
            SearchType::Semantic,
            Some(merged[k].similarity),
        )
}

fn present(
    o: Origin,
    icd: &Vec<IcdCode>,
    nam: &Vec<NamasteCode>,
    language: Language,
    st: SearchType,
    sim: Option<i128>,
) -> (r: SearchResult)
    requires
        match o {
            Origin::Traditional(i) => i < nam@.len(),
            Origin::Biomedical(i) => i < icd@.len(),
        },
    ensures
        presents(r, o, icd@, nam@, language, st, sim),
{
    match o {
        Origin::Traditional(i) => NamasteCodec::new().format_code(&nam[i], language, st, sim),
        Origin::Biomedical(i) => IcdCodec::new().format_code(&icd[i], st, sim),
    }
}

/// Keyword search of both catalogs for `term`, compared in lower case.
pub fn keyword_search(
    term: &String,
    limit: usize,
    language: Language,
    icd: &Vec<IcdCode>,
    nam: &Vec<NamasteCode>,
) -> (r: (Vec<SearchResult>, usize, usize))
    ensures
        keyword_found(term@, limit as int, icd@, nam@, language, r.0@, r.1 as int, r.2 as int),
{
    let ghost t = lower_of(term@);
    let nf = NamasteFilter { code: None, language, search_term: Some(term.clone()) };
    let pn = NamasteCodec::new().search_codes(&nf, nam, Some(limit));
    let f = IcdFilter { discipline: None, search_term: Some(term.clone()), parent_filter: None };
    let pi = IcdCodec::new().search_codes(&f, icd, Some(limit));
    let ghost gn = namaste_term_positions(t, nam@, nam@.len() as int);
    let ghost gi = icd_term_positions(t, icd@, icd@.len() as int);
    proof {
        lemma_namaste_term_filter(nf, t, Seq::empty(), nam@, nam@.len() as int);
        lemma_icd_term_filter(f, t, icd@, icd@.len() as int);
        lemma_namaste_positions_bound(t, nam@, nam@.len() as int);
        lemma_icd_positions_bound(t, icd@, icd@.len() as int);
        assert(pn@ == cap(gn, limit as int));
        assert(pi@ == cap(gi, limit as int));
    }
    let ghost all = as_traditional(pn@) + as_biomedical(pi@);
    assert(all.len() == pn@.len() + pi@.len());
    let mut out: Vec<SearchResult> = Vec::new();
    let mut k: usize = 0;
    while k < pn.len()
        invariant
            pn@ == cap(gn, limit as int),
            pi@ == cap(gi, limit as int),
            all == as_traditional(pn@) + as_biomedical(pi@),
            forall|m: int| 0 <= m < gn.len() ==> #[trigger] gn[m] < nam@.len(),
            k <= pn@.len(),
            out@.len() == k,
            forall|m: int|
                0 <= m < k ==> presents(#[trigger] out@[m], all[m], icd@, nam@, language, SearchType::Regex, None),
        decreases pn@.len() - k,
    {
        let i = pn[k];
        proof {
            assert(pn@[k as int] == gn[k as int]);
            assert(all[k as int] == Origin::Traditional(i));
        }
        let one = present(Origin::Traditional(i), icd, nam, language, SearchType::Regex, None);
        out.push(one);
        k = k + 1;
    }
    let mut j: usize = 0;
    while j < pi.len() && out.len() < limit
        invariant
            pn@ == cap(gn, limit as int),
            pi@ == cap(gi, limit as int),
            all == as_traditional(pn@) + as_biomedical(pi@),
            forall|m: int| 0 <= m < gi.len() ==> #[trigger] gi[m] < icd@.len(),
            j <= pi@.len(),
            pn@.len() <= limit,
            out@.len() <= limit,
            all.len() == pn@.len() + pi@.len(),
            out@.len() == pn@.len() + j,
            forall|m: int|
                0 <= m < out@.len() ==> presents(#[trigger] out@[m], all[m], icd@, nam@, language, SearchType::Regex, None),
        decreases pi@.len() - j,
    {
        let i = pi[j];
        proof {
            assert(pi@[j as int] == gi[j as int]);
            assert(all[pn@.len() + j] == Origin::Biomedical(i));
        }
        let one = present(Origin::Biomedical(i), icd, nam, language, SearchType::Regex, None);
        out.push(one);
        j = j + 1;
    }
    proof {
        let origins = keyword_origins(t, limit as int, icd@, nam@);
        assert(origins == cap(all, limit as int));
        assert(pn@.len() <= limit);
        if out@.len() < limit {
            assert(j == pi@.len());
        }
        assert(out@.len() == origins.len());
        assert forall|m: int| 0 <= m < out@.len() implies presents(
            #[trigger] out@[m],
            origins[m],
            icd@,
            nam@,
            language,
            SearchType::Regex,
            None,
        ) by {
            assert(origins[m] == all[m]);
        }
    }
    (out, pn.len(), pi.len())
}

/// An origin names a record of its catalog.
pub open spec fn origin_valid(o: Origin, icd_len: int, nam_len: int) -> bool {
    match o {
        Origin::Traditional(i) => i < nam_len,
        Origin::Biomedical(i) => i < icd_len,
    }
}

proof fn lemma_tagged_valid(hn: Seq<Hit>, hi: Seq<Hit>, icd_len: int, nam_len: int, t: Tagged)
    requires
        forall|h: Hit| hn.contains(h) ==> h.index < nam_len,
        forall|h: Hit| hi.contains(h) ==> h.index < icd_len,
        (tag_traditional(hn) + tag_biomedical(hi)).contains(t),
    ensures
        origin_valid(t.origin, icd_len, nam_len),
{
    let all = tag_traditional(hn) + tag_biomedical(hi);
    let m = choose|m: int| 0 <= m < all.len() && all[m] == t;
    if m < hn.len() {
        assert(hn.contains(hn[m]));
    } else {
        assert(hi.contains(hi[m - hn.len()]));
    }
}

/// The semantic results from the scans `sn` (traditional medicine) and `si`
/// (biomedical).
fn semantic_from_scans(
    sn: Vec<Hit>,
    si: Vec<Hit>,
    limit: usize,
    language: Language,
    icd: &Vec<IcdCode>,
    nam: &Vec<NamasteCode>,
    Ghost(q): Ghost<Seq<i16>>,
    Ghost(threshold): Ghost<int>,
) -> (r: (Vec<SearchResult>, usize, usize))
    requires
        sn@ == scan(q, nam@, threshold, nam@.len() as int),
        si@ == scan(q, icd@, threshold, icd@.len() as int),
    ensures
        semantic_found(q, threshold, limit as int, icd@, nam@, language, r.0@, r.1 as int, r.2 as int),
{
    let hn = top(sn, limit);
    let hi = top(si, limit);
    proof {
        lemma_scan_indices(q, nam@, threshold, nam@.len() as int);
        lemma_scan_indices(q, icd@, threshold, icd@.len() as int);
        lemma_top_members(hn@, sn@, limit as int);
        lemma_top_members(hi@, si@, limit as int);
        assert forall|h: Hit| hn@.contains(h) implies h.index < nam@.len() by {
            let m = choose|m: int| 0 <= m < hn@.len() && hn@[m] == h;
            assert(sn@.contains(hn@[m]));
        }
        assert forall|h: Hit| hi@.contains(h) implies h.index < icd@.len() by {
            let m = choose|m: int| 0 <= m < hi@.len() && hi@[m] == h;
            assert(si@.contains(hi@[m]));
        }
    }
    let mut tagged: Vec<Tagged> = Vec::new();
    let mut k: usize = 0;
    while k < hn.len()
        invariant
            k <= hn@.len(),
            tagged@.len() == k,
            forall|m: int|
                0 <= m < k ==> #[trigger] tagged@[m] == (Tagged {
                    origin: Origin::Traditional(hn@[m].index),
                    similarity: hn@[m].similarity,
                }),
        decreases hn@.len() - k,
    {
        let h = hn[k];
        tagged.push(Tagged { origin: Origin::Traditional(h.index), similarity: h.similarity });
        k = k + 1;
    }
    let mut j: usize = 0;
    while j < hi.len()
        invariant
            j <= hi@.len(),
            tagged@.len() == hn@.len() + j,
            forall|m: int|
                0 <= m < hn@.len() ==> #[trigger] tagged@[m] == (Tagged {
                    origin: Origin::Traditional(hn@[m].index),
                    similarity: hn@[m].similarity,
                }),
            forall|m: int|
                0 <= m < j ==> #[trigger] tagged@[hn@.len() + m] == (Tagged {
                    origin: Origin::Biomedical(hi@[m].index),
                    similarity: hi@[m].similarity,
                }),
        decreases hi@.len() - j,
    {
        let h = hi[j];
        tagged.push(Tagged { origin: Origin::Biomedical(h.index), similarity: h.similarity });
        j = j + 1;
    }
    let ghost all = tag_traditional(hn@) + tag_biomedical(hi@);
    proof {
        assert forall|m: int| 0 <= m < all.len() implies tagged@[m] == all[m] by {
            if m >= hn@.len() {
                assert(tagged@[hn@.len() + (m - hn@.len())] == all[m]);
            }
        }
        assert(tagged@ =~= all);
    }
    let merged = top(tagged, limit);
    proof {
        lemma_top_members(merged@, all, limit as int);
        assert forall|m: int| 0 <= m < merged@.len() implies origin_valid(
            #[trigger] merged@[m].origin,
            icd@.len() as int,
            nam@.len() as int,
        ) by {
            lemma_tagged_valid(hn@, hi@, icd@.len() as int, nam@.len() as int, merged@[m]);
        }
    }
    let mut out: Vec<SearchResult> = Vec::new();
    let mut i: usize = 0;
    while i < merged.len()
        invariant
            i <= merged@.len(),
            out@.len() == i,
            forall|m: int|
                0 <= m < merged@.len() ==> origin_valid(
                    #[trigger] merged@[m].origin,
                    icd@.len() as int,
                    nam@.len() as int,
                ),
            forall|m: int|
                0 <= m < i ==> presents(
                    #[trigger] out@[m],
                    merged@[m].origin,
                    icd@,
                    nam@,
                    language,
                    SearchType::Semantic,
                    Some(merged@[m].similarity),
                ),
        decreases merged@.len() - i,
    {
        let t = merged[i];
        assert(origin_valid(merged@[i as int].origin, icd@.len() as int, nam@.len() as int));
        let one = present(t.origin, icd, nam, language, SearchType::Semantic, Some(t.similarity));
        out.push(one);
        i = i + 1;
    }
    (out, hn.len(), hi.len())
}

/// Semantic search of both catalogs for the query embedding `query`.
pub fn semantic_search(
    query: &Embedding,
    limit: usize,
    threshold: i64,
    language: Language,
    icd: &Vec<IcdCode>,
    nam: &Vec<NamasteCode>,
) -> (r: (Vec<SearchResult>, usize, usize))
    requires
        query.wf(),
    ensures
        semantic_found(query.values@, threshold as int, limit as int, icd@, nam@, language, r.0@, r.1 as int, r.2 as int),
{
    let sn = scan_hits(query, threshold, nam);
    let si = scan_hits(query, threshold, icd);
    semantic_from_scans(sn, si, limit, language, icd, nam, Ghost(query.values@), Ghost(threshold as int))
}

/// `s` holds nothing but whitespace.
pub open spec fn blank(s: Seq<char>) -> bool {
    trimmed(s).len() == 0
}

/// Whether `s` holds nothing but whitespace.
pub fn is_blank(s: &str) -> (r: bool)
    ensures
        r == blank(s@),
{
    let c = chars_of(s);
    let (a, b) = trim_bounds(&c);
    a == b
}

/// The value of an optional setting, or its default.
pub open spec fn or_default<A>(o: Option<A>, d: A) -> A {
    match o {
        Some(x) => x,
        None => d,
    }
}

/// `resp` answers with the keyword search for `term`.
pub open spec fn keyword_response(
    resp: SearchResponse,
    term: Seq<char>,
    limit: int,
    language: Language,
    icd: Seq<IcdCode>,
    nam: Seq<NamasteCode>,
    method: SearchMethod,
    fallback: Option<FallbackReason>,
    threshold: Option<i64>,
) -> bool {
    &&& resp.search_type == SearchType::Regex
    &&& resp.method_requested == method
    &&& resp.fallback_reason == fallback
    &&& resp.threshold == threshold
    &&& keyword_found(
        term,
        limit,
        icd,
        nam,
        language,
        resp.results@,
        resp.namaste_count as int,
        resp.icd_count as int,
    )
}

/// `resp` answers with the semantic search for embedding `q`.
pub open spec fn semantic_response(
    resp: SearchResponse,
    q: Seq<i16>,
    threshold: i64,
    limit: int,
    language: Language,
    icd: Seq<IcdCode>,
    nam: Seq<NamasteCode>,
    method: SearchMethod,
) -> bool {
    &&& resp.search_type == SearchType::Semantic
    &&& resp.method_requested == method
    &&& resp.fallback_reason is None
    &&& resp.threshold == Some(threshold)
    &&& semantic_found(
        q,
        threshold as int,
        limit,
        icd,
        nam,
        language,
        resp.results@,
        resp.namaste_count as int,
        resp.icd_count as int,
    )
}

/// Whether answering a search for `search` by `method` needs the query's embedding;
/// a blank query is refused.
pub fn needs_embedding(search: &str, method: SearchMethod) -> (r: Result<bool, SearchError>)
    ensures
        blank(search@) ==> r matches Err(SearchError::InvalidArgument),
        !blank(search@) ==> (r matches Ok(b) && b == (method != SearchMethod::Regex)),
{
    if is_blank(search) {
        Err(SearchError::InvalidArgument)
    } else {
        Ok(method != SearchMethod::Regex)
    }
}

fn keyword_answer(
    search: &String,
    limit: usize,
    language: Language,
    icd: &Vec<IcdCode>,
    nam: &Vec<NamasteCode>,
    method: SearchMethod,
    fallback: Option<FallbackReason>,
    threshold: Option<i64>,
) -> (r: SearchResponse)
    ensures
        keyword_response(r, search@, limit as int, language, icd@, nam@, method, fallback, threshold),
{
    let (results, nc, ic) = keyword_search(search, limit, language, icd, nam);
    SearchResponse {
        results,
        namaste_count: nc,
        icd_count: ic,
        search_type: SearchType::Regex,
        method_requested: method,
        fallback_reason: fallback,
        threshold,
    }
}

/// Resolves a free-text query against both catalogs by `method`.
///
/// `embedding` is what came of asking for the query's embedding (asked only when
/// `needs_embedding` says so). A blank query is refused. Keyword mode scans both
/// catalogs; semantic mode ranks both catalogs by similarity and fails when the
/// embedding is missing or failed; automatic mode answers semantically, and falls
/// back to keyword search when no credential is configured, the embedding failed, or
/// neither catalog has a record at or above the threshold.
pub fn terminology_search(
    search: &String,
    limit: Option<usize>,
    threshold: Option<i64>,
    method: SearchMethod,
    language: Language,
    embedding: EmbeddingOutcome,
    icd: &Vec<IcdCode>,
    nam: &Vec<NamasteCode>,
) -> (r: Result<SearchResponse, SearchError>)
    requires
        embedding matches EmbeddingOutcome::Ready(e) ==> e.wf(),
    ensures
        blank(search@) ==> r matches Err(SearchError::InvalidArgument),
        !blank(search@) ==> {
            let lim = or_default(limit, DEFAULT_LIMIT) as int;
            let thr = or_default(threshold, DEFAULT_THRESHOLD);
            match method {
                SearchMethod::Regex => r matches Ok(resp) && keyword_response(
                    resp,
                    search@,
                    lim,
                    language,
                    icd@,
                    nam@,
                    SearchMethod::Regex,
                    None,
                    None,
                ),
                SearchMethod::Semantic => match embedding {
                    EmbeddingOutcome::NotConfigured => r matches Err(
                        SearchError::DependencyUnavailable,
                    ),
                    EmbeddingOutcome::Failed(m) => r matches Err(SearchError::DependencyError(x))
                        && x == m,
                    EmbeddingOutcome::Ready(e) => r matches Ok(resp) && semantic_response(
                        resp,
                        e.values@,
                        thr,
                        lim,
                        language,
                        icd@,
                        nam@,
                        SearchMethod::Semantic,
                    ),
                },
                SearchMethod::Auto => match embedding {
                    EmbeddingOutcome::NotConfigured => r matches Ok(resp) && keyword_response(
                        resp,
                        search@,
                        lim,
                        language,
                        icd@,
                        nam@,
                        SearchMethod::Auto,
                        Some(FallbackReason::NoEmbeddingKey),
                        None,
                    ),
                    EmbeddingOutcome::Failed(_) => r matches Ok(resp) && keyword_response(
                        resp,
                        search@,
                        lim,
                        language,
                        icd@,
                        nam@,
                        SearchMethod::Auto,
                        Some(FallbackReason::EmbeddingFailed),
                        None,
                    ),
                    EmbeddingOutcome::Ready(e) => if scan(e.values@, nam@, thr as int, nam@.len() as int).len()
                        == 0 && scan(e.values@, icd@, thr as int, icd@.len() as int).len() == 0 {
                        r matches Ok(resp) && keyword_response(
                            resp,
                            search@,
                            lim,
                            language,
                            icd@,
                            nam@,
                            SearchMethod::Auto,
                            Some(FallbackReason::NoSemanticResults),
                            Some(thr),
                        )
                    } else {
                        r matches Ok(resp) && semantic_response(
                            resp,
                            e.values@,
                            thr,
                            lim,
                            language,
                            icd@,
                            nam@,
                            SearchMethod::Auto,
                        )
                    },
                },
            }
        },
{
    if is_blank(search.as_str()) {
        return Err(SearchError::InvalidArgument);
    }
    let lim = match limit {
        Some(n) => n,
        None => DEFAULT_LIMIT,
    };
    let thr = match threshold {
        Some(t) => t,
        None => DEFAULT_THRESHOLD,
    };
    match method {
        SearchMethod::Regex => Ok(
            keyword_answer(search, lim, language, icd, nam, SearchMethod::Regex, None, None),
        ),
        SearchMethod::Semantic => match embedding {
            EmbeddingOutcome::NotConfigured => Err(SearchError::DependencyUnavailable),
            EmbeddingOutcome::Failed(m) => Err(SearchError::DependencyError(m)),
            EmbeddingOutcome::Ready(e) => {
                let (results, nc, ic) = semantic_search(&e, lim, thr, language, icd, nam);
                Ok(
                    SearchResponse {
                        results,
                        namaste_count: nc,
                        icd_count: ic,
                        search_type: SearchType::Semantic,
                        method_requested: SearchMethod::Semantic,
                        fallback_reason: None,
                        threshold: Some(thr),
                    },
                )
            },
        },
        SearchMethod::Auto => match embedding {
            EmbeddingOutcome::NotConfigured => Ok(
                keyword_answer(
                    search,
                    lim,
                    language,
                    icd,
                    nam,
                    SearchMethod::Auto,
                    Some(FallbackReason::NoEmbeddingKey),
                    None,
                ),
            ),
            EmbeddingOutcome::Failed(_) => Ok(
                keyword_answer(
                    search,
                    lim,
                    language,
                    icd,
                    nam,
                    SearchMethod::Auto,
                    Some(FallbackReason::EmbeddingFailed),
                    None,
                ),
            ),
            EmbeddingOutcome::Ready(e) => {
                let sn = scan_hits(&e, thr, nam);
                let si = scan_hits(&e, thr, icd);
                if sn.len() == 0 && si.len() == 0 {
                    Ok(
                        keyword_answer(
                            search,
                            lim,
                            language,
                            icd,
                            nam,
                            SearchMethod::Auto,
                            Some(FallbackReason::NoSemanticResults),
                            Some(thr),
                        ),
                    )
                } else {
                    let (results, nc, ic) = semantic_from_scans(
                        sn,
                        si,
                        lim,
                        language,
                        icd,
                        nam,
                        Ghost(e.values@),
                        Ghost(thr as int),
                    );
                    Ok(
                        SearchResponse {
                            results,
                            namaste_count: nc,
                            icd_count: ic,
                            search_type: SearchType::Semantic,
                            method_requested: SearchMethod::Auto,
                            fallback_reason: None,
                            threshold: Some(thr),
                        },
                    )
                }
            },
        },
    }
}

/// A keyword search gives at most `limit` results, each marked as found by keyword.
pub proof fn lemma_keyword_bounded(
    term: Seq<char>,
    limit: int,
    icd: Seq<IcdCode>,
    nam: Seq<NamasteCode>,
    language: Language,
    results: Seq<SearchResult>,
    nam_count: int,
    icd_count: int,
)
    requires
        limit >= 0,
        keyword_found(term, limit, icd, nam, language, results, nam_count, icd_count),
    ensures
        results.len() <= limit,
        forall|k: int| 0 <= k < results.len() ==> (#[trigger] results[k]).search_type == SearchType::Regex,
{
    let origins = keyword_origins(lower_of(term), limit, icd, nam);
    assert forall|k: int| 0 <= k < results.len() implies (#[trigger] results[k]).search_type
        == SearchType::Regex by {
        assert(presents(results[k], origins[k], icd, nam, language, SearchType::Regex, None));
    }
}

} // verus!

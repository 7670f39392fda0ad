use vstd::prelude::*;
use vstd::string::*;
use crate::codes::{
    IcdCode, IcdCodec, IcdDiscipline, IcdFilter, Language, NamasteCode, NamasteCodec, NamasteFilter,
    bracketed, extract_code_system, split_codes,
};
use crate::text::{chars_of, contains, has_infix, lower_of, lowercase};

verus! {

/// The catalog a record comes from.
#[derive(Clone, Copy, Debug, PartialEq, Eq, Structural)]
pub enum Catalog {
    Biomedical,
    TraditionalMedicine,
}

/// How a result was found.
#[derive(Clone, Copy, Debug, PartialEq, Eq, Structural)]
pub enum SearchType {
    Semantic,
    Regex,
}

/// The identity of a record within its catalog.
pub enum EntryId {
    Key(String),
    Number(i32),
}

/// A record found by a search, in a form shared by both catalogs.
pub struct SearchResult {
    pub id: EntryId,
    pub code: String,
    pub title: String,
    pub display: String,
    pub definition: Option<String>,
    pub source: Catalog,
    pub code_system: String,
    pub search_type: SearchType,
    /// Similarity to the query in millionths; present for semantic results only.
    pub similarity: Option<i128>,
    pub nam_code: Option<String>,
    pub icd_code: Option<String>,
    /// The code of the other system that the record refers to, if any.
    pub cross_reference: Option<String>,
}

/// The characters of an optional string.
pub open spec fn opt_view(o: Option<String>) -> Option<Seq<char>> {
    match o {
        Some(s) => Some(s@),
        None => None,
    }
}

/// A copy of an optional string.
pub fn copy_opt(o: &Option<String>) -> (r: Option<String>)
    ensures
        r == *o,
{
    match o {
        Some(s) => Some(s.clone()),
        None => None,
    }
}

/// `term` (lower-cased) occurs in `text` compared in lower case.
pub open spec fn folds_to(text: Seq<char>, term: Seq<char>) -> bool {
    has_infix(lower_of(text), term)
}

/// Whether lower-cased `term` occurs in `text` compared in lower case.
pub fn folded_contains(text: &str, term: &Vec<char>) -> (r: bool)
    ensures
        r == folds_to(text@, term@),
{
    let lowered = lowercase(text);
    let t = chars_of(lowered.as_str());
    contains(&t, term)
}

fn folded_contains_opt(text: &Option<String>, term: &Vec<char>) -> (r: bool)
    ensures
        r == (text matches Some(s) && folds_to(s@, term@)),
{
    match text {
        Some(s) => folded_contains(s.as_str(), term),
        None => false,
    }
}

/// A biomedical record passes `f`, whose search term, lower-cased, is `term`.
pub open spec fn icd_admits(f: IcdFilter, term: Seq<char>, c: IcdCode) -> bool {
    &&& match f.discipline {
        Some(IcdDiscipline::Biomedicine) => folds_to(c.id@, "/mms/"@),
        Some(IcdDiscipline::TM2) => folds_to(c.id@, "/tm/"@),
        None => true,
    }
    &&& (f.search_term is Some ==> folds_to(c.title@, term) || (c.definition matches Some(d)
        && folds_to(d@, term)) || folds_to(c.code@, term))
    &&& match f.parent_filter {
        Some(p) => c.parent matches Some(q) && q@ == p@,
        None => true,
    }
}

/// A traditional-medicine record passes `f`, whose search term and code,
/// lower-cased, are `term` and `code`.
pub open spec fn namaste_admits(f: NamasteFilter, term: Seq<char>, code: Seq<char>, c: NamasteCode) -> bool {
    &&& (f.search_term is Some ==> folds_to(c.namc_term@, term) || folds_to(
        c.namc_term_diacritical@,
        term,
    ) || folds_to(c.namc_term_devanagari@, term) || folds_to(c.namc_code@, term))
    &&& (f.code is Some ==> folds_to(c.namc_code@, code))
}

/// `s` cut to its first `n` items.
pub open spec fn cap<A>(s: Seq<A>, n: int) -> Seq<A> {
    if n < s.len() {
        s.take(n)
    } else {
        s
    }
}

/// The positions among the first `n` of `cs` that pass `f`, in order.
pub open spec fn icd_positions(f: IcdFilter, term: Seq<char>, cs: Seq<IcdCode>, n: int) -> Seq<usize>
    decreases n,
{
    if n <= 0 {
        Seq::empty()
    } else if icd_admits(f, term, cs[n - 1]) {
        icd_positions(f, term, cs, n - 1).push((n - 1) as usize)
    } else {
        icd_positions(f, term, cs, n - 1)
    }
}

/// The positions among the first `n` of `cs` that pass `f`, in order.
pub open spec fn namaste_positions(
    f: NamasteFilter,
    term: Seq<char>,
    code: Seq<char>,
    cs: Seq<NamasteCode>,
    n: int,
) -> Seq<usize>
    decreases n,
{
    if n <= 0 {
        Seq::empty()
    } else if namaste_admits(f, term, code, cs[n - 1]) {
        namaste_positions(f, term, code, cs, n - 1).push((n - 1) as usize)
    } else {
        namaste_positions(f, term, code, cs, n - 1)
    }
}

/// The lower-cased characters of an optional string (empty when absent).
fn lowered_chars(o: &Option<String>) -> (r: Vec<char>)
    ensures
        o matches Some(s) ==> r@ == lower_of(s@),
{
    match o {
        Some(s) => {
            let l = lowercase(s.as_str());
            chars_of(l.as_str())
        },
        None => Vec::new(),
    }
}

/// The lower-cased search term of a filter.
pub open spec fn lowered_term(o: Option<String>) -> Seq<char> {
    match o {
        Some(s) => lower_of(s@),
        None => Seq::empty(),
    }
}

impl IcdFilter {
    /// Whether record `c` passes the filter; `term` is the lower-cased search term.
    pub fn admits(&self, term: &Vec<char>, c: &IcdCode) -> (r: bool)
        ensures
            r == icd_admits(*self, term@, *c),
    {
        let mut mms: Vec<char> = Vec::new();
        mms.push('/');
        mms.push('m');
        mms.push('m');
        mms.push('s');
        mms.push('/');
        let mut tm: Vec<char> = Vec::new();
        tm.push('/');
        tm.push('t');
        tm.push('m');
        tm.push('/');
        proof {
            reveal_strlit("/mms/");
            reveal_strlit("/tm/");
            assert(mms@ =~= "/mms/"@);
            assert(tm@ =~= "/tm/"@);
        }
        let discipline_ok = match self.discipline {
            Some(IcdDiscipline::Biomedicine) => folded_contains(c.id.as_str(), &mms),
            Some(IcdDiscipline::TM2) => folded_contains(c.id.as_str(), &tm),
            None => true,
        };
        let term_ok = match self.search_term {
            Some(_) => folded_contains(c.title.as_str(), term) || folded_contains_opt(
                &c.definition,
                term,
            ) || folded_contains(c.code.as_str(), term),
            None => true,
        };
        let parent_ok = match &self.parent_filter {
            Some(p) => match &c.parent {
                Some(q) => {
                    let pc = chars_of(p.as_str());
                    let qc = chars_of(q.as_str());
                    crate::text::same(&qc, &pc)
                },
                None => false,
            },
            None => true,
        };
        discipline_ok && term_ok && parent_ok
    }
}

impl NamasteFilter {
    /// Whether record `c` passes the filter; `term` and `code` are the lower-cased
    /// search term and code.
    pub fn admits(&self, term: &Vec<char>, code: &Vec<char>, c: &NamasteCode) -> (r: bool)
        ensures
            r == namaste_admits(*self, term@, code@, *c),
    {
        let term_ok = match self.search_term {
            Some(_) => folded_contains(c.namc_term.as_str(), term) || folded_contains(
                c.namc_term_diacritical.as_str(),
                term,
            ) || folded_contains(c.namc_term_devanagari.as_str(), term) || folded_contains(
                c.namc_code.as_str(),
                term,
            ),
            None => true,
        };
        let code_ok = match self.code {
            Some(_) => folded_contains(c.namc_code.as_str(), code),
            None => true,
        };
        term_ok && code_ok
    }
}

impl IcdCodec {
    /// The positions of the records of `codes` that pass `filter`, in order, at most
    /// `limit` of them when a limit is given.
    pub fn search_codes(&self, filter: &IcdFilter, codes: &Vec<IcdCode>, limit: Option<usize>) -> (r: Vec<usize>)
        ensures
            r@ == match limit {
                Some(n) => cap(
                    icd_positions(*filter, lowered_term(filter.search_term), codes@, codes@.len() as int),
                    n as int,
                ),
                None => icd_positions(*filter, lowered_term(filter.search_term), codes@, codes@.len() as int),
            },
    {
        let term = lowered_chars(&filter.search_term);
        let ghost t = lowered_term(filter.search_term);
        let mut r: Vec<usize> = Vec::new();
        let mut i: usize = 0;
        while i < codes.len()
            invariant
                i <= codes@.len(),
                filter.search_term is Some ==> term@ == t,
                t == lowered_term(filter.search_term),
                r@ == icd_positions(*filter, t, codes@, i as int),
            decreases codes@.len() - i,
        {
            let ok = filter.admits(&term, &codes[i]);
            assert(ok == icd_admits(*filter, t, codes@[i as int]));
            if ok {
                r.push(i);
            }
            i = i + 1;
        }
        match limit {
            Some(n) => {
                r.truncate(n);
                proof {
                    let all = icd_positions(*filter, t, codes@, codes@.len() as int);
                    if (n as int) < all.len() {
                        assert(r@ =~= all.take(n as int));
                    }
                }
            },
            None => {},
        }
        r
    }
}

impl NamasteCodec {
    /// The positions of the records of `codes` that pass `filter`, in order, at most
    /// `limit` of them when a limit is given.
    pub fn search_codes(&self, filter: &NamasteFilter, codes: &Vec<NamasteCode>, limit: Option<usize>) -> (r: Vec<usize>)
        ensures
            r@ == match limit {
                Some(n) => cap(
                    namaste_positions(
                        *filter,
                        lowered_term(filter.search_term),
                        lowered_term(filter.code),
                        codes@,
                        codes@.len() as int,
                    ),
                    n as int,
                ),
                None => namaste_positions(
                    *filter,
                    lowered_term(filter.search_term),
                    lowered_term(filter.code),
                    codes@,
                    codes@.len() as int,
                ),
            },
    {
        let term = lowered_chars(&filter.search_term);
        let code = lowered_chars(&filter.code);
        let ghost t = lowered_term(filter.search_term);
        let ghost k = lowered_term(filter.code);
        let mut r: Vec<usize> = Vec::new();
        let mut i: usize = 0;
        while i < codes.len()
            invariant
                i <= codes@.len(),
                filter.search_term is Some ==> term@ == t,
                filter.code is Some ==> code@ == k,
                t == lowered_term(filter.search_term),
                k == lowered_term(filter.code),
                r@ == namaste_positions(*filter, t, k, codes@, i as int),
            decreases codes@.len() - i,
        {
            let ok = filter.admits(&term, &code, &codes[i]);
            assert(ok == namaste_admits(*filter, t, k, codes@[i as int]));
            if ok {
                r.push(i);
            }
            i = i + 1;
        }
        match limit {
            Some(n) => {
                r.truncate(n);
                proof {
                    let all = namaste_positions(*filter, t, k, codes@, codes@.len() as int);
                    if (n as int) < all.len() {
                        assert(r@ =~= all.take(n as int));
                    }
                }
            },
            None => {},
        }
        r
    }
}


/// `s` cut to `limit` items when a limit is given.
pub open spec fn limited<A>(s: Seq<A>, limit: Option<usize>) -> Seq<A> {
    match limit {
        Some(n) => cap(s, n as int),
        None => s,
    }
}

/// The filter that admits the records of one branch, or all records.
pub open spec fn branch_filter(d: Option<IcdDiscipline>) -> IcdFilter {
    IcdFilter { discipline: d, search_term: None, parent_filter: None }
}

impl IcdCodec {
    fn branch_codes(&self, d: Option<IcdDiscipline>, codes: &Vec<IcdCode>, limit: Option<usize>) -> (r: Vec<usize>)
        ensures
            r@ == limited(icd_positions(branch_filter(d), Seq::empty(), codes@, codes@.len() as int), limit),
    {
        let f = IcdFilter { discipline: d, search_term: None, parent_filter: None };
        assert(f == branch_filter(d));
        self.search_codes(&f, codes, limit)
    }

    /// The positions of the biomedicine records of `codes`, at most `limit`.
    pub fn get_biomedicine_codes(&self, codes: &Vec<IcdCode>, limit: Option<usize>) -> (r: Vec<usize>)
        ensures
            r@ == limited(
                icd_positions(branch_filter(Some(IcdDiscipline::Biomedicine)), Seq::empty(), codes@, codes@.len() as int),
                limit,
            ),
    {
        self.branch_codes(Some(IcdDiscipline::Biomedicine), codes, limit)
    }

    /// The positions of the traditional-medicine-chapter records of `codes`, at most `limit`.
    pub fn get_tm2_codes(&self, codes: &Vec<IcdCode>, limit: Option<usize>) -> (r: Vec<usize>)
        ensures
            r@ == limited(
                icd_positions(branch_filter(Some(IcdDiscipline::TM2)), Seq::empty(), codes@, codes@.len() as int),
                limit,
            ),
    {
        self.branch_codes(Some(IcdDiscipline::TM2), codes, limit)
    }

    /// The positions of the first `limit` records of `codes`.
    pub fn get_all_codes(&self, codes: &Vec<IcdCode>, limit: Option<usize>) -> (r: Vec<usize>)
        ensures
            r@ == limited(icd_positions(branch_filter(None), Seq::empty(), codes@, codes@.len() as int), limit),
    {
        self.branch_codes(None, codes, limit)
    }
}

impl NamasteCodec {
    /// The positions of the first `limit` records of `codes`.
    pub fn get_all_codes(&self, codes: &Vec<NamasteCode>, limit: Option<usize>) -> (r: Vec<usize>)
        ensures
            r@ == limited(
                namaste_positions(
                    NamasteFilter { code: None, language: Language::Both, search_term: None },
                    Seq::empty(),
                    Seq::empty(),
                    codes@,
                    codes@.len() as int,
                ),
                limit,
            ),
    {
        let f = NamasteFilter { code: None, language: Language::Both, search_term: None };
        self.search_codes(&f, codes, limit)
    }
}

/// The name under which a traditional-medicine record is displayed in `language`.
pub open spec fn display_name(c: NamasteCode, language: Language) -> Seq<char> {
    match language {
        Language::Hindi => c.namc_term_devanagari@,
        Language::English => c.namc_term_diacritical@,
        Language::Both => c.namc_term_diacritical@ + " / "@ + c.namc_term_devanagari@,
    }
}

/// `r` presents biomedical record `c`, found by `st` with similarity `sim`.
pub open spec fn presents_icd(r: SearchResult, c: IcdCode, st: SearchType, sim: Option<i128>) -> bool {
    &&& r.id == EntryId::Key(c.id)
    &&& r.code == c.code
    &&& r.title == c.title
    &&& r.display == c.title
    &&& r.definition == c.definition
    &&& r.source == Catalog::Biomedical
    &&& r.code_system@ == "ICD"@
    &&& r.search_type == st
    &&& r.similarity == sim
    &&& r.nam_code is None
    &&& r.icd_code == Some(c.code)
    &&& r.cross_reference is None
}

/// `r` presents traditional-medicine record `c` in `language`, found by `st` with
/// similarity `sim`: its own code and the cross-reference come from `split_codes`.
pub open spec fn presents_namaste(
    r: SearchResult,
    c: NamasteCode,
    language: Language,
    st: SearchType,
    sim: Option<i128>,
) -> bool {
    &&& r.id == EntryId::Number(c.namc_id)
    &&& r.code@ == split_codes(c.namc_code@).0
    &&& r.title == c.namc_term
    &&& r.display@ == display_name(c, language)
    &&& r.definition == c.short_definition
    &&& r.source == Catalog::TraditionalMedicine
    &&& r.code_system@ == match bracketed(c.namc_term@) {
        Some(x) => x,
        None => "NAMASTE"@,
    }
    &&& r.search_type == st
    &&& r.similarity == sim
    &&& opt_view(r.nam_code) == Some(split_codes(c.namc_code@).0)
    &&& r.icd_code is None
    &&& opt_view(r.cross_reference) == split_codes(c.namc_code@).1
}

impl IcdCodec {
    /// The search result that presents `c`.
    pub fn format_code(&self, c: &IcdCode, st: SearchType, sim: Option<i128>) -> (r: SearchResult)
        ensures
            presents_icd(r, *c, st, sim),
    {
        SearchResult {
            id: EntryId::Key(c.id.clone()),
            code: c.code.clone(),
            title: c.title.clone(),
            display: c.title.clone(),
            definition: copy_opt(&c.definition),
            source: Catalog::Biomedical,
            code_system: String::from_str("ICD"),
            search_type: st,
            similarity: sim,
            nam_code: None,
            icd_code: Some(c.code.clone()),
            cross_reference: None,
        }
    }

    /// The keyword-search results that present `codes`, in order.
    pub fn format_response(&self, codes: &Vec<IcdCode>) -> (r: Vec<SearchResult>)
        ensures
            r@.len() == codes@.len(),
            forall|k: int|
                0 <= k < r@.len() ==> presents_icd(#[trigger] r@[k], codes@[k], SearchType::Regex, None),
    {
        let mut r: Vec<SearchResult> = Vec::new();
        let mut i: usize = 0;
        while i < codes.len()
            invariant
                i <= codes@.len(),
                r@.len() == i,
                forall|k: int|
                    0 <= k < i ==> presents_icd(#[trigger] r@[k], codes@[k], SearchType::Regex, None),
            decreases codes@.len() - i,
        {
            let one = self.format_code(&codes[i], SearchType::Regex, None);
            r.push(one);
            i = i + 1;
        }
        r
    }
}

impl NamasteCodec {
    /// The name under which `c` is displayed in `language`.
    pub fn display(&self, c: &NamasteCode, language: Language) -> (r: String)
        ensures
            r@ == display_name(*c, language),
    {
        match language {
            Language::Hindi => c.namc_term_devanagari.clone(),
            Language::English => c.namc_term_diacritical.clone(),
            Language::Both => {
                let mut d = c.namc_term_diacritical.clone();
                d.append(" / ");
                d.append(c.namc_term_devanagari.as_str());
                d
            },
        }
    }

    /// The search result that presents `c` in `language`.
    pub fn format_code(&self, c: &NamasteCode, language: Language, st: SearchType, sim: Option<i128>) -> (r: SearchResult)
        ensures
            presents_namaste(r, *c, language, st, sim),
    {
        let (own, other) = c.parse_codes();
        let system = match extract_code_system(c.namc_term.as_str()) {
            Some(x) => x,
            None => String::from_str("NAMASTE"),
        };
        SearchResult {
            id: EntryId::Number(c.namc_id),
            code: own.clone(),
            title: c.namc_term.clone(),
            display: self.display(c, language),
            definition: copy_opt(&c.short_definition),
            source: Catalog::TraditionalMedicine,
            code_system: system,
            search_type: st,
            similarity: sim,
            nam_code: Some(own),
            icd_code: None,
            cross_reference: other,
        }
    }

    /// The keyword-search results that present `codes` in `language`, in order.
    pub fn format_response(&self, codes: &Vec<NamasteCode>, language: Language) -> (r: Vec<SearchResult>)
        ensures
            r@.len() == codes@.len(),
            forall|k: int|
                0 <= k < r@.len() ==> presents_namaste(
                    #[trigger] r@[k],
                    codes@[k],
                    language,
                    SearchType::Regex,
                    None,
                ),
    {
        let mut r: Vec<SearchResult> = Vec::new();
        let mut i: usize = 0;
        while i < codes.len()
            invariant
                i <= codes@.len(),
                r@.len() == i,
                forall|k: int|
                    0 <= k < i ==> presents_namaste(
                        #[trigger] r@[k],
                        codes@[k],
                        language,
                        SearchType::Regex,
                        None,
                    ),
            decreases codes@.len() - i,
        {
            let one = self.format_code(&codes[i], language, SearchType::Regex, None);
            r.push(one);
            i = i + 1;
        }
        r
    }
}

/// A record passes a keyword search for lower-cased `term`.
pub open spec fn icd_term_hit(term: Seq<char>, c: IcdCode) -> bool {
    folds_to(c.title@, term) || (c.definition matches Some(d) && folds_to(d@, term)) || folds_to(
        c.code@,
        term,
    )
}

/// A record passes a keyword search for lower-cased `term`.
pub open spec fn namaste_term_hit(term: Seq<char>, c: NamasteCode) -> bool {
    folds_to(c.namc_term@, term) || folds_to(c.namc_term_diacritical@, term) || folds_to(
        c.namc_term_devanagari@,
        term,
    ) || folds_to(c.namc_code@, term)
}

/// The positions among the first `n` of `cs` that a keyword search for `term` finds.
pub open spec fn icd_term_positions(term: Seq<char>, cs: Seq<IcdCode>, n: int) -> Seq<usize>
    decreases n,
{
    if n <= 0 {
        Seq::empty()
    } else if icd_term_hit(term, cs[n - 1]) {
        icd_term_positions(term, cs, n - 1).push((n - 1) as usize)
    } else {
        icd_term_positions(term, cs, n - 1)
    }
}

/// The positions among the first `n` of `cs` that a keyword search for `term` finds.
pub open spec fn namaste_term_positions(term: Seq<char>, cs: Seq<NamasteCode>, n: int) -> Seq<usize>
    decreases n,
{
    if n <= 0 {
        Seq::empty()
    } else if namaste_term_hit(term, cs[n - 1]) {
        namaste_term_positions(term, cs, n - 1).push((n - 1) as usize)
    } else {
        namaste_term_positions(term, cs, n - 1)
    }
}

/// A filter with only a search term finds the keyword-search positions.
pub proof fn lemma_icd_term_filter(f: IcdFilter, term: Seq<char>, cs: Seq<IcdCode>, n: int)
    requires
        f.search_term is Some,
        f.discipline is None,
        f.parent_filter is None,
    ensures
        icd_positions(f, term, cs, n) == icd_term_positions(term, cs, n),
    decreases n,
{
    if n > 0 {
        lemma_icd_term_filter(f, term, cs, n - 1);
    }
}

/// A filter with only a search term finds the keyword-search positions.
pub proof fn lemma_namaste_term_filter(f: NamasteFilter, term: Seq<char>, code: Seq<char>, cs: Seq<NamasteCode>, n: int)
    requires
        f.search_term is Some,
        f.code is None,
    ensures
        namaste_positions(f, term, code, cs, n) == namaste_term_positions(term, cs, n),
    decreases n,
{
    if n > 0 {
        lemma_namaste_term_filter(f, term, code, cs, n - 1);
    }
}

/// Keyword-search positions name records of the catalog.
pub proof fn lemma_icd_positions_bound(term: Seq<char>, cs: Seq<IcdCode>, n: int)
    requires
        n <= cs.len(),
    ensures
        forall|k: int| 0 <= k < icd_term_positions(term, cs, n).len() ==> #[trigger] icd_term_positions(term, cs, n)[k] < n,
    decreases n,
{
    if n > 0 {
        lemma_icd_positions_bound(term, cs, n - 1);
        let prev = icd_term_positions(term, cs, n - 1);
        let cur = icd_term_positions(term, cs, n);
        assert forall|k: int| 0 <= k < cur.len() implies #[trigger] cur[k] < n by {
            if k < prev.len() {
                assert(cur[k] == prev[k]);
            }
        }
    }
}

/// Keyword-search positions name records of the catalog.
pub proof fn lemma_namaste_positions_bound(term: Seq<char>, cs: Seq<NamasteCode>, n: int)
    requires
        n <= cs.len(),
    ensures
        forall|k: int| 0 <= k < namaste_term_positions(term, cs, n).len() ==> #[trigger] namaste_term_positions(term, cs, n)[k] < n,
    decreases n,
{
    if n > 0 {
        lemma_namaste_positions_bound(term, cs, n - 1);
        let prev = namaste_term_positions(term, cs, n - 1);
        let cur = namaste_term_positions(term, cs, n);
        assert forall|k: int| 0 <= k < cur.len() implies #[trigger] cur[k] < n by {
            if k < prev.len() {
                assert(cur[k] == prev[k]);
            }
        }
    }
}

} // verus!

use vstd::prelude::*;
use vstd::string::*;
use crate::codes::{IcdCode, IcdCodec, NamasteCode, NamasteCodec};
use crate::ranking::{Ranked, is_top, top, top_k};
use crate::relevance::{RedisClient, match_kind, relevance, title_part};
use crate::search::blank;
use crate::text::{
    byte_len, chars_of, lower_of, lowercase, piece, same, trim_bounds, trimmed, word_end, word_from,
    word_start,
};
use vstd::utf8::encode_utf8;

verus! {

/// The number of suggestions when the caller gives no limit.
pub const DEFAULT_SUGGESTIONS: usize = 3;

/// A request for suggestions.
pub struct AutocompleteRequest {
    pub query: String,
    /// `icd`, `namaste`, or anything else for both.
    pub category: Option<String>,
    pub limit: Option<usize>,
}

/// An indexed entry with its relevance score (millionths) for a query.
pub struct AutocompleteSuggestion {
    pub text: String,
    pub payload: Option<String>,
    pub score: i128,
}

/// An entry to add to the suggestion index, with its base score in millionths.
pub struct BulkSuggestion {
    pub category: String,
    pub text: String,
    pub score: i64,
    pub payload: Option<String>,
}

/// A suggestion as presented to callers, with the fields read from its payload.
pub struct FormattedSuggestion {
    pub id: String,
    pub code: String,
    pub title: String,
    pub definition: Option<String>,
    pub source: String,
    pub system: String,
    pub relevance_score: i128,
}

/// The answer to a request for suggestions.
pub struct AutocompleteResponse {
    pub query: String,
    pub suggestions: Vec<FormattedSuggestion>,
    pub total: usize,
    pub category: String,
    pub timestamp: String,
}

/// A category of the suggestion index.
#[derive(Clone, Copy, Debug, PartialEq, Eq, Structural)]
pub enum SuggestionCategory {
    Icd,
    Namaste,
}

impl SuggestionCategory {
    /// The category's key in the index.
    pub fn key(&self) -> (r: &'static str)
        ensures
            r@ == (match self {
                SuggestionCategory::Icd => "icd"@,
                SuggestionCategory::Namaste => "namaste"@,
            }),
    {
        match self {
            SuggestionCategory::Icd => "icd",
            SuggestionCategory::Namaste => "namaste",
        }
    }
}

/// Why a request for suggestions was refused.
#[derive(Clone, Copy, Debug, PartialEq, Eq, Structural)]
pub enum SuggestError {
    InvalidArgument,
}

/// What a valid request for suggestions asks for.
pub struct SuggestionPlan {
    /// The query, trimmed.
    pub query: String,
    pub categories: Vec<SuggestionCategory>,
    pub limit: usize,
    /// The category selector as given, `all` when absent.
    pub category: String,
}

impl Ranked for AutocompleteSuggestion {
    open spec fn rank(&self) -> int {
        self.score as int
    }

    fn rank_of(&self) -> (r: i128) {
        self.score
    }
}

impl Ranked for FormattedSuggestion {
    open spec fn rank(&self) -> int {
        self.relevance_score as int
    }

    fn rank_of(&self) -> (r: i128) {
        self.relevance_score
    }
}

/// The categories that selector `c` names.
pub open spec fn categories_named(c: Option<Seq<char>>) -> Seq<SuggestionCategory> {
    match c {
        Some(s) => if s == "icd"@ {
            seq![SuggestionCategory::Icd]
        } else if s == "namaste"@ {
            seq![SuggestionCategory::Namaste]
        } else {
            seq![SuggestionCategory::Icd, SuggestionCategory::Namaste]
        },
        None => seq![SuggestionCategory::Icd, SuggestionCategory::Namaste],
    }
}

/// The term that a prefix is looked up by: trimmed, then lower-cased.
pub fn normalized_term(prefix: &str) -> (r: String)
    ensures
        r@ == lower_of(trimmed(prefix@)),
{
    let t = trim_text(prefix);
    lowercase(t.as_str())
}

/// The characters of `s` without leading and trailing whitespace.
pub fn trim_text(s: &str) -> (r: String)
    ensures
        r@ == trimmed(s@),
{
    let c = chars_of(s);
    let (a, b) = trim_bounds(&c);
    piece(s, a, b)
}

/// What request `req` asks for; a blank query is refused.
pub fn suggestion_plan(req: &AutocompleteRequest) -> (r: Result<SuggestionPlan, SuggestError>)
    ensures
        blank(req.query@) ==> r == Err::<SuggestionPlan, SuggestError>(SuggestError::InvalidArgument),
        !blank(req.query@) ==> (r matches Ok(p) && p.query@ == trimmed(req.query@) && p.categories@
            == categories_named(match req.category {
            Some(c) => Some(c@),
            None => None,
        }) && p.limit == match req.limit {
            Some(n) => n,
            None => DEFAULT_SUGGESTIONS,
        } && p.category@ == match req.category {
            Some(c) => c@,
            None => "all"@,
        }),
{
    let query = trim_text(req.query.as_str());
    let qc = chars_of(query.as_str());
    if qc.len() == 0 {
        return Err(SuggestError::InvalidArgument);
    }
    let limit = match req.limit {
        Some(n) => n,
        None => DEFAULT_SUGGESTIONS,
    };
    let mut categories: Vec<SuggestionCategory> = Vec::new();
    let category = match &req.category {
        Some(c) => {
            let cc = chars_of(c.as_str());
            let icd = chars_of("icd");
            let namaste = chars_of("namaste");
            if same(&cc, &icd) {
                categories.push(SuggestionCategory::Icd);
            } else if same(&cc, &namaste) {
                categories.push(SuggestionCategory::Namaste);
            } else {
                categories.push(SuggestionCategory::Icd);
                categories.push(SuggestionCategory::Namaste);
            }
            c.clone()
        },
        None => {
            categories.push(SuggestionCategory::Icd);
            categories.push(SuggestionCategory::Namaste);
            String::from_str("all")
        },
    };
    assert(categories@ =~= categories_named(
        match req.category {
            Some(c) => Some(c@),
            None => None,
        },
    ));
    Ok(SuggestionPlan { query, categories, limit, category })
}

/// How many index words to read per category for `limit` suggestions: three times
/// as many, to leave room for re-ranking (the largest `usize` if that overflows).
pub fn candidate_cap(limit: usize) -> (r: usize)
    ensures
        r == if limit * 3 <= usize::MAX {
            limit * 3
        } else {
            usize::MAX as int
        },
{
    if limit <= usize::MAX / 3 {
        limit * 3
    } else {
        usize::MAX
    }
}

/// The lexicographic range `[term, term~]` of index words that begin with `term`,
/// written as inclusive bounds.
pub fn word_range(term: &str) -> (r: (String, String))
    ensures
        r.0@ == "["@ + term@,
        r.1@ == "["@ + term@ + "~"@,
{
    let mut lo = String::from_str("[");
    lo.append(term);
    let mut hi = lo.clone();
    hi.append("~");
    (lo, hi)
}

/// The distinct entries among the first `n` of `s`, each where it first occurs.
pub open spec fn first_seen(s: Seq<Option<String>>, n: int) -> Seq<Seq<char>>
    decreases n,
{
    if n <= 0 {
        Seq::empty()
    } else {
        let prev = first_seen(s, n - 1);
        match s[n - 1] {
            Some(e) => if prev.contains(e@) {
                prev
            } else {
                prev.push(e@)
            },
            None => prev,
        }
    }
}

/// The entries that index words lead to, without repeats, each where it first
/// occurs; words that lead nowhere are passed over.
pub fn unique_entries(entries: Vec<Option<String>>) -> (r: Vec<String>)
    ensures
        r@.map_values(|x: String| x@) == first_seen(entries@, entries@.len() as int),
{
    let ghost orig = entries@;
    let mut out: Vec<String> = Vec::new();
    let mut seen: Vec<Vec<char>> = Vec::new();
    let mut i: usize = 0;
    while i < entries.len()
        invariant
            entries@ == orig,
            i <= orig.len(),
            out@.len() == seen@.len(),
            forall|k: int| 0 <= k < seen@.len() ==> #[trigger] seen@[k]@ == out@[k]@,
            out@.map_values(|x: String| x@) == first_seen(orig, i as int),
        decreases orig.len() - i,
    {
        let ghost prev = first_seen(orig, i as int);
        match &entries[i] {
            Some(e) => {
                let ec = chars_of(e.as_str());
                let mut found = false;
                let mut k: usize = 0;
                while k < seen.len()
                    invariant
                        k <= seen@.len(),
                        out@.len() == seen@.len(),
                        forall|m: int| 0 <= m < seen@.len() ==> #[trigger] seen@[m]@ == out@[m]@,
                        out@.map_values(|x: String| x@) == prev,
                        found == exists|m: int| 0 <= m < k && seen@[m]@ == ec@,
                    decreases seen@.len() - k,
                {
                    if same(&seen[k], &ec) {
                        found = true;
                    }
                    k = k + 1;
                }
                proof {
                    if found {
                        let m = choose|m: int| 0 <= m < seen@.len() && seen@[m]@ == ec@;
                        assert(prev[m] == out@[m]@);
                        assert(prev.contains(e@));
                    } else {
                        assert forall|m: int| 0 <= m < prev.len() implies prev[m] != e@ by {
                            assert(prev[m] == out@[m]@);
                            assert(seen@[m]@ == out@[m]@);
                        }
                    }
                }
                if !found {
                    let ghost before = out@;
                    out.push(e.clone());
                    seen.push(ec);
                    proof {
                        assert(out@.map_values(|x: String| x@) =~= before.map_values(|x: String| x@).push(e@));
                    }
                }
            },
            None => {},
        }
        i = i + 1;
    }
    out
}

/// The score that an entry gets for query term `q` (the scorer compares both in
/// lower case).
pub open spec fn entry_score(q: Seq<char>, entry: Seq<char>) -> int {
    relevance(
        lower_of(q),
        lower_of(entry),
        entry,
        match_kind(lower_of(q), lower_of(entry), lower_of(title_part(entry))),
    )
}

/// `scored` holds the entries of `entries` in order, each with its payload and its
/// score for lower-cased query `q`.
pub open spec fn scored_from(
    scored: Seq<AutocompleteSuggestion>,
    entries: Seq<(String, Option<String>)>,
    q: Seq<char>,
) -> bool {
    &&& scored.len() == entries.len()
    &&& forall|k: int|
        0 <= k < scored.len() ==> {
            &&& (#[trigger] scored[k]).text == entries[k].0
            &&& scored[k].payload == entries[k].1
            &&& scored[k].score == entry_score(q, entries[k].0@)
        }
}

/// The `limit` best suggestions for `prefix` among the index entries that its
/// words led to (each with its payload), highest score first. The prefix is
/// trimmed and lower-cased before scoring.
pub fn rank_entries(
    prefix: &str,
    entries: Vec<(String, Option<String>)>,
    limit: usize,
) -> (r: Vec<AutocompleteSuggestion>)
    ensures
        exists|scored: Seq<AutocompleteSuggestion>|
            scored_from(scored, entries@, lower_of(trimmed(prefix@))) && #[trigger] top_k(
                scored,
                limit as int,
            ) == r@,
{
    let trimmed_prefix = trim_text(prefix);
    let term = lowercase(trimmed_prefix.as_str());
    let ghost q = lower_of(trimmed(prefix@));
    let ghost orig = entries@;
    let mut rest = entries;
    let mut scored: Vec<AutocompleteSuggestion> = Vec::new();
    let ghost taken: Seq<(String, Option<String>)> = Seq::empty();
    assert(orig =~= taken + rest@);
    while rest.len() > 0
        invariant
            term@ == q,
            orig == taken + rest@,
            scored_from(scored@, taken, q),
        decreases rest@.len(),
    {
        let ghost before = rest@;
        let (text, payload) = rest.remove(0);
        let mt = crate::relevance::classify(term.as_str(), text.as_str());
        let score = crate::relevance::relevance_of(term.as_str(), text.as_str(), mt);
        let ghost s0 = scored@;
        scored.push(AutocompleteSuggestion { text, payload, score });
        proof {
            assert(before =~= seq![(text, payload)] + rest@);
            let t0 = taken;
            taken = taken.push((text, payload));
            assert(orig =~= taken + rest@);
            assert forall|k: int| 0 <= k < scored@.len() implies {
                &&& (#[trigger] scored@[k]).text == taken[k].0
                &&& scored@[k].payload == taken[k].1
                &&& scored@[k].score == entry_score(q, taken[k].0@)
            } by {
                if k < s0.len() {
                    assert(scored@[k] == s0[k]);
                    assert(taken[k] == t0[k]);
                }
            }
        }
    }
    proof {
        assert(taken =~= orig);
    }
    top(scored, limit)
}

impl RedisClient {
    /// The `limit` best suggestions for `prefix` (see `rank_entries`).
    pub fn get_autocomplete_suggestions(
        &self,
        prefix: &str,
        entries: Vec<(String, Option<String>)>,
        limit: usize,
    ) -> (r: Vec<AutocompleteSuggestion>)
        ensures
            exists|scored: Seq<AutocompleteSuggestion>|
                scored_from(scored, entries@, lower_of(trimmed(prefix@))) && #[trigger] top_k(
                    scored,
                    limit as int,
                ) == r@,
    {
        rank_entries(prefix, entries, limit)
    }
}

/// The `limit` best suggestions of two categories together, highest score first.
pub fn merge_suggestions(
    first: Vec<FormattedSuggestion>,
    second: Vec<FormattedSuggestion>,
    limit: usize,
) -> (r: Vec<FormattedSuggestion>)
    ensures
        r@ == top_k(first@ + second@, limit as int),
        is_top(r@, first@ + second@, limit as int),
{
    let mut all = first;
    let mut more = second;
    all.append(&mut more);
    top(all, limit)
}

/// A punctuation mark that is cut from the end of an indexed word.
pub open spec fn closing_mark(c: char) -> bool {
    c == ',' || c == '.' || c == ';' || c == ':' || c == '!' || c == '?'
}

/// `w` without its trailing punctuation marks.
pub open spec fn strip_marks(w: Seq<char>) -> Seq<char>
    decreases w.len(),
{
    if w.len() > 0 && closing_mark(w.last()) {
        strip_marks(w.drop_last())
    } else {
        w
    }
}

/// The index words of the words of `t` that begin before `n`: each word of at least
/// two bytes, without its trailing punctuation, in order.
pub open spec fn index_words_upto(t: Seq<char>, n: int) -> Seq<Seq<char>>
    decreases n,
{
    if n <= 0 {
        Seq::empty()
    } else {
        let prev = index_words_upto(t, n - 1);
        if word_start(t, n - 1) && encode_utf8(word_from(t, n - 1)).len() >= 2 {
            prev.push(strip_marks(word_from(t, n - 1)))
        } else {
            prev
        }
    }
}

/// What to write to the suggestion index for one entry.
pub struct IndexRecord {
    pub category: String,
    /// The entry's text, trimmed and lower-cased.
    pub text: String,
    pub payload: Option<String>,
    pub score: i64,
    /// The words under which the entry is found.
    pub words: Vec<String>,
}

/// The end of `t[a..b]` without its trailing punctuation marks.
fn strip_end(t: &Vec<char>, a: usize, b: usize) -> (r: usize)
    requires
        a <= b <= t@.len(),
    ensures
        a <= r <= b,
        t@.subrange(a as int, r as int) == strip_marks(t@.subrange(a as int, b as int)),
{
    let mut e: usize = b;
    while e > a && (t[e - 1] == ',' || t[e - 1] == '.' || t[e - 1] == ';' || t[e - 1] == ':'
        || t[e - 1] == '!' || t[e - 1] == '?')
        invariant
            a <= e <= b <= t@.len(),
            strip_marks(t@.subrange(a as int, b as int)) == strip_marks(t@.subrange(a as int, e as int)),
        decreases e,
    {
        proof {
            assert(t@.subrange(a as int, e as int).drop_last() =~= t@.subrange(a as int, e - 1));
            assert(t@.subrange(a as int, e as int).last() == t@[e - 1]);
        }
        e = e - 1;
    }
    proof {
        if e > a {
            assert(t@.subrange(a as int, e as int).last() == t@[e - 1]);
        }
    }
    e
}

/// The index words of `text` (see `index_words_upto`).
pub fn index_words(text: &str) -> (r: Vec<String>)
    ensures
        r@.map_values(|w: String| w@) == index_words_upto(text@, text@.len() as int),
{
    let t = chars_of(text);
    let n = t.len();
    let mut out: Vec<String> = Vec::new();
    let mut i: usize = 0;
    while i < n
        invariant
            n == t@.len(),
            t@ == text@,
            i <= n,
            out@.map_values(|w: String| w@) == index_words_upto(t@, i as int),
        decreases n - i,
    {
        let starts = !crate::text::white(t[i]) && (i == 0 || crate::text::white(t[i - 1]));
        if starts {
            let j = word_end(&t, i);
            let w = piece(text, i, j);
            if byte_len(w.as_str()) >= 2 {
                let k = strip_end(&t, i, j);
                let ghost before = out@;
                out.push(piece(text, i, k));
                proof {
                    assert(out@.map_values(|w: String| w@) =~= before.map_values(|w: String| w@).push(
                        strip_marks(word_from(t@, i as int)),
                    ));
                }
            }
        }
        i = i + 1;
    }
    out
}

/// What to write to the suggestion index for each entry of `suggestions`: its
/// text trimmed and lower-cased, and the index words of that text.
pub fn index_records(suggestions: &Vec<BulkSuggestion>) -> (r: Vec<IndexRecord>)
    ensures
        r@.len() == suggestions@.len(),
        forall|k: int|
            0 <= k < r@.len() ==> {
                &&& (#[trigger] r@[k]).category == suggestions@[k].category
                &&& r@[k].text@ == lower_of(trimmed(suggestions@[k].text@))
                &&& r@[k].payload == suggestions@[k].payload
                &&& r@[k].score == suggestions@[k].score
                &&& r@[k].words@.map_values(|w: String| w@) == index_words_upto(
                    r@[k].text@,
                    r@[k].text@.len() as int,
                )
            },
{
    let mut out: Vec<IndexRecord> = Vec::new();
    let mut i: usize = 0;
    while i < suggestions.len()
        invariant
            i <= suggestions@.len(),
            out@.len() == i,
            forall|k: int|
                0 <= k < i ==> {
                    &&& (#[trigger] out@[k]).category == suggestions@[k].category
                    &&& out@[k].text@ == lower_of(trimmed(suggestions@[k].text@))
                    &&& out@[k].payload == suggestions@[k].payload
                    &&& out@[k].score == suggestions@[k].score
                    &&& out@[k].words@.map_values(|w: String| w@) == index_words_upto(
                        out@[k].text@,
                        out@[k].text@.len() as int,
                    )
                },
        decreases suggestions@.len() - i,
    {
        let s = &suggestions[i];
        let trimmed_text = trim_text(s.text.as_str());
        let clean = lowercase(trimmed_text.as_str());
        let words = index_words(clean.as_str());
        out.push(
            IndexRecord {
                category: s.category.clone(),
                text: clean,
                payload: crate::catalog::copy_opt(&s.payload),
                score: s.score,
                words,
            },
        );
        i = i + 1;
    }
    out
}

impl RedisClient {
    /// What to write to the suggestion index for `suggestions` (see `index_records`).
    pub fn bulk_add_suggestions(&self, suggestions: &Vec<BulkSuggestion>) -> (r: Vec<IndexRecord>)
        ensures
            r@.len() == suggestions@.len(),
            forall|k: int|
                0 <= k < r@.len() ==> {
                    &&& (#[trigger] r@[k]).category == suggestions@[k].category
                    &&& r@[k].text@ == lower_of(trimmed(suggestions@[k].text@))
                    &&& r@[k].payload == suggestions@[k].payload
                    &&& r@[k].score == suggestions@[k].score
                    &&& r@[k].words@.map_values(|w: String| w@) == index_words_upto(
                        r@[k].text@,
                        r@[k].text@.len() as int,
                    )
                },
    {
        index_records(suggestions)
    }
}

/// The base score of an indexed entry: one, in millionths.
pub const BASE_SCORE: i64 = 1_000_000;

/// The character of decimal digit `d`.
pub open spec fn digit_char(d: int) -> char {
    if d == 0 {
        '0'
    } else if d == 1 {
        '1'
    } else if d == 2 {
        '2'
    } else if d == 3 {
        '3'
    } else if d == 4 {
        '4'
    } else if d == 5 {
        '5'
    } else if d == 6 {
        '6'
    } else if d == 7 {
        '7'
    } else if d == 8 {
        '8'
    } else {
        '9'
    }
}

/// The decimal digits of `n`.
pub open spec fn digits(n: nat) -> Seq<char>
    decreases n,
{
    if n < 10 {
        seq![digit_char(n as int)]
    } else {
        digits(n / 10).push(digit_char((n % 10) as int))
    }
}

/// `n` written in decimal, with a leading `-` when negative.
pub open spec fn decimal(n: int) -> Seq<char> {
    if n < 0 {
        seq!['-'] + digits((-n) as nat)
    } else {
        digits(n as nat)
    }
}

fn digit_text(d: u64) -> (r: &'static str)
    requires
        d < 10,
    ensures
        r@ == seq![digit_char(d as int)],
{
    proof {
        reveal_strlit("0");
        reveal_strlit("1");
        reveal_strlit("2");
        reveal_strlit("3");
        reveal_strlit("4");
        reveal_strlit("5");
        reveal_strlit("6");
        reveal_strlit("7");
        reveal_strlit("8");
        reveal_strlit("9");
    }
    let r = if d == 0 {
        "0"
    } else if d == 1 {
        "1"
    } else if d == 2 {
        "2"
    } else if d == 3 {
        "3"
    } else if d == 4 {
        "4"
    } else if d == 5 {
        "5"
    } else if d == 6 {
        "6"
    } else if d == 7 {
        "7"
    } else if d == 8 {
        "8"
    } else {
        "9"
    };
    assert(r@ =~= seq![digit_char(d as int)]);
    r
}

fn append_digits(out: &mut String, n: u64)
    ensures
        final(out)@ == old(out)@ + digits(n as nat),
    decreases n,
{
    if n < 10 {
        out.append(digit_text(n));
    } else {
        append_digits(out, n / 10);
        out.append(digit_text(n % 10));
        assert(digits(n as nat) == digits((n / 10) as nat).push(digit_char((n % 10) as int)));
        assert(final(out)@ =~= old(out)@ + digits(n as nat));
    }
}

/// `n` written in decimal.
pub fn decimal_text(n: i32) -> (r: String)
    ensures
        r@ == decimal(n as int),
{
    let mut out = String::new();
    if n < 0 {
        out.append("-");
        proof {
            reveal_strlit("-");
        }
        let m: u64 = (-(n as i64)) as u64;
        append_digits(&mut out, m);
        assert(out@ =~= seq!['-'] + digits(m as nat));
    } else {
        append_digits(&mut out, n as u64);
        assert(out@ =~= digits(n as nat));
    }
    out
}

impl IcdCodec {
    /// The suggestion-index entry for `c`: its code and title, with base score one.
    pub fn suggestion(&self, c: &IcdCode, payload: Option<String>) -> (r: BulkSuggestion)
        ensures
            r.category@ == "icd"@,
            r.text@ == c.code@ + " "@ + c.title@,
            r.score == BASE_SCORE,
            r.payload == payload,
    {
        let mut text = c.code.clone();
        text.append(" ");
        text.append(c.title.as_str());
        BulkSuggestion { category: String::from_str("icd"), text, score: BASE_SCORE, payload }
    }
}

impl NamasteCodec {
    /// The suggestion-index entry for `c`: its number and term, with base score one.
    pub fn suggestion(&self, c: &NamasteCode, payload: Option<String>) -> (r: BulkSuggestion)
        ensures
            r.category@ == "namaste"@,
            r.text@ == decimal(c.namc_id as int) + " "@ + c.namc_term@,
            r.score == BASE_SCORE,
            r.payload == payload,
    {
        let mut text = decimal_text(c.namc_id);
        text.append(" ");
        text.append(c.namc_term.as_str());
        BulkSuggestion { category: String::from_str("namaste"), text, score: BASE_SCORE, payload }
    }
}

} // verus!

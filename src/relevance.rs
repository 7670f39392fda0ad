use vstd::prelude::*;
use vstd::utf8::encode_utf8;
use crate::text::{
    any_word_begins, byte_len, chars_of, contains, find_first, first_pos, first_word, has_infix,
    has_prefix, lower_of, lowercase, piece, run_len, same, some_word_begins, starts_with, trim_bounds,
    word_end,
};

verus! {

/// The suggestion index's connection handle, `redis::aio::ConnectionManager`, carried
/// as an opaque value.
#[verifier::external_type_specification]
#[verifier::external_body]
pub struct ExConnectionManager(redis::aio::ConnectionManager);

/// A handle on the suggestion index.
pub struct RedisClient {
    pub manager: redis::aio::ConnectionManager,
}

/// How a candidate entry matches a query, strongest first.
#[derive(Clone, Copy, Debug, PartialEq, Eq, Structural)]
pub enum MatchType {
    ExactTitle,
    StartsWith,
    WordStart,
    Contains,
    Related,
}

/// Scores are counted in millionths.
pub const SCORE_UNIT: i128 = 1_000_000;

/// The lowest score an entry can get (one tenth).
pub const SCORE_FLOOR: i128 = 100_000;

/// The number of clinical terms that raise a score.
pub const CLINICAL_TERMS: usize = 16;

/// The number of qualifier phrases that lower a score.
pub const QUALIFIERS: usize = 6;

/// The separator between an entry's code and its title.
pub open spec fn space() -> Seq<char> {
    seq![' ']
}

/// The title part of an entry: what follows its first space, or all of it.
pub open spec fn title_part(entry: Seq<char>) -> Seq<char> {
    if has_infix(entry, space()) {
        entry.subrange(first_pos(entry, space()) + 1, entry.len() as int)
    } else {
        entry
    }
}

/// The match type of lower-cased query `q` against lower-cased entry `e`, whose
/// lower-cased title is `t`: the first that holds of equal title, title prefix,
/// word prefix, substring.
pub open spec fn match_kind(q: Seq<char>, e: Seq<char>, t: Seq<char>) -> MatchType {
    if t == q {
        MatchType::ExactTitle
    } else if has_prefix(t, q) {
        MatchType::StartsWith
    } else if some_word_begins(e, q) {
        MatchType::WordStart
    } else if has_infix(e, q) {
        MatchType::Contains
    } else {
        MatchType::Related
    }
}

/// The bonus of a match type, in whole points.
pub open spec fn bonus(m: MatchType) -> int {
    match m {
        MatchType::ExactTitle => 10,
        MatchType::StartsWith => 8,
        MatchType::WordStart => 5,
        MatchType::Contains => 2,
        MatchType::Related => 1,
    }
}

/// The `i`-th clinical term that raises a score.
pub open spec fn clinical_term(i: int) -> Seq<char> {
    if i == 0 {
        "fever"@
    } else if i == 1 {
        "pain"@
    } else if i == 2 {
        "infection"@
    } else if i == 3 {
        "acute"@
    } else if i == 4 {
        "chronic"@
    } else if i == 5 {
        "syndrome"@
    } else if i == 6 {
        "disease"@
    } else if i == 7 {
        "disorder"@
    } else if i == 8 {
        "injury"@
    } else if i == 9 {
        "fracture"@
    } else if i == 10 {
        "diabetes"@
    } else if i == 11 {
        "hypertension"@
    } else if i == 12 {
        "pneumonia"@
    } else if i == 13 {
        "cancer"@
    } else if i == 14 {
        "tumor"@
    } else {
        "inflammation"@
    }
}

/// The `i`-th qualifier phrase that lowers a score.
pub open spec fn qualifier(i: int) -> Seq<char> {
    if i == 0 {
        "unspecified"@
    } else if i == 1 {
        "not elsewhere classified"@
    } else if i == 2 {
        "other specified"@
    } else if i == 3 {
        "without mention"@
    } else if i == 4 {
        "with mention"@
    } else {
        "sequela"@
    }
}

/// How many of the first `n` clinical terms occur in `e`.
pub open spec fn terms_in(e: Seq<char>, n: int) -> int
    decreases n,
{
    if n <= 0 {
        0
    } else {
        terms_in(e, n - 1) + if has_infix(e, clinical_term(n - 1)) {
            1int
        } else {
            0int
        }
    }
}

/// How many of the first `n` qualifier phrases occur in `e`.
pub open spec fn qualifiers_in(e: Seq<char>, n: int) -> int
    decreases n,
{
    if n <= 0 {
        0
    } else {
        qualifiers_in(e, n - 1) + if has_infix(e, qualifier(n - 1)) {
            1int
        } else {
            0int
        }
    }
}

/// The entry's first word is a short code: at most four bytes.
pub open spec fn short_code(entry: Seq<char>) -> bool {
    match first_word(entry) {
        Some(w) => encode_utf8(w).len() <= 4,
        None => false,
    }
}

/// The score before the floor, in millionths: 1, plus the match bonus, plus twice the
/// ratio of query length to entry length (in bytes, rounded down to a millionth),
/// plus 1.5 per clinical term, minus 2 per qualifier phrase, plus 3 for a short code.
pub open spec fn raw_score(q: Seq<char>, e: Seq<char>, entry: Seq<char>, m: MatchType) -> int {
    let q_len = encode_utf8(q).len() as int;
    let e_len = encode_utf8(e).len() as int;
    SCORE_UNIT * (1 + bonus(m)) + (if e_len > 0 {
        (2 * SCORE_UNIT * q_len) / e_len
    } else {
        0int
    }) + 1_500_000 * terms_in(e, CLINICAL_TERMS as int) - 2_000_000 * qualifiers_in(
        e,
        QUALIFIERS as int,
    ) + (if short_code(entry) {
        3_000_000int
    } else {
        0int
    })
}

/// The relevance score of entry `entry` (lower-cased `e`) for lower-cased query `q`.
pub open spec fn relevance(q: Seq<char>, e: Seq<char>, entry: Seq<char>, m: MatchType) -> int {
    let s = raw_score(q, e, entry, m);
    if s < SCORE_FLOOR {
        SCORE_FLOOR as int
    } else {
        s
    }
}

/// The `i`-th clinical term.
fn clinical_term_at(i: usize) -> (r: &'static str)
    requires
        i < CLINICAL_TERMS,
    ensures
        r@ == clinical_term(i as int),
{
    if i == 0 {
        "fever"
    } else if i == 1 {
        "pain"
    } else if i == 2 {
        "infection"
    } else if i == 3 {
        "acute"
    } else if i == 4 {
        "chronic"
    } else if i == 5 {
        "syndrome"
    } else if i == 6 {
        "disease"
    } else if i == 7 {
        "disorder"
    } else if i == 8 {
        "injury"
    } else if i == 9 {
        "fracture"
    } else if i == 10 {
        "diabetes"
    } else if i == 11 {
        "hypertension"
    } else if i == 12 {
        "pneumonia"
    } else if i == 13 {
        "cancer"
    } else if i == 14 {
        "tumor"
    } else {
        "inflammation"
    }
}

/// The `i`-th qualifier phrase.
fn qualifier_at(i: usize) -> (r: &'static str)
    requires
        i < QUALIFIERS,
    ensures
        r@ == qualifier(i as int),
{
    if i == 0 {
        "unspecified"
    } else if i == 1 {
        "not elsewhere classified"
    } else if i == 2 {
        "other specified"
    } else if i == 3 {
        "without mention"
    } else if i == 4 {
        "with mention"
    } else {
        "sequela"
    }
}

/// How many clinical terms occur in `e`.
fn count_terms(e: &Vec<char>) -> (r: i128)
    ensures
        r == terms_in(e@, CLINICAL_TERMS as int),
        0 <= r <= CLINICAL_TERMS,
{
    let mut n: i128 = 0;
    let mut i: usize = 0;
    while i < CLINICAL_TERMS
        invariant
            i <= CLINICAL_TERMS,
            n == terms_in(e@, i as int),
            0 <= n <= i,
        decreases CLINICAL_TERMS - i,
    {
        let term = chars_of(clinical_term_at(i));
        if contains(e, &term) {
            n = n + 1;
        }
        i = i + 1;
    }
    n
}

/// How many qualifier phrases occur in `e`.
fn count_qualifiers(e: &Vec<char>) -> (r: i128)
    ensures
        r == qualifiers_in(e@, QUALIFIERS as int),
        0 <= r <= QUALIFIERS,
{
    let mut n: i128 = 0;
    let mut i: usize = 0;
    while i < QUALIFIERS
        invariant
            i <= QUALIFIERS,
            n == qualifiers_in(e@, i as int),
            0 <= n <= i,
        decreases QUALIFIERS - i,
    {
        let phrase = chars_of(qualifier_at(i));
        if contains(e, &phrase) {
            n = n + 1;
        }
        i = i + 1;
    }
    n
}

/// Whether the first word of `entry` is a short code.
fn has_short_code(entry: &str) -> (r: bool)
    ensures
        r == short_code(entry@),
{
    let t = chars_of(entry);
    let n = t.len();
    let (a, _) = trim_bounds(&t);
    if a == n {
        return false;
    }
    let b = word_end(&t, a);
    proof {
        let s = t@.subrange(a as int, n as int);
        assert(s.subrange(0, run_len(s) as int) =~= t@.subrange(a as int, b as int));
    }
    let word = piece(entry, a, b);
    assert(first_word(entry@) == Some(word@));
    byte_len(word.as_str()) <= 4
}

/// The title part of `entry` (see `title_part`).
fn title_of(entry: &str) -> (r: String)
    ensures
        r@ == title_part(entry@),
{
    let t = chars_of(entry);
    let mut sp: Vec<char> = Vec::new();
    sp.push(' ');
    assert(sp@ =~= space());
    let n = t.len();
    match find_first(&t, &sp) {
        Some(k) => {
            assert(sp@.len() == 1);
            assert(k + 1 <= n);
            piece(entry, k + 1, n)
        },
        None => {
            assert(t@.subrange(0, t@.len() as int) =~= t@);
            piece(entry, 0, t.len())
        },
    }
}

/// The match type for a lower-cased query, entry and title (see `match_kind`).
pub fn match_kind_of(query: &str, entry: &str, title: &str) -> (r: MatchType)
    ensures
        r == match_kind(query@, entry@, title@),
{
    let q = chars_of(query);
    let e = chars_of(entry);
    let t = chars_of(title);
    if same(&t, &q) {
        MatchType::ExactTitle
    } else if starts_with(&t, &q) {
        MatchType::StartsWith
    } else if any_word_begins(&e, &q) {
        MatchType::WordStart
    } else if contains(&e, &q) {
        MatchType::Contains
    } else {
        MatchType::Related
    }
}

/// The relevance score of `entry` for a query, given the lower-cased query and entry
/// (see `relevance`).
pub fn relevance_score(query: &str, entry_lower: &str, entry: &str, match_type: MatchType) -> (r: i128)
    ensures
        r == relevance(query@, entry_lower@, entry@, match_type),
{
    let e = chars_of(entry_lower);
    let mut score: i128 = SCORE_UNIT * match match_type {
        MatchType::ExactTitle => 11,
        MatchType::StartsWith => 9,
        MatchType::WordStart => 6,
        MatchType::Contains => 3,
        MatchType::Related => 2,
    };
    let q_len = byte_len(query);
    let e_len = byte_len(entry_lower);
    if e_len > 0 {
        let ratio: u128 = (2_000_000u128 * (q_len as u128)) / (e_len as u128);
        assert(ratio <= 2_000_000u128 * (q_len as u128)) by {
            vstd::arithmetic::div_mod::lemma_div_is_ordered_by_denominator(
                2_000_000 * (q_len as int),
                1,
                e_len as int,
            );
        }
        score = score + ratio as i128;
    }
    score = score + 1_500_000 * count_terms(&e);
    score = score - 2_000_000 * count_qualifiers(&e);
    if has_short_code(entry) {
        score = score + 3_000_000;
    }
    if score < SCORE_FLOOR {
        SCORE_FLOOR
    } else {
        score
    }
}

/// The relevance score of `entry` for `query`, both compared in lower case.
pub fn relevance_of(query: &str, entry: &str, match_type: MatchType) -> (r: i128)
    ensures
        r == relevance(lower_of(query@), lower_of(entry@), entry@, match_type),
{
    let q = lowercase(query);
    let e = lowercase(entry);
    relevance_score(q.as_str(), e.as_str(), entry, match_type)
}

/// The match type of `entry` for `query`, both compared in lower case.
pub fn classify(query: &str, entry: &str) -> (r: MatchType)
    ensures
        r == match_kind(lower_of(query@), lower_of(entry@), lower_of(title_part(entry@))),
{
    let q = lowercase(query);
    let e = lowercase(entry);
    let title = title_of(entry);
    let t = lowercase(title.as_str());
    match_kind_of(q.as_str(), e.as_str(), t.as_str())
}

impl RedisClient {
    /// The relevance score of `entry` for `query` (see `relevance_of`).
    pub fn calculate_relevance_score(&self, query: &str, entry: &str, match_type: MatchType) -> (r: i128)
        ensures
            r == relevance(lower_of(query@), lower_of(entry@), entry@, match_type),
    {
        relevance_of(query, entry, match_type)
    }

    /// The match type of `entry` for `query` (see `classify`).
    pub fn get_match_type(&self, query: &str, entry: &str) -> (r: MatchType)
        ensures
            r == match_kind(lower_of(query@), lower_of(entry@), lower_of(title_part(entry@))),
    {
        classify(query, entry)
    }
}

/// An exact title match scores strictly above an unrelated match of the same query
/// and entry, whenever the exact match's score is above the floor.
pub proof fn lemma_exact_outranks_related(q: Seq<char>, e: Seq<char>, entry: Seq<char>)
    requires
        raw_score(q, e, entry, MatchType::ExactTitle) > SCORE_FLOOR,
    ensures
        relevance(q, e, entry, MatchType::ExactTitle) > relevance(q, e, entry, MatchType::Related),
{
}

} // verus!

use vstd::prelude::*;
use crate::similarity::{Embedded, Embedding};
use crate::text::{
    chars_of, drop_char, find_first, first_pos, has_infix, piece, pick, split_two, splits_in_two,
    trim_bounds, trim_range, trimmed, without_char,
};

verus! {

/// A record of the biomedical classification.
pub struct IcdCode {
    pub id: String,
    pub code: String,
    pub title: String,
    pub definition: Option<String>,
    pub parent: Option<String>,
    pub browser_url: Option<String>,
    pub coding_note: Option<String>,
    pub synonyms: Option<String>,
    pub exclusions: Option<String>,
    pub inclusions: Option<String>,
    pub is_leaf: Option<String>,
    pub embedding: Option<Embedding>,
}

/// Which records of the biomedical classification a search admits.
pub struct IcdFilter {
    pub discipline: Option<IcdDiscipline>,
    pub search_term: Option<String>,
    pub parent_filter: Option<String>,
}

/// A branch of the biomedical classification.
#[derive(Clone, Copy, Debug, PartialEq, Eq, Structural)]
pub enum IcdDiscipline {
    Biomedicine,
    TM2,
}

/// Access to the biomedical classification.
pub struct IcdCodec;

/// A record of the traditional-medicine terminology.
pub struct NamasteCode {
    pub sr_no: i32,
    pub namc_id: i32,
    /// The record's own code, possibly followed by a cross-reference to the other system.
    pub namc_code: String,
    pub namc_term: String,
    pub namc_term_diacritical: String,
    pub namc_term_devanagari: String,
    pub short_definition: Option<String>,
    pub long_definition: Option<String>,
    pub ontology_branches: Option<String>,
    pub embedding: Option<Embedding>,
}

/// Which records of the traditional-medicine terminology a search admits.
pub struct NamasteFilter {
    pub code: Option<String>,
    pub language: Language,
    pub search_term: Option<String>,
}

/// The script in which a traditional-medicine term is displayed.
#[derive(Clone, Copy, Debug, PartialEq, Eq, Structural)]
pub enum Language {
    English,
    Hindi,
    Both,
}

/// Access to the traditional-medicine terminology.
pub struct NamasteCodec;

/// A discipline of the traditional-medicine terminology.
#[derive(Clone, Copy, Debug, PartialEq, Eq, Structural)]
pub enum NamasteDiscipline {
    Ayurveda,
}

impl Embedded for IcdCode {
    open spec fn stored(&self) -> Option<Embedding> {
        self.embedding
    }

    fn stored_ref(&self) -> (r: &Option<Embedding>) {
        &self.embedding
    }
}

impl Embedded for NamasteCode {
    open spec fn stored(&self) -> Option<Embedding> {
        self.embedding
    }

    fn stored_ref(&self) -> (r: &Option<Embedding>) {
        &self.embedding
    }
}

impl IcdDiscipline {
    /// The discipline's display name.
    pub fn label(&self) -> (r: &'static str)
        ensures
            r@ == (match self {
                IcdDiscipline::Biomedicine => "BIOMEDICINE"@,
                IcdDiscipline::TM2 => "TM2"@,
            }),
    {
        match self {
            IcdDiscipline::Biomedicine => "BIOMEDICINE",
            IcdDiscipline::TM2 => "TM2",
        }
    }
}

impl IcdCodec {
    /// A handle on the biomedical classification.
    pub fn new() -> (r: Self) {
        IcdCodec
    }
}

impl NamasteCodec {
    /// A handle on the traditional-medicine terminology.
    pub fn new() -> (r: Self) {
        NamasteCodec
    }
}

/// The opening bracket of a cross-reference.
pub open spec fn open_paren() -> Seq<char> {
    seq!['(']
}

/// The closing bracket of a cross-reference.
pub open spec fn close_paren() -> Seq<char> {
    seq![')']
}

/// The separator of a dash cross-reference.
pub open spec fn spaced_dash() -> Seq<char> {
    seq![' ', '-', ' ']
}

/// How a traditional-medicine code field splits into the record's own code and a
/// cross-referenced code: `X (Y)` gives `X` and `Y` (every `)` dropped from `Y`),
/// `X - Y` gives `X` and `Y`, and anything else is the record's own code alone.
/// Each part is trimmed of whitespace.
pub open spec fn split_codes(s: Seq<char>) -> (Seq<char>, Option<Seq<char>>) {
    if has_infix(s, open_paren()) && has_infix(s, close_paren()) {
        if splits_in_two(s, open_paren()) {
            let k = first_pos(s, open_paren());
            (
                trimmed(s.subrange(0, k)),
                Some(trimmed(drop_char(s.subrange(k + 1, s.len() as int), ')'))),
            )
        } else {
            (s, None)
        }
    } else if has_infix(s, spaced_dash()) && splits_in_two(s, spaced_dash()) {
        let k = first_pos(s, spaced_dash());
        (trimmed(s.subrange(0, k)), Some(trimmed(s.subrange(k + 3, s.len() as int))))
    } else {
        (s, None)
    }
}

/// The text between the first `(` and the first `)` of `s`, when that `)` follows the `(`.
pub open spec fn bracketed(s: Seq<char>) -> Option<Seq<char>> {
    if has_infix(s, open_paren()) && has_infix(s, close_paren()) && first_pos(s, close_paren())
        > first_pos(s, open_paren()) {
        Some(s.subrange(first_pos(s, open_paren()) + 1, first_pos(s, close_paren())))
    } else {
        None
    }
}

fn one_char(c: char) -> (r: Vec<char>)
    ensures
        r@ == seq![c],
{
    let mut r: Vec<char> = Vec::new();
    r.push(c);
    assert(r@ =~= seq![c]);
    r
}

fn dash_pattern() -> (r: Vec<char>)
    ensures
        r@ == spaced_dash(),
{
    let mut r: Vec<char> = Vec::new();
    r.push(' ');
    r.push('-');
    r.push(' ');
    assert(r@ =~= spaced_dash());
    r
}

/// The cross-referenced code system named in brackets within `label`, if any.
pub fn extract_code_system(label: &str) -> (r: Option<String>)
    ensures
        r matches Some(x) ==> bracketed(label@) == Some(x@),
        r is None ==> bracketed(label@) is None,
{
    let t = chars_of(label);
    let open = one_char('(');
    let close = one_char(')');
    match find_first(&t, &open) {
        Some(start) => match find_first(&t, &close) {
            Some(end) => {
                if end > start {
                    Some(piece(label, start + 1, end))
                } else {
                    None
                }
            },
            None => None,
        },
        None => None,
    }
}

impl NamasteCode {
    /// The record's own code and the cross-referenced code of the other system,
    /// read from `namc_code`.
    pub fn parse_codes(&self) -> (r: (String, Option<String>))
        ensures
            r.0@ == split_codes(self.namc_code@).0,
            r.1 matches Some(x) ==> split_codes(self.namc_code@).1 == Some(x@),
            r.1 is None ==> split_codes(self.namc_code@).1 is None,
    {
        let s = self.namc_code.as_str();
        let t = chars_of(s);
        let open = one_char('(');
        let close = one_char(')');
        let dash = dash_pattern();
        let n = t.len();
        let has_open = find_first(&t, &open).is_some();
        let has_close = find_first(&t, &close).is_some();
        if has_open && has_close {
            if split_two(&t, &open) {
                let k = find_first(&t, &open).unwrap();
                let (a, b) = trim_range(&t, 0, k);
                let own = piece(s, a, b);
                let (v, idx) = without_char(&t, k + 1, ')');
                let (c, d) = trim_bounds(&v);
                assert forall|j: int| c <= j < d implies idx@[j] < s@.len() by {
                    assert(idx@[j] < t@.len());
                }
                let other = pick(s, &idx, c, d);
                assert(other@ =~= v@.subrange(c as int, d as int));
                return (own, Some(other));
            }
        } else if find_first(&t, &dash).is_some() && split_two(&t, &dash) {
            let k = find_first(&t, &dash).unwrap();
            let (a, b) = trim_range(&t, 0, k);
            let own = piece(s, a, b);
            let (c, d) = trim_range(&t, k + 3, n);
            let other = piece(s, c, d);
            return (own, Some(other));
        }
        (self.namc_code.clone(), None)
    }
}

} // verus!

use vstd::prelude::*;
use vstd::string::*;
use vstd::utf8::encode_utf8;

verus! {

/// True when `c` is one of the characters that `char::is_whitespace` accepts
/// (the Unicode `White_Space` property).
pub open spec fn is_white(c: char) -> bool {
    c == '\t' || c == '\n' || c == '\u{0B}' || c == '\u{0C}' || c == '\r' || c == ' '
        || c == '\u{85}' || c == '\u{A0}' || c == '\u{1680}'
        || ('\u{2000}' <= c && c <= '\u{200A}') || c == '\u{2028}' || c == '\u{2029}'
        || c == '\u{202F}' || c == '\u{205F}' || c == '\u{3000}'
}

/// Whitespace test on one character.
pub fn white(c: char) -> (r: bool)
    ensures
        r == is_white(c),
{
    c == '\t' || c == '\n' || c == '\u{0B}' || c == '\u{0C}' || c == '\r' || c == ' '
        || c == '\u{85}' || c == '\u{A0}' || c == '\u{1680}'
        || ('\u{2000}' <= c && c <= '\u{200A}') || c == '\u{2028}' || c == '\u{2029}'
        || c == '\u{202F}' || c == '\u{205F}' || c == '\u{3000}'
}

/// `p` occurs in `t` at position `i`.
pub open spec fn occurs_at(t: Seq<char>, p: Seq<char>, i: int) -> bool {
    0 <= i && i + p.len() <= t.len() && t.subrange(i, i + p.len()) == p
}

/// `t` begins with `p`.
pub open spec fn has_prefix(t: Seq<char>, p: Seq<char>) -> bool {
    occurs_at(t, p, 0)
}

/// `p` occurs somewhere in `t`.
pub open spec fn has_infix(t: Seq<char>, p: Seq<char>) -> bool {
    exists|i: int| occurs_at(t, p, i)
}

/// `t` with its leading whitespace removed.
pub open spec fn trim_start(t: Seq<char>) -> Seq<char>
    decreases t.len(),
{
    if t.len() > 0 && is_white(t[0]) {
        trim_start(t.drop_first())
    } else {
        t
    }
}

/// `t` with its trailing whitespace removed.
pub open spec fn trim_end(t: Seq<char>) -> Seq<char>
    decreases t.len(),
{
    if t.len() > 0 && is_white(t.last()) {
        trim_end(t.drop_last())
    } else {
        t
    }
}

/// `t` with leading and trailing whitespace removed.
pub open spec fn trimmed(t: Seq<char>) -> Seq<char> {
    trim_end(trim_start(t))
}

/// A word (a maximal run of non-whitespace) of `t` begins at `i`.
pub open spec fn word_start(t: Seq<char>, i: int) -> bool {
    0 <= i < t.len() && !is_white(t[i]) && (i == 0 || is_white(t[i - 1]))
}

/// `q` holds no whitespace.
pub open spec fn no_white(q: Seq<char>) -> bool {
    forall|k: int| 0 <= k < q.len() ==> !is_white(#[trigger] q[k])
}

/// Some whitespace-separated word of `t` begins with `q`.
pub open spec fn some_word_begins(t: Seq<char>, q: Seq<char>) -> bool {
    no_white(q) && exists|i: int| word_start(t, i) && occurs_at(t, q, i)
}

/// The number of characters before the first whitespace of `t`.
pub open spec fn run_len(t: Seq<char>) -> nat
    decreases t.len(),
{
    if t.len() > 0 && !is_white(t[0]) {
        1 + run_len(t.drop_first())
    } else {
        0
    }
}

/// The first whitespace-separated word of `t`, if it has one.
pub open spec fn first_word(t: Seq<char>) -> Option<Seq<char>> {
    let s = trim_start(t);
    if s.len() == 0 {
        None
    } else {
        Some(s.subrange(0, run_len(s) as int))
    }
}

/// The characters of a string slice, in order.
pub fn chars_of(s: &str) -> (r: Vec<char>)
    ensures
        r@ == s@,
{
    let n = s.unicode_len();
    let mut r: Vec<char> = Vec::new();
    let mut i: usize = 0;
    while i < n
        invariant
            n == s@.len(),
            i <= n,
            r@ == s@.subrange(0, i as int),
        decreases n - i,
    {
        let c = s.get_char(i);
        r.push(c);
        i = i + 1;
        assert(r@ =~= s@.subrange(0, i as int));
    }
    assert(r@ =~= s@);
    r
}

/// Whether `p` occurs in `t` at position `i`.
pub fn matches_at(t: &Vec<char>, p: &Vec<char>, i: usize) -> (r: bool)
    ensures
        r == occurs_at(t@, p@, i as int),
{
    if i > t.len() || p.len() > t.len() - i {
        return false;
    }
    let mut k: usize = 0;
    while k < p.len()
        invariant
            i + p@.len() <= t@.len(),
            t@.len() == t.len(),
            k <= p@.len(),
            forall|j: int| 0 <= j < k ==> t@[i + j] == p@[j],
        decreases p@.len() - k,
    {
        assert(i + k < t.len());
        if t[i + k] != p[k] {
            assert(t@.subrange(i as int, i + p@.len())[k as int] != p@[k as int]);
            return false;
        }
        k = k + 1;
    }
    assert(t@.subrange(i as int, i + p@.len()) =~= p@);
    true
}

/// Whether `t` begins with `p`.
pub fn starts_with(t: &Vec<char>, p: &Vec<char>) -> (r: bool)
    ensures
        r == has_prefix(t@, p@),
{
    matches_at(t, p, 0)
}

/// `i` is the first position at which `p` occurs in `t`.
pub open spec fn first_at(t: Seq<char>, p: Seq<char>, i: int) -> bool {
    occurs_at(t, p, i) && forall|j: int| 0 <= j < i ==> !occurs_at(t, p, j)
}

/// The first position at which `p` occurs in `t` (meaningful when it occurs).
pub open spec fn first_pos(t: Seq<char>, p: Seq<char>) -> int {
    choose|i: int| first_at(t, p, i)
}

/// `p` occurs in `t` exactly once when `t` is cut at non-overlapping occurrences,
/// so that splitting `t` at `p` gives two pieces.
pub open spec fn splits_in_two(t: Seq<char>, p: Seq<char>) -> bool {
    exists|i: int|
        first_at(t, p, i) && forall|j: int| j >= i + p.len() ==> !#[trigger] occurs_at(t, p, j)
}

/// The first occurrence is unique.
pub proof fn lemma_first_unique(t: Seq<char>, p: Seq<char>, i: int)
    requires
        first_at(t, p, i),
    ensures
        first_pos(t, p) == i,
{
    let k = first_pos(t, p);
    assert(first_at(t, p, k));
    if k < i {
        assert(!occurs_at(t, p, k));
    }
    if i < k {
        assert(!occurs_at(t, p, i));
    }
}

/// The first position at or after `from` at which `p` occurs in `t`.
pub fn find_from(t: &Vec<char>, p: &Vec<char>, from: usize) -> (r: Option<usize>)
    ensures
        match r {
            Some(i) => from <= i && occurs_at(t@, p@, i as int) && forall|j: int|
                from <= j < i ==> !occurs_at(t@, p@, j),
            None => forall|j: int| j >= from ==> !occurs_at(t@, p@, j),
        },
{
    if p.len() > t.len() || from > t.len() - p.len() {
        return None;
    }
    let last = t.len() - p.len();
    let mut i: usize = from;
    while i <= last
        invariant
            last + p@.len() == t@.len(),
            t@.len() == t.len(),
            from <= i <= last + 1,
            forall|j: int| from <= j < i ==> !occurs_at(t@, p@, j),
        decreases last + 1 - i,
    {
        if matches_at(t, p, i) {
            return Some(i);
        }
        if i == last {
            return None;
        }
        i = i + 1;
    }
    None
}

/// Whether `p` occurs anywhere in `t`.
pub fn contains(t: &Vec<char>, p: &Vec<char>) -> (r: bool)
    ensures
        r == has_infix(t@, p@),
{
    match find_from(t, p, 0) {
        Some(i) => true,
        None => {
            assert forall|j: int| !occurs_at(t@, p@, j) by {
                if j >= 0 {
                }
            }
            false
        },
    }
}

/// The first position at which `p` occurs in `t`, if any.
pub fn find_first(t: &Vec<char>, p: &Vec<char>) -> (r: Option<usize>)
    ensures
        match r {
            Some(i) => first_at(t@, p@, i as int) && first_pos(t@, p@) == i,
            None => !has_infix(t@, p@),
        },
{
    match find_from(t, p, 0) {
        Some(i) => {
            proof {
                lemma_first_unique(t@, p@, i as int);
            }
            Some(i)
        },
        None => {
            assert forall|j: int| !occurs_at(t@, p@, j) by {
                if j >= 0 {
                }
            }
            None
        },
    }
}

/// Whether splitting `t` at `p` gives two pieces.
pub fn split_two(t: &Vec<char>, p: &Vec<char>) -> (r: bool)
    requires
        p@.len() > 0,
    ensures
        r == splits_in_two(t@, p@),
        r ==> first_at(t@, p@, first_pos(t@, p@)),
{
    match find_first(t, p) {
        None => false,
        Some(i) => {
            assert(occurs_at(t@, p@, i as int));
            assert(i + p.len() <= t.len());
            let later = find_from(t, p, i + p.len());
            match later {
                None => {
                    assert(first_at(t@, p@, i as int) && forall|j: int|
                        j >= i + p@.len() ==> !#[trigger] occurs_at(t@, p@, j));
                    true
                },
                Some(j) => {
                    assert forall|m: int|
                        first_at(t@, p@, m) implies !(forall|k: int|
                        k >= m + p@.len() ==> !#[trigger] occurs_at(t@, p@, k)) by {
                        lemma_first_unique(t@, p@, m);
                        assert(occurs_at(t@, p@, j as int));
                    }
                    false
                },
            }
        },
    }
}

/// Whether `a` and `b` hold the same characters.
pub fn same(a: &Vec<char>, b: &Vec<char>) -> (r: bool)
    ensures
        r == (a@ == b@),
{
    if a.len() != b.len() {
        return false;
    }
    let r = matches_at(a, b, 0);
    assert(a@ =~= a@.subrange(0, b@.len() as int));
    r
}

proof fn lemma_drop_first_sub(t: Seq<char>, i: int)
    requires
        0 <= i < t.len(),
    ensures
        t.subrange(i, t.len() as int).drop_first() == t.subrange(i + 1, t.len() as int),
{
    assert(t.subrange(i, t.len() as int).drop_first() =~= t.subrange(i + 1, t.len() as int));
}

proof fn lemma_drop_last_sub(t: Seq<char>, j: int)
    requires
        0 < j <= t.len(),
    ensures
        t.subrange(0, j).drop_last() == t.subrange(0, j - 1),
{
    assert(t.subrange(0, j).drop_last() =~= t.subrange(0, j - 1));
}

/// The bounds of `t` without its leading and trailing whitespace:
/// `trimmed(t@) == t@.subrange(r.0, r.1)`.
pub fn trim_bounds(t: &Vec<char>) -> (r: (usize, usize))
    ensures
        r.0 <= r.1 <= t@.len(),
        trim_start(t@) == t@.subrange(r.0 as int, t@.len() as int),
        trimmed(t@) == t@.subrange(r.0 as int, r.1 as int),
{
    let n = t.len();
    let mut a: usize = 0;
    assert(t@.subrange(0, n as int) =~= t@);
    while a < n && white(t[a])
        invariant
            a <= n == t@.len(),
            trim_start(t@) == trim_start(t@.subrange(a as int, n as int)),
        decreases n - a,
    {
        proof {
            lemma_drop_first_sub(t@, a as int);
        }
        a = a + 1;
    }
    let ghost s = t@.subrange(a as int, n as int);
    assert(trim_start(t@) == s);
    let mut b: usize = n;
    assert(s.subrange(0, s.len() as int) =~= s);
    while b > a && white(t[b - 1])
        invariant
            a <= b <= n == t@.len(),
            s == t@.subrange(a as int, n as int),
            trim_end(s) == trim_end(s.subrange(0, b - a)),
        decreases b,
    {
        proof {
            lemma_drop_last_sub(s, (b - a) as int);
            assert(s.subrange(0, b - a).last() == t@[b - 1]);
        }
        b = b - 1;
    }
    assert(s.subrange(0, b - a) =~= t@.subrange(a as int, b as int));
    (a, b)
}

/// Whether `q` holds no whitespace.
pub fn free_of_white(q: &Vec<char>) -> (r: bool)
    ensures
        r == no_white(q@),
{
    let mut k: usize = 0;
    while k < q.len()
        invariant
            k <= q@.len(),
            forall|j: int| 0 <= j < k ==> !is_white(q@[j]),
        decreases q@.len() - k,
    {
        if white(q[k]) {
            return false;
        }
        k = k + 1;
    }
    true
}

/// Whether some whitespace-separated word of `t` begins with `q`.
pub fn any_word_begins(t: &Vec<char>, q: &Vec<char>) -> (r: bool)
    ensures
        r == some_word_begins(t@, q@),
{
    if !free_of_white(q) {
        return false;
    }
    let mut i: usize = 0;
    while i < t.len()
        invariant
            i <= t@.len(),
            no_white(q@),
            forall|j: int| 0 <= j < i ==> !(word_start(t@, j) && occurs_at(t@, q@, j)),
        decreases t@.len() - i,
    {
        let starts = !white(t[i]) && (i == 0 || white(t[i - 1]));
        if starts && matches_at(t, q, i) {
            assert(word_start(t@, i as int) && occurs_at(t@, q@, i as int));
            return true;
        }
        i = i + 1;
    }
    false
}

/// `s` with every occurrence of `c` removed.
pub open spec fn drop_char(s: Seq<char>, c: char) -> Seq<char>
    decreases s.len(),
{
    if s.len() == 0 {
        s
    } else if s.last() == c {
        drop_char(s.drop_last(), c)
    } else {
        drop_char(s.drop_last(), c).push(s.last())
    }
}

/// The characters `t[lo..hi]`.
pub fn sub_chars(t: &Vec<char>, lo: usize, hi: usize) -> (r: Vec<char>)
    requires
        lo <= hi <= t@.len(),
    ensures
        r@ == t@.subrange(lo as int, hi as int),
{
    let mut r: Vec<char> = Vec::new();
    let mut i: usize = lo;
    while i < hi
        invariant
            lo <= i <= hi <= t@.len(),
            r@ == t@.subrange(lo as int, i as int),
        decreases hi - i,
    {
        r.push(t[i]);
        i = i + 1;
        assert(r@ =~= t@.subrange(lo as int, i as int));
    }
    r
}

/// The bounds, within `t`, of `t[lo..hi]` without its surrounding whitespace.
pub fn trim_range(t: &Vec<char>, lo: usize, hi: usize) -> (r: (usize, usize))
    requires
        lo <= hi <= t@.len(),
    ensures
        lo <= r.0 <= r.1 <= hi,
        trimmed(t@.subrange(lo as int, hi as int)) == t@.subrange(r.0 as int, r.1 as int),
{
    let part = sub_chars(t, lo, hi);
    let (a, b) = trim_bounds(&part);
    assert(part@.subrange(a as int, b as int) =~= t@.subrange(lo + a, lo + b));
    (lo + a, lo + b)
}

/// The characters `s[a..b]` as a string.
pub fn piece(s: &str, a: usize, b: usize) -> (r: String)
    requires
        a <= b <= s@.len(),
    ensures
        r@ == s@.subrange(a as int, b as int),
{
    s.substring_char(a, b).to_owned()
}

/// The characters of `s` at the positions `idx[lo..hi]`, in that order, as a string.
pub fn pick(s: &str, idx: &Vec<usize>, lo: usize, hi: usize) -> (r: String)
    requires
        lo <= hi <= idx@.len(),
        forall|k: int| lo <= k < hi ==> idx@[k] < s@.len(),
    ensures
        r@ == Seq::new((hi - lo) as nat, |k: int| s@[idx@[lo + k] as int]),
{
    let n = s.unicode_len();
    let mut r = String::new();
    let mut i: usize = lo;
    while i < hi
        invariant
            n == s@.len(),
            lo <= i <= hi <= idx@.len(),
            forall|k: int| lo <= k < hi ==> idx@[k] < s@.len(),
            r@ == Seq::new((i - lo) as nat, |k: int| s@[idx@[lo + k] as int]),
        decreases hi - i,
    {
        let j = idx[i];
        let one = s.substring_char(j, j + 1);
        r.append(one);
        i = i + 1;
        assert(r@ =~= Seq::new((i - lo) as nat, |k: int| s@[idx@[lo + k] as int]));
    }
    r
}

/// The characters of `s[from..]` other than `c`, with their positions in `s`.
pub fn without_char(t: &Vec<char>, from: usize, c: char) -> (r: (Vec<char>, Vec<usize>))
    requires
        from <= t@.len(),
    ensures
        r.0@ == drop_char(t@.subrange(from as int, t@.len() as int), c),
        r.1@.len() == r.0@.len(),
        forall|k: int| 0 <= k < r.1@.len() ==> #[trigger] r.1@[k] < t@.len(),
        forall|k: int| 0 <= k < r.1@.len() ==> t@[#[trigger] r.1@[k] as int] == r.0@[k],
{
    let mut v: Vec<char> = Vec::new();
    let mut idx: Vec<usize> = Vec::new();
    let mut i: usize = from;
    assert(t@.subrange(from as int, from as int) =~= Seq::<char>::empty());
    while i < t.len()
        invariant
            from <= i <= t@.len(),
            v@ == drop_char(t@.subrange(from as int, i as int), c),
            idx@.len() == v@.len(),
            forall|k: int| 0 <= k < idx@.len() ==> #[trigger] idx@[k] < i,
            forall|k: int| 0 <= k < idx@.len() ==> t@[#[trigger] idx@[k] as int] == v@[k],
        decreases t@.len() - i,
    {
        assert(t@.subrange(from as int, i + 1).drop_last() =~= t@.subrange(from as int, i as int));
        assert(t@.subrange(from as int, i + 1).last() == t@[i as int]);
        if t[i] != c {
            let ghost v0 = v@;
            let ghost i0 = idx@;
            v.push(t[i]);
            idx.push(i);
            assert forall|k: int| 0 <= k < idx@.len() implies #[trigger] idx@[k] < i + 1 && t@[idx@[k] as int]
                == v@[k] by {
                if k < i0.len() {
                    assert(idx@[k] == i0[k] && v@[k] == v0[k]);
                }
            }
        }
        i = i + 1;
    }
    (v, idx)
}

/// The word of `t` that begins at `i`.
pub open spec fn word_from(t: Seq<char>, i: int) -> Seq<char> {
    t.subrange(i, i + run_len(t.subrange(i, t.len() as int)))
}

proof fn lemma_run_more(t: Seq<char>, b: int)
    requires
        0 <= b < t.len(),
        !is_white(t[b]),
    ensures
        run_len(t.subrange(b, t.len() as int)) == 1 + run_len(t.subrange(b + 1, t.len() as int)),
{
    assert(t.subrange(b, t.len() as int).drop_first() =~= t.subrange(b + 1, t.len() as int));
}

/// The end of the run of non-whitespace of `t` that begins at `i`.
pub fn word_end(t: &Vec<char>, i: usize) -> (r: usize)
    requires
        i <= t@.len(),
    ensures
        i <= r <= t@.len(),
        r == i + run_len(t@.subrange(i as int, t@.len() as int)),
        t@.subrange(i as int, r as int) == word_from(t@, i as int),
{
    let n = t.len();
    let mut b: usize = i;
    while b < n && !white(t[b])
        invariant
            i <= b <= n == t@.len(),
            run_len(t@.subrange(i as int, n as int)) == (b - i) + run_len(t@.subrange(b as int, n as int)),
        decreases n - b,
    {
        proof {
            lemma_run_more(t@, b as int);
        }
        b = b + 1;
    }
    proof {
        if b < n {
            assert(t@.subrange(b as int, n as int)[0] == t@[b as int]);
        }
        assert(run_len(t@.subrange(b as int, n as int)) == 0);
    }
    b
}

/// The length of `s` in bytes of UTF-8.
pub fn byte_len(s: &str) -> (r: usize)
    ensures
        r == encode_utf8(s@).len(),
{
    s.as_bytes().len()
}

/// Lower-case form of a character sequence, as `str::to_lowercase` gives it.
pub uninterp spec fn lower_of(s: Seq<char>) -> Seq<char>;

/// Relies on `str::to_lowercase`: the result depends on the characters of `s` alone.
#[verifier::external_body]
pub(crate) fn lowercase(s: &str) -> (r: String)
    ensures
        r@ == lower_of(s@),
{
    s.to_lowercase()
}

} // verus!

use vstd::prelude::*;
use vstd::arithmetic::div_mod::{
    lemma_div_by_multiple, lemma_div_is_ordered, lemma_div_is_ordered_by_denominator,
};
use crate::ranking::{Ranked, is_top, top, top_k};

verus! {

/// The largest number of components an embedding may have.
pub const MAX_DIMENSION: usize = 4096;

/// A similarity of 1, in the millionths that similarities are counted in.
pub const UNIT: i64 = 1_000_000;

/// The fixed-point scale (2 to the 20th) at which the norm product is rooted.
pub const ROOT_SCALE: i64 = 1_048_576;

/// An embedding vector in fixed point: each component is the real value times 32767.
pub struct Embedding {
    pub values: Vec<i16>,
}

impl Embedding {
    /// The embedding has at most `MAX_DIMENSION` components.
    pub open spec fn wf(&self) -> bool {
        self.values@.len() <= MAX_DIMENSION
    }

    /// An embedding with the given components, if there are no more than `MAX_DIMENSION`.
    pub fn new(values: Vec<i16>) -> (r: Option<Embedding>)
        ensures
            r is Some <==> values@.len() <= MAX_DIMENSION,
            r matches Some(e) ==> e.values@ == values@ && e.wf(),
    {
        if values.len() <= MAX_DIMENSION {
            Some(Embedding { values })
        } else {
            None
        }
    }

    /// The number of components.
    pub fn dimension(&self) -> (r: usize)
        ensures
            r == self.values@.len(),
    {
        self.values.len()
    }
}

/// The dot product of the first `n` components of `a` and `b`.
pub open spec fn dot(a: Seq<i16>, b: Seq<i16>, n: int) -> int
    decreases n,
{
    if n <= 0 {
        0
    } else {
        dot(a, b, n - 1) + a[n - 1] * b[n - 1]
    }
}

/// The squared Euclidean norm of `a`.
pub open spec fn norm_sq(a: Seq<i16>) -> int {
    dot(a, a, a.len() as int)
}

/// `r` is the integer square root of `n`.
pub open spec fn is_root(n: int, r: int) -> bool {
    0 <= r && r * r <= n < (r + 1) * (r + 1)
}

/// The integer square root of `n`.
pub open spec fn root(n: int) -> int {
    choose|r: int| is_root(n, r)
}

/// Cosine similarity of `a` and `b` in millionths, rounded toward zero:
/// `dot(a, b) / (|a| * |b|)`, with `|a| * |b|` taken as the integer square root of
/// `norm_sq(a) * norm_sq(b) * ROOT_SCALE^2`, divided by `ROOT_SCALE`. It is 0 when
/// the dimensions differ or either norm is 0.
pub open spec fn cosine(a: Seq<i16>, b: Seq<i16>) -> int {
    if a.len() != b.len() || norm_sq(a) == 0 || norm_sq(b) == 0 {
        0
    } else {
        let d = dot(a, b, a.len() as int);
        let r = root(norm_sq(a) * norm_sq(b) * (ROOT_SCALE * ROOT_SCALE));
        if d >= 0 {
            (UNIT * ROOT_SCALE * d) / r
        } else {
            -((UNIT * ROOT_SCALE * -d) / r)
        }
    }
}

proof fn lemma_product_bound(x: int, y: int)
    requires
        -32768 <= x <= 32767,
        -32768 <= y <= 32767,
    ensures
        -1073741824 <= x * y <= 1073741824,
{
    assert(-1073741824 <= x * y <= 1073741824) by (nonlinear_arith)
        requires
            -32768 <= x <= 32767,
            -32768 <= y <= 32767,
    ;
}

proof fn lemma_square_monotone(x: int, y: int)
    requires
        0 <= x <= y,
    ensures
        x * x <= y * y,
{
    assert(x * x <= y * y) by (nonlinear_arith)
        requires
            0 <= x <= y,
    ;
}

proof fn lemma_dot_self_nonneg(a: Seq<i16>, n: int)
    requires
        n <= a.len(),
    ensures
        dot(a, a, n) >= 0,
    decreases n,
{
    if n > 0 {
        lemma_dot_self_nonneg(a, n - 1);
        let x = a[n - 1] as int;
        assert(x * x >= 0) by (nonlinear_arith);
    }
}

proof fn lemma_dot_self_pos(a: Seq<i16>, n: int, k: int)
    requires
        n <= a.len(),
        0 <= k < n,
        a[k] != 0,
    ensures
        dot(a, a, n) > 0,
    decreases n,
{
    let x = a[n - 1] as int;
    if k == n - 1 {
        lemma_dot_self_nonneg(a, n - 1);
        assert(x * x > 0) by (nonlinear_arith)
            requires
                x != 0,
        ;
    } else {
        lemma_dot_self_pos(a, n - 1, k);
        assert(x * x >= 0) by (nonlinear_arith);
    }
}

proof fn lemma_root_exists(n: int)
    requires
        n >= 0,
    ensures
        exists|r: int| #[trigger] is_root(n, r),
    decreases n,
{
    if n == 0 {
        assert(is_root(0, 0));
    } else {
        lemma_root_exists(n - 1);
        let r = choose|r: int| #[trigger] is_root(n - 1, r);
        if n < (r + 1) * (r + 1) {
            assert(is_root(n, r));
        } else {
            assert(n == (r + 1) * (r + 1));
            assert(n < (r + 2) * (r + 2)) by (nonlinear_arith)
                requires
                    r >= 0,
                    n == (r + 1) * (r + 1),
            ;
            assert(is_root(n, r + 1));
        }
    }
}

proof fn lemma_root_unique(n: int, r: int)
    requires
        is_root(n, r),
    ensures
        root(n) == r,
{
    let s = root(n);
    assert(is_root(n, s));
    if s < r {
        lemma_square_monotone(s + 1, r);
    }
    if r < s {
        lemma_square_monotone(r + 1, s);
    }
}

/// The dot product of `a` and `b`.
pub fn dot_product(a: &Vec<i16>, b: &Vec<i16>) -> (r: i64)
    requires
        a@.len() == b@.len(),
        a@.len() <= MAX_DIMENSION,
    ensures
        r == dot(a@, b@, a@.len() as int),
        -4398046511104 <= r <= 4398046511104,
{
    let mut acc: i64 = 0;
    let mut i: usize = 0;
    while i < a.len()
        invariant
            a@.len() == b@.len() <= MAX_DIMENSION,
            i <= a@.len(),
            acc == dot(a@, b@, i as int),
            -1073741824 * i <= acc <= 1073741824 * i,
        decreases a@.len() - i,
    {
        proof {
            lemma_product_bound(a@[i as int] as int, b@[i as int] as int);
        }
        acc = acc + (a[i] as i64) * (b[i] as i64);
        i = i + 1;
    }
    acc
}

/// The integer square root of `n`.
pub fn int_root(n: u128) -> (r: u64)
    requires
        n <= 21267647932558653966460912964485513216,
    ensures
        is_root(n as int, r as int),
{
    // The bound on n is 2 to the 124th; 4611686018427387905 is 2 to the 62nd plus one.
    let mut lo: u128 = 0;
    let mut hi: u128 = 4611686018427387905;
    assert(n < hi * hi) by (nonlinear_arith)
        requires
            n <= 21267647932558653966460912964485513216,
            hi == 4611686018427387905,
    ;
    while hi - lo > 1
        invariant
            lo < hi <= 4611686018427387905,
            lo * lo <= n,
            n < hi * hi,
        decreases hi - lo,
    {
        let mid = lo + (hi - lo) / 2;
        assert(mid * mid <= 4611686018427387905 * 4611686018427387905) by (nonlinear_arith)
            requires
                mid <= 4611686018427387905,
        ;
        if mid * mid <= n {
            lo = mid;
        } else {
            hi = mid;
        }
    }
    assert(hi == lo + 1);
    lo as u64
}

/// Cosine similarity of two embeddings, in millionths (see `cosine`).
pub fn cosine_similarity(a: &Embedding, b: &Embedding) -> (r: i128)
    requires
        a.wf(),
        b.wf(),
    ensures
        r == cosine(a.values@, b.values@),
{
    if a.values.len() != b.values.len() {
        return 0;
    }
    let d = dot_product(&a.values, &b.values);
    let na = dot_product(&a.values, &a.values);
    let nb = dot_product(&b.values, &b.values);
    if na == 0 || nb == 0 {
        return 0;
    }
    proof {
        lemma_dot_self_nonneg(a.values@, a.values@.len() as int);
        lemma_dot_self_nonneg(b.values@, b.values@.len() as int);
    }
    assert((na as int) * (nb as int) * 1099511627776 <= 21267647932558653966460912964485513216)
        by (nonlinear_arith)
        requires
            0 < na <= 4398046511104,
            0 < nb <= 4398046511104,
    ;
    let m = (na as u128) * (nb as u128) * 1099511627776u128;
    let root_m = int_root(m);
    proof {
        assert(ROOT_SCALE * ROOT_SCALE == 1099511627776);
        lemma_root_unique(m as int, root_m as int);
        assert(m >= 1) by (nonlinear_arith)
            requires
                na >= 1,
                nb >= 1,
                m == na * nb * 1099511627776,
        ;
        if root_m == 0 {
            assert((root_m + 1) * (root_m + 1) == 1);
        }
        assert(root_m > 0);
    }
    let mag: u128 = if d >= 0 {
        d as u128
    } else {
        (-(d as i128)) as u128
    };
    assert(mag <= 4398046511104);
    assert(1048576000000 * mag <= 4611686018427387904000000000000) by (nonlinear_arith)
        requires
            mag <= 4398046511104,
    ;
    assert(UNIT * ROOT_SCALE == 1048576000000);
    let scaled: u128 = 1048576000000u128 * mag;
    let q: u128 = scaled / (root_m as u128);
    proof {
        lemma_div_is_ordered_by_denominator(scaled as int, 1, root_m as int);
        lemma_div_by_multiple(scaled as int, 1);
        assert(q <= 4611686018427387904000000000000);
    }
    if d >= 0 {
        q as i128
    } else {
        -(q as i128)
    }
}

/// A non-zero vector is fully similar to itself.
pub proof fn lemma_self_similarity(v: Seq<i16>, k: int)
    requires
        0 <= k < v.len(),
        v[k] != 0,
    ensures
        cosine(v, v) == UNIT,
{
    let n = norm_sq(v);
    lemma_dot_self_pos(v, v.len() as int, k);
    let kk = ROOT_SCALE * ROOT_SCALE;
    let s = n * ROOT_SCALE;
    assert(s * s == n * n * kk) by (nonlinear_arith)
        requires
            s == n * ROOT_SCALE,
            kk == ROOT_SCALE * ROOT_SCALE,
    ;
    assert(is_root(n * n * kk, s)) by (nonlinear_arith)
        requires
            n > 0,
            s == n * ROOT_SCALE,
            s * s == n * n * kk,
    ;
    lemma_root_unique(n * n * kk, s);
    assert(UNIT * ROOT_SCALE * n == UNIT * s) by (nonlinear_arith)
        requires
            s == n * ROOT_SCALE,
    ;
    assert(s > 0) by (nonlinear_arith)
        requires
            n > 0,
            s == n * ROOT_SCALE,
    ;
    lemma_div_by_multiple(UNIT as int, s);
    assert((UNIT as int * s) / s == UNIT);
}

/// Vectors of different dimensions have similarity zero.
pub proof fn lemma_mismatch_similarity(v: Seq<i16>, w: Seq<i16>)
    requires
        v.len() != w.len(),
    ensures
        cosine(v, w) == 0,
{
}

proof fn lemma_cross_term(a: int, b: int, d: int, x: int, y: int)
    requires
        a >= 0,
        b >= 0,
        d * d <= a * b,
    ensures
        2 * d * x * y <= a * y * y + b * x * x,
{
    let p = a * y * y;
    let q = b * x * x;
    let t = 2 * d * x * y;
    assert(p >= 0 && q >= 0) by (nonlinear_arith)
        requires
            a >= 0,
            b >= 0,
            p == a * y * y,
            q == b * x * x,
    ;
    assert((p + q) * (p + q) >= 4 * p * q) by (nonlinear_arith);
    assert(4 * p * q == 4 * (a * b) * ((x * y) * (x * y))) by (nonlinear_arith)
        requires
            p == a * y * y,
            q == b * x * x,
    ;
    assert(4 * (a * b) * ((x * y) * (x * y)) >= 4 * (d * d) * ((x * y) * (x * y))) by (nonlinear_arith)
        requires
            d * d <= a * b,
    ;
    assert(4 * (d * d) * ((x * y) * (x * y)) == t * t) by (nonlinear_arith)
        requires
            t == 2 * d * x * y,
    ;
    if t > p + q {
        assert(t * t > (p + q) * (p + q)) by (nonlinear_arith)
            requires
                t > p + q,
                p + q >= 0,
        ;
    }
}

/// The Cauchy-Schwarz inequality on the first `n` components.
proof fn lemma_cauchy_schwarz(a: Seq<i16>, b: Seq<i16>, n: int)
    requires
        0 <= n <= a.len(),
        n <= b.len(),
    ensures
        dot(a, b, n) * dot(a, b, n) <= dot(a, a, n) * dot(b, b, n),
    decreases n,
{
    if n > 0 {
        lemma_cauchy_schwarz(a, b, n - 1);
        lemma_dot_self_nonneg(a, n - 1);
        lemma_dot_self_nonneg(b, n - 1);
        let d = dot(a, b, n - 1);
        let na = dot(a, a, n - 1);
        let nb = dot(b, b, n - 1);
        let x = a[n - 1] as int;
        let y = b[n - 1] as int;
        lemma_cross_term(na, nb, d, x, y);
        assert((d + x * y) * (d + x * y) == d * d + 2 * d * x * y + (x * y) * (x * y))
            by (nonlinear_arith);
        let xx = x * x;
        let yy = y * y;
        assert((na + xx) * (nb + yy) == na * nb + na * yy + nb * xx + xx * yy) by (nonlinear_arith);
        assert(xx * yy == (x * y) * (x * y)) by (nonlinear_arith)
            requires
                xx == x * x,
                yy == y * y,
        ;
        assert(na * yy == na * y * y && nb * xx == nb * x * x) by (nonlinear_arith)
            requires
                xx == x * x,
                yy == y * y,
        ;
    }
}

/// Every similarity lies between -1 and 1.
pub proof fn lemma_cosine_bounded(a: Seq<i16>, b: Seq<i16>)
    ensures
        -UNIT <= cosine(a, b) <= UNIT,
{
    if a.len() == b.len() && norm_sq(a) != 0 && norm_sq(b) != 0 {
        let n = a.len() as int;
        let d = dot(a, b, n);
        lemma_cauchy_schwarz(a, b, n);
        lemma_dot_self_nonneg(a, n);
        lemma_dot_self_nonneg(b, n);
        let kk = ROOT_SCALE * ROOT_SCALE;
        let m = norm_sq(a) * norm_sq(b) * kk;
        let mag = if d >= 0 {
            d
        } else {
            -d
        };
        let s = mag * ROOT_SCALE;
        assert(mag * mag == d * d) by (nonlinear_arith)
            requires
                mag == d || mag == -d,
        ;
        assert(s * s <= m) by (nonlinear_arith)
            requires
                mag * mag == d * d,
                d * d <= norm_sq(a) * norm_sq(b),
                s == mag * ROOT_SCALE,
                m == norm_sq(a) * norm_sq(b) * kk,
                kk == ROOT_SCALE * ROOT_SCALE,
        ;
        assert(exists|r: int| #[trigger] is_root(m, r)) by {
            lemma_root_exists(m);
        }
        let r = root(m);
        assert(is_root(m, r));
        if s > r {
            lemma_square_monotone(r + 1, s);
        }
        assert(s <= r);
        assert(r > 0) by {
            assert(m >= 1) by (nonlinear_arith)
                requires
                    norm_sq(a) >= 1,
                    norm_sq(b) >= 1,
                    m == norm_sq(a) * norm_sq(b) * kk,
                    kk == ROOT_SCALE * ROOT_SCALE,
            ;
            assert(m < (r + 1) * (r + 1));
            if r == 0 {
                assert((r + 1) * (r + 1) == 1) by (nonlinear_arith)
                    requires
                        r == 0,
                ;
            }
        }
        assert(UNIT * ROOT_SCALE * mag <= UNIT * r) by (nonlinear_arith)
            requires
                s == mag * ROOT_SCALE,
                s <= r,
        ;
        assert(UNIT * ROOT_SCALE * mag >= 0) by (nonlinear_arith)
            requires
                mag >= 0,
        ;
        lemma_div_is_ordered(UNIT * ROOT_SCALE * mag, UNIT * r, r);
        lemma_div_by_multiple(UNIT as int, r);
        assert((UNIT * r) / r == UNIT) by {
            assert(UNIT * r == UNIT as int * r);
        }
        vstd::arithmetic::div_mod::lemma_div_pos_is_pos(UNIT * ROOT_SCALE * mag, r);
    }
}

/// A catalog record that may carry an embedding.
pub trait Embedded {
    spec fn stored(&self) -> Option<Embedding>;

    fn stored_ref(&self) -> (r: &Option<Embedding>)
        ensures
            *r == self.stored(),
    ;
}

/// A record at `index` of a scanned catalog, with its similarity to the query.
#[derive(Clone, Copy, Debug, PartialEq, Eq, Structural)]
pub struct Hit {
    pub index: usize,
    pub similarity: i128,
}

impl Ranked for Hit {
    open spec fn rank(&self) -> int {
        self.similarity as int
    }

    fn rank_of(&self) -> (r: i128) {
        self.similarity
    }
}

/// A stored vector is compared with the query `q`: it is non-empty and of the
/// query's dimension.
pub open spec fn comparable(q: Seq<i16>, e: Option<Embedding>) -> bool {
    match e {
        Some(v) => v.values@.len() > 0 && v.values@.len() == q.len(),
        None => false,
    }
}

/// The hits among the first `n` items, in scan order: each comparable record whose
/// similarity to `q` is at least `threshold`.
pub open spec fn scan<T: Embedded>(q: Seq<i16>, items: Seq<T>, threshold: int, n: int) -> Seq<Hit>
    decreases n,
{
    if n <= 0 {
        Seq::empty()
    } else {
        let prev = scan(q, items, threshold, n - 1);
        let e = items[n - 1].stored();
        if comparable(q, e) && cosine(q, e->0.values@) >= threshold {
            prev.push(Hit { index: (n - 1) as usize, similarity: cosine(q, e->0.values@) as i128 })
        } else {
            prev
        }
    }
}

/// Every hit of a scan of the first `n` items names one of them.
pub proof fn lemma_scan_indices<T: Embedded>(q: Seq<i16>, items: Seq<T>, threshold: int, n: int)
    requires
        n <= items.len(),
    ensures
        forall|h: Hit| #[trigger] scan(q, items, threshold, n).contains(h) ==> h.index < n,
    decreases n,
{
    if n > 0 {
        lemma_scan_indices(q, items, threshold, n - 1);
        let prev = scan(q, items, threshold, n - 1);
        assert forall|h: Hit| #[trigger] scan(q, items, threshold, n).contains(h) implies h.index < n by {
            let s = scan(q, items, threshold, n);
            let k = choose|k: int| 0 <= k < s.len() && s[k] == h;
            if k < prev.len() {
                assert(prev[k] == h);
                assert(prev.contains(h));
            }
        }
    }
}

/// The records of `items` whose similarity to `query` is at least `threshold`
/// (millionths), in scan order.
pub fn scan_hits<T: Embedded>(query: &Embedding, threshold: i64, items: &Vec<T>) -> (r: Vec<Hit>)
    requires
        query.wf(),
    ensures
        r@ == scan(query.values@, items@, threshold as int, items@.len() as int),
{
    let mut hits: Vec<Hit> = Vec::new();
    let mut i: usize = 0;
    while i < items.len()
        invariant
            query.wf(),
            i <= items@.len(),
            hits@ == scan(query.values@, items@, threshold as int, i as int),
        decreases items@.len() - i,
    {
        let e = items[i].stored_ref();
        match e {
            Some(v) => {
                if v.values.len() > 0 && v.values.len() == query.values.len() {
                    let s = cosine_similarity(query, v);
                    if s >= threshold as i128 {
                        hits.push(Hit { index: i, similarity: s });
                    }
                }
            },
            None => {},
        }
        i = i + 1;
    }
    hits
}

/// Nearest neighbours of `query` among `items` by a full scan: the records whose
/// similarity is at least `threshold` (millionths), highest first, at most `limit`.
pub fn similarity_search<T: Embedded>(query: &Embedding, limit: usize, threshold: i64, items: &Vec<T>) -> (r: Vec<Hit>)
    requires
        query.wf(),
    ensures
        r@ == top_k(scan(query.values@, items@, threshold as int, items@.len() as int), limit as int),
        is_top(r@, scan(query.values@, items@, threshold as int, items@.len() as int), limit as int),
{
    top(scan_hits(query, threshold, items), limit)
}

} // verus!

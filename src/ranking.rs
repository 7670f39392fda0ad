use vstd::prelude::*;
use vstd::multiset::Multiset;
use vstd::seq_lib::to_multiset_insert;

verus! {

/// Something ordered by an integer rank, highest first.
pub trait Ranked {
    spec fn rank(&self) -> int;

    fn rank_of(&self) -> (r: i128)
        ensures
            r as int == self.rank(),
    ;
}

/// `s` runs from the highest rank to the lowest.
pub open spec fn sorted_desc<T: Ranked>(s: Seq<T>) -> bool {
    forall|i: int, j: int| 0 <= i < j < s.len() ==> s[i].rank() >= s[j].rank()
}

/// `r` is the first `limit` items of the highest-first ordering `s` of `v`
/// (all of them when there are fewer).
pub open spec fn top_via<T: Ranked>(r: Seq<T>, v: Seq<T>, limit: int, s: Seq<T>) -> bool {
    s.to_multiset() == v.to_multiset() && sorted_desc(s) && r == s.take(
        if limit < s.len() {
            limit
        } else {
            s.len() as int
        },
    )
}

/// `r` is the first `limit` items of some highest-first ordering of `v`
/// (all of them when there are fewer).
pub open spec fn is_top<T: Ranked>(r: Seq<T>, v: Seq<T>, limit: int) -> bool {
    exists|s: Seq<T>| #[trigger] top_via(r, v, limit, s)
}

/// The first position of `s` whose rank is not above that of `x` (the length of `s`
/// when every rank is above).
pub open spec fn slot<T: Ranked>(s: Seq<T>, x: T) -> int
    decreases s.len(),
{
    if s.len() == 0 {
        0
    } else if s[0].rank() <= x.rank() {
        0
    } else {
        1 + slot(s.drop_first(), x)
    }
}

/// The stable highest-first ordering of `v`: each item goes before the items of
/// equal rank that follow it in `v`.
pub open spec fn stable_desc<T: Ranked>(v: Seq<T>) -> Seq<T>
    decreases v.len(),
{
    if v.len() == 0 {
        v
    } else {
        let rest = stable_desc(v.drop_first());
        rest.insert(slot(rest, v[0]), v[0])
    }
}

proof fn lemma_slot_step<T: Ranked>(s: Seq<T>, x: T, p: int)
    requires
        0 <= p < s.len(),
        s[p].rank() > x.rank(),
    ensures
        slot(s.subrange(p, s.len() as int), x) == 1 + slot(s.subrange(p + 1, s.len() as int), x),
{
    assert(s.subrange(p, s.len() as int).drop_first() =~= s.subrange(p + 1, s.len() as int));
}

/// The items of `v` from the highest rank to the lowest; items of equal rank keep
/// their order in `v`.
pub fn rank_desc<T: Ranked>(v: Vec<T>) -> (r: Vec<T>)
    ensures
        r@ == stable_desc(v@),
        sorted_desc(r@),
        r@.to_multiset() == v@.to_multiset(),
{
    broadcast use vstd::multiset::group_multiset_axioms;
    broadcast use vstd::multiset::group_multiset_properties;
    broadcast use vstd::multiset::lemma_multiset_empty_len;
    broadcast use vstd::seq_lib::group_to_multiset_ensures;

    let ghost orig = v@;
    let mut rest = v;
    let mut r: Vec<T> = Vec::new();
    proof {
        assert(orig.subrange(0, orig.len() as int) =~= orig);
        assert(r@.to_multiset().len() == 0);
        assert(r@.to_multiset() =~= Multiset::empty());
        assert(rest@.to_multiset().add(r@.to_multiset()) =~= orig.to_multiset());
    }
    while rest.len() > 0
        invariant
            sorted_desc(r@),
            rest@.to_multiset().add(r@.to_multiset()) == orig.to_multiset(),
            rest@.len() <= orig.len(),
            rest@ == orig.subrange(0, rest@.len() as int),
            r@ == stable_desc(orig.subrange(rest@.len() as int, orig.len() as int)),
        decreases rest@.len(),
    {
        let ghost before = rest@;
        let x = rest.pop().unwrap();
        proof {
            assert(before =~= rest@.push(x));
            vstd::seq_lib::to_multiset_build(rest@, x);
            assert(before.to_multiset() =~= rest@.to_multiset().insert(x));
            let n = orig.len() as int;
            let suffix = orig.subrange(rest@.len() as int, n);
            let before_suffix = orig.subrange((rest@.len() + 1) as int, n);
            assert(before[rest@.len() as int] == x);
            assert(orig[rest@.len() as int] == orig.subrange(0, before.len() as int)[rest@.len() as int]);
            assert(suffix.drop_first() =~= before_suffix);
            assert(suffix[0] == x);
        }
        let kx = x.rank_of();
        let mut p: usize = 0;
        assert(r@.subrange(0, r@.len() as int) =~= r@);
        while p < r.len() && r[p].rank_of() > kx
            invariant
                p <= r@.len(),
                kx as int == x.rank(),
                forall|k: int| 0 <= k < p ==> r@[k].rank() > x.rank(),
                slot(r@, x) == p + slot(r@.subrange(p as int, r@.len() as int), x),
            decreases r@.len() - p,
        {
            proof {
                lemma_slot_step(r@, x, p as int);
            }
            p = p + 1;
        }
        proof {
            let tail = r@.subrange(p as int, r@.len() as int);
            if p < r@.len() {
                assert(tail[0] == r@[p as int]);
            }
            assert(slot(tail, x) == 0);
        }
        let ghost r0 = r@;
        r.insert(p, x);
        proof {
            to_multiset_insert(r0, p as int, x);
            assert(r@ == r0.insert(p as int, x));
            assert forall|i: int, j: int| 0 <= i < j < r@.len() implies r@[i].rank()
                >= r@[j].rank() by {
                if j < p {
                } else if j == p {
                } else if i < p {
                    assert(r@[j] == r0[j - 1]);
                    if p < r0.len() {
                        assert(r0[p as int].rank() <= x.rank());
                        assert(r0[p as int].rank() >= r0[j - 1].rank());
                    }
                } else if i == p {
                    assert(r@[j] == r0[j - 1]);
                    assert(r0[p as int].rank() <= x.rank());
                    assert(r0[p as int].rank() >= r0[j - 1].rank());
                } else {
                    assert(r@[i] == r0[i - 1]);
                    assert(r@[j] == r0[j - 1]);
                }
            }
            assert(rest@.to_multiset().add(r@.to_multiset()) =~= orig.to_multiset());
            assert(rest@ =~= orig.subrange(0, rest@.len() as int));
            assert(r@ == stable_desc(orig.subrange(rest@.len() as int, orig.len() as int)));
        }
    }
    proof {
        assert(rest@.to_multiset().len() == 0);
        assert(orig.subrange(0, orig.len() as int) =~= orig);
        assert(r@.to_multiset() =~= orig.to_multiset());
    }
    r
}

/// The first `limit` items of the stable highest-first ordering of `v` (all of them
/// when there are fewer).
pub open spec fn top_k<T: Ranked>(v: Seq<T>, limit: int) -> Seq<T> {
    stable_desc(v).take(
        if limit < v.len() {
            limit
        } else {
            v.len() as int
        },
    )
}

/// The `limit` highest-ranked items of `v`, highest first; items of equal rank keep
/// their order in `v`.
pub fn top<T: Ranked>(v: Vec<T>, limit: usize) -> (r: Vec<T>)
    ensures
        r@ == top_k(v@, limit as int),
        is_top(r@, v@, limit as int),
        r@.len() == if limit < v@.len() {
            limit as int
        } else {
            v@.len() as int
        },
        sorted_desc(r@),
{
    broadcast use vstd::seq_lib::to_multiset_len;

    let mut s = rank_desc(v);
    let ghost whole = s@;
    s.truncate(limit);
    proof {
        assert(whole.to_multiset().len() == whole.len());
        assert(v@.to_multiset().len() == v@.len());
        let k = if (limit as int) < whole.len() {
            limit as int
        } else {
            whole.len() as int
        };
        assert(s@ =~= whole.take(k));
        assert(top_via(s@, v@, limit as int, whole));
    }
    s
}

/// Every item of a top selection is an item of the whole.
pub proof fn lemma_top_members<T: Ranked>(r: Seq<T>, v: Seq<T>, limit: int)
    requires
        is_top(r, v, limit),
        limit >= 0,
    ensures
        forall|i: int| 0 <= i < r.len() ==> v.contains(#[trigger] r[i]),
{
    broadcast use vstd::seq_lib::group_to_multiset_ensures;

    let s = choose|s: Seq<T>| #[trigger] top_via(r, v, limit, s);
    assert(top_via(r, v, limit, s));
    let k = if limit < s.len() {
        limit
    } else {
        s.len() as int
    };
    assert(r == s.take(k));
    assert forall|i: int| 0 <= i < r.len() implies v.contains(#[trigger] r[i]) by {
        assert(r[i] == s.take(k)[i]);
        assert(r[i] == s[i]);
        assert(s.contains(s[i]));
        assert(s.to_multiset().count(s[i]) > 0);
        assert(v.to_multiset().count(r[i]) > 0);
    }
}

} // verus!

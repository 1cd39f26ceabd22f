//! Order-independence of a group's pair count.

use vstd::prelude::*;
use crate::particle::Particle;

verus! {

/// A relation on entities that does not depend on the order of its two
/// arguments, as the proximity test does not: the distance from one entity
/// to another is the distance back.
pub open spec fn symmetric(r: spec_fn(Particle, Particle) -> bool) -> bool {
    forall|a: Particle, b: Particle| #[trigger] r(a, b) == r(b, a)
}

/// How many entities of `s` stand in relation `r` to the entity `x`.
pub open spec fn rel_count(s: Seq<Particle>, x: Particle, r: spec_fn(Particle, Particle) -> bool) -> nat
    decreases s.len(),
{
    if s.len() == 0 {
        0
    } else {
        rel_count(s.drop_last(), x, r) + (if r(s.last(), x) {
            1nat
        } else {
            0nat
        })
    }
}

/// The pair count of one group: the number of unordered index pairs
/// `(i, j)` with `i < j` whose two entities stand in relation `r` — for the
/// benchmark, the pairs whose squared distance lies below the threshold.
pub open spec fn group_pair_count(s: Seq<Particle>, r: spec_fn(Particle, Particle) -> bool) -> nat
    decreases s.len(),
{
    if s.len() == 0 {
        0
    } else {
        group_pair_count(s.drop_last(), r) + rel_count(s.drop_last(), s.last(), r)
    }
}

/// Removing one entity from the sequence removes exactly its own
/// contribution to the count of entities related to `x`.
pub proof fn lemma_rel_count_remove(
    s: Seq<Particle>,
    x: Particle,
    r: spec_fn(Particle, Particle) -> bool,
    m: int,
)
    requires
        0 <= m < s.len(),
    ensures
        rel_count(s, x, r) == rel_count(s.remove(m), x, r) + (if r(s[m], x) {
            1nat
        } else {
            0nat
        }),
    decreases s.len(),
{
    if m == s.len() - 1 {
        assert(s.remove(m) =~= s.drop_last());
    } else {
        lemma_rel_count_remove(s.drop_last(), x, r, m);
        assert(s.remove(m).drop_last() =~= s.drop_last().remove(m));
        assert(s.remove(m).last() == s.last());
    }
}

proof fn lemma_rel_count_multiset(
    s1: Seq<Particle>,
    s2: Seq<Particle>,
    x: Particle,
    r: spec_fn(Particle, Particle) -> bool,
)
    requires
        s1.to_multiset() == s2.to_multiset(),
    ensures
        rel_count(s1, x, r) == rel_count(s2, x, r),
    decreases s1.len(),
{
    broadcast use vstd::seq_lib::group_to_multiset_ensures;

    if s1.len() == 0 {
        assert(s1.to_multiset().len() == s1.len());
        assert(s2.to_multiset().len() == s2.len());
        assert(s2.len() == 0);
    } else {
        let y = s1.last();
        assert(s1[s1.len() - 1] == y);
        assert(s1.contains(y));
        assert(s1.to_multiset().count(y) > 0);
        assert(s2.to_multiset().count(y) > 0);
        assert(s2.contains(y));
        let m = choose|m: int| 0 <= m < s2.len() && s2[m] == y;
        lemma_rel_count_remove(s2, x, r, m);
        assert(s1.drop_last() =~= s1.remove(s1.len() - 1));
        assert(s1.drop_last().to_multiset() == s2.remove(m).to_multiset());
        lemma_rel_count_multiset(s1.drop_last(), s2.remove(m), x, r);
    }
}

/// Removing one entity from a group removes exactly the pairs it belongs
/// to: its pairs with the remaining entities, counted by `rel_count`.
pub proof fn lemma_group_pair_count_remove(
    s: Seq<Particle>,
    r: spec_fn(Particle, Particle) -> bool,
    m: int,
)
    requires
        symmetric(r),
        0 <= m < s.len(),
    ensures
        group_pair_count(s, r) == group_pair_count(s.remove(m), r) + rel_count(
            s.remove(m),
            s[m],
            r,
        ),
    decreases s.len(),
{
    if m == s.len() - 1 {
        assert(s.remove(m) =~= s.drop_last());
    } else {
        let y = s.last();
        let t = s.drop_last();
        lemma_group_pair_count_remove(t, r, m);
        lemma_rel_count_remove(t, y, r, m);
        assert(s.remove(m).drop_last() =~= t.remove(m));
        assert(s.remove(m).last() == y);
        assert(t.remove(m).push(y).drop_last() =~= t.remove(m));
        assert(s.remove(m) =~= t.remove(m).push(y));
        lemma_rel_count_remove(s.remove(m), s[m], r, s.remove(m).len() - 1);
        assert(s.remove(m).remove(s.remove(m).len() - 1) =~= t.remove(m));
        assert(r(t[m], y) == r(y, t[m]));
        assert(r(s[m], y) == r(y, s[m]));
    }
}

/// The pair count of one group does not depend on the order of the entities
/// inside it: any two arrangements with the same entities — the same
/// multiset — yield the same count, for any relation, such as the proximity
/// test, that is indifferent to the order of its two arguments.
pub proof fn lemma_group_pair_count_permutation(
    s1: Seq<Particle>,
    s2: Seq<Particle>,
    r: spec_fn(Particle, Particle) -> bool,
)
    requires
        symmetric(r),
        s1.to_multiset() == s2.to_multiset(),
    ensures
        group_pair_count(s1, r) == group_pair_count(s2, r),
    decreases s1.len(),
{
    broadcast use vstd::seq_lib::group_to_multiset_ensures;

    if s1.len() == 0 {
        assert(s1.to_multiset().len() == s1.len());
        assert(s2.to_multiset().len() == s2.len());
        assert(s2.len() == 0);
    } else {
        let y = s1.last();
        assert(s1[s1.len() - 1] == y);
        assert(s1.contains(y));
        assert(s1.to_multiset().count(y) > 0);
        assert(s2.to_multiset().count(y) > 0);
        assert(s2.contains(y));
        let m = choose|m: int| 0 <= m < s2.len() && s2[m] == y;
        lemma_group_pair_count_remove(s2, r, m);
        assert(s1.drop_last() =~= s1.remove(s1.len() - 1));
        assert(s1.drop_last().to_multiset() == s2.remove(m).to_multiset());
        lemma_group_pair_count_permutation(s1.drop_last(), s2.remove(m), r);
        lemma_rel_count_multiset(s1.drop_last(), s2.remove(m), y, r);
    }
}

} // verus!

//! What the tally tallies: the composition of the comparison schedule with
//! the threshold decision computes, for each full group, exactly the
//! group's pair count, and across groups their sum.

use vstd::prelude::*;
use crate::particle::Particle;
use crate::partition::{lemma_group_fits, row_pairs, rows_from, schedule, schedule_from};
use crate::proximity::{proximate, proximate_count};
use crate::reorder::{
    group_pair_count, lemma_group_pair_count_remove, lemma_rel_count_remove, rel_count, symmetric,
};

verus! {

/// Whether the two entities an index pair points at stand in relation `r`.
pub open spec fn pair_holds(
    p: (int, int),
    s: Seq<Particle>,
    r: spec_fn(Particle, Particle) -> bool,
) -> bool {
    r(s[p.0], s[p.1])
}

/// How many pairs of a schedule point at entities standing in relation `r`.
pub open spec fn pairs_holding(
    ps: Seq<(int, int)>,
    s: Seq<Particle>,
    r: spec_fn(Particle, Particle) -> bool,
) -> nat
    decreases ps.len(),
{
    if ps.len() == 0 {
        0
    } else {
        pairs_holding(ps.drop_last(), s, r) + (if pair_holds(ps.last(), s, r) {
            1nat
        } else {
            0nat
        })
    }
}

/// The pair counts of groups `g` onward, summed: group `g` spans entities
/// `g * k` through `g * k + k - 1`, and only the `s.len() / k` full groups
/// contribute.
pub open spec fn group_counts_from(
    s: Seq<Particle>,
    k: int,
    g: int,
    r: spec_fn(Particle, Particle) -> bool,
) -> nat
    decreases s.len() as int / k - g,
{
    if k < 1 || g < 0 || g >= s.len() as int / k {
        0
    } else {
        group_pair_count(s.subrange(g * k, g * k + k), r) + group_counts_from(s, k, g + 1, r)
    }
}

proof fn lemma_pairs_holding_concat(
    a: Seq<(int, int)>,
    b: Seq<(int, int)>,
    s: Seq<Particle>,
    r: spec_fn(Particle, Particle) -> bool,
)
    ensures
        pairs_holding(a + b, s, r) == pairs_holding(a, s, r) + pairs_holding(b, s, r),
    decreases b.len(),
{
    if b.len() == 0 {
        assert(a + b =~= a);
    } else {
        assert((a + b).drop_last() =~= a + b.drop_last());
        assert((a + b).last() == b.last());
        lemma_pairs_holding_concat(a, b.drop_last(), s, r);
    }
}

proof fn lemma_proximate_count_matches(
    dists: Seq<u32>,
    ps: Seq<(int, int)>,
    s: Seq<Particle>,
    r: spec_fn(Particle, Particle) -> bool,
)
    requires
        dists.len() == ps.len(),
        forall|t: int| 0 <= t < dists.len() ==> proximate(dists[t]) == pair_holds(ps[t], s, r),
    ensures
        proximate_count(dists) == pairs_holding(ps, s, r),
    decreases dists.len(),
{
    if dists.len() > 0 {
        assert(proximate(dists[dists.len() - 1]) == pair_holds(ps[ps.len() - 1], s, r));
        lemma_proximate_count_matches(dists.drop_last(), ps.drop_last(), s, r);
    }
}

proof fn lemma_row_pairs_holding(
    s: Seq<Particle>,
    r: spec_fn(Particle, Particle) -> bool,
    i: int,
    j: int,
    end: int,
)
    requires
        symmetric(r),
        0 <= i,
        0 <= j <= end,
        end <= s.len(),
    ensures
        pairs_holding(row_pairs(i, j, end), s, r) == rel_count(s.subrange(j, end), s[i], r),
    decreases end - j,
{
    if j == end {
    } else {
        lemma_row_pairs_holding(s, r, i, j + 1, end);
        lemma_pairs_holding_concat(seq![(i, j)], row_pairs(i, j + 1, end), s, r);
        assert(row_pairs(i, j, end) == seq![(i, j)] + row_pairs(i, j + 1, end));
        assert(seq![(i, j)].drop_last() =~= Seq::<(int, int)>::empty());
        assert(pairs_holding(Seq::<(int, int)>::empty(), s, r) == 0);
        assert(seq![(i, j)].last() == (i, j));
        assert(pairs_holding(seq![(i, j)], s, r) == (if pair_holds((i, j), s, r) {
            1nat
        } else {
            0nat
        }));
        let t = s.subrange(j, end);
        lemma_rel_count_remove(t, s[i], r, 0);
        assert(t.remove(0) =~= s.subrange(j + 1, end));
        assert(t[0] == s[j]);
        assert(r(s[j], s[i]) == r(s[i], s[j]));
    }
}

proof fn lemma_rows_from_holding(
    s: Seq<Particle>,
    r: spec_fn(Particle, Particle) -> bool,
    i: int,
    end: int,
)
    requires
        symmetric(r),
        0 <= i <= end,
        end <= s.len(),
    ensures
        pairs_holding(rows_from(i, end), s, r) == group_pair_count(s.subrange(i, end), r),
    decreases end - i,
{
    if i == end {
    } else {
        lemma_rows_from_holding(s, r, i + 1, end);
        lemma_pairs_holding_concat(row_pairs(i, i + 1, end), rows_from(i + 1, end), s, r);
        lemma_row_pairs_holding(s, r, i, i + 1, end);
        let t = s.subrange(i, end);
        lemma_group_pair_count_remove(t, r, 0);
        assert(t.remove(0) =~= s.subrange(i + 1, end));
        assert(t[0] == s[i]);
    }
}

proof fn lemma_schedule_holding(
    s: Seq<Particle>,
    k: int,
    r: spec_fn(Particle, Particle) -> bool,
    g: int,
)
    requires
        symmetric(r),
        k >= 1,
        g >= 0,
    ensures
        pairs_holding(schedule_from(s.len() as int, k, g), s, r) == group_counts_from(s, k, g, r),
    decreases s.len() as int / k - g,
{
    let n = s.len() as int;
    if g >= n / k {
    } else {
        lemma_group_fits(n, k, g);
        lemma_pairs_holding_concat(
            rows_from(g * k, g * k + k),
            schedule_from(n, k, g + 1),
            s,
            r,
        );
        lemma_rows_from_holding(s, r, g * k, g * k + k);
        lemma_schedule_holding(s, k, r, g + 1);
    }
}

/// What the pipeline computes: when each squared distance of `dists`
/// reports, through the threshold test, whether the corresponding scheduled
/// pair of entities stands in the (symmetric) relation `r`, then the tally
/// of proximate entries is exactly the sum, over the full groups, of each
/// group's pair count under `r`.  Cross-group pairs and the trailing
/// remainder contribute nothing, because the schedule never lists them.
pub proof fn lemma_tally_counts_group_pairs(
    s: Seq<Particle>,
    k: int,
    dists: Seq<u32>,
    r: spec_fn(Particle, Particle) -> bool,
)
    requires
        symmetric(r),
        k >= 1,
        dists.len() == schedule(s.len() as int, k).len(),
        forall|t: int|
            0 <= t < dists.len() ==> proximate(dists[t]) == pair_holds(
                schedule(s.len() as int, k)[t],
                s,
                r,
            ),
    ensures
        proximate_count(dists) == group_counts_from(s, k, 0, r),
{
    lemma_proximate_count_matches(dists, schedule(s.len() as int, k), s, r);
    lemma_schedule_holding(s, k, r, 0);
}

/// The single-group case: with the cluster size equal to the entity count,
/// the tally is the pair count of the whole sequence — the per-group
/// contract of the proximity counter.
pub proof fn lemma_single_group_tally(
    s: Seq<Particle>,
    dists: Seq<u32>,
    r: spec_fn(Particle, Particle) -> bool,
)
    requires
        symmetric(r),
        s.len() >= 1,
        dists.len() == schedule(s.len() as int, s.len() as int).len(),
        forall|t: int|
            0 <= t < dists.len() ==> proximate(dists[t]) == pair_holds(
                schedule(s.len() as int, s.len() as int)[t],
                s,
                r,
            ),
    ensures
        proximate_count(dists) == group_pair_count(s, r),
{
    let n = s.len() as int;
    lemma_tally_counts_group_pairs(s, n, dists, r);
    vstd::arithmetic::div_mod::lemma_div_by_self(n);
    assert(group_counts_from(s, n, 1, r) == 0);
    assert(group_counts_from(s, n, 0, r) == group_pair_count(s.subrange(0, n), r)
        + group_counts_from(s, n, 1, r));
    assert(s.subrange(0, n) =~= s);
}

} // verus!

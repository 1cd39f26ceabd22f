//! The partitioner: groups, their bounds, and the schedule of compared pairs.

use vstd::prelude::*;
use crate::particle::Particle;

verus! {

/// The one configuration fault the benchmark can report: a cluster size of
/// zero, which admits no grouping at all.
#[derive(Clone, Copy, Debug, PartialEq, Eq)]
pub enum ProcessError {
    /// The requested cluster size was zero.
    InvalidConfiguration,
}

/// How many full groups a sequence of `count` entities yields at cluster
/// size `cluster_size`: exactly `count / cluster_size`, the trailing
/// remainder of fewer than `cluster_size` entities forming no group.
/// A cluster size of zero is a configuration fault, never a division fault.
pub fn num_groups(count: usize, cluster_size: usize) -> (r: Result<usize, ProcessError>)
    ensures
        cluster_size == 0 <==> r is Err,
        r is Err ==> (r matches Err(e) && e is InvalidConfiguration),
        cluster_size >= 1 ==> (r matches Ok(g) && g == count as int / cluster_size as int),
{
    if cluster_size == 0 {
        Err(ProcessError::InvalidConfiguration)
    } else {
        Ok(count / cluster_size)
    }
}

/// Whether the pair `(i, j)` is one the benchmark compares when `n` entities
/// are grouped at cluster size `k`: the indices are in order, both fall
/// before the trailing remainder (the first `(n / k) * k` entities), and
/// both land in the same group of `k`.
pub open spec fn compared(i: int, j: int, n: int, k: int) -> bool {
    &&& k >= 1
    &&& 0 <= i < j < n
    &&& j < (n / k) * k
    &&& i / k == j / k
}

/// One row of a group's comparison schedule: entity `i` against each later
/// entity of its group in turn, `j` through `end - 1`.
pub open spec fn row_pairs(i: int, j: int, end: int) -> Seq<(int, int)>
    decreases end - j,
{
    if j >= end {
        Seq::empty()
    } else {
        seq![(i, j)] + row_pairs(i, j + 1, end)
    }
}

/// The comparison schedule of one group spanning indices `i` through
/// `end - 1`: the row of each member against all later members, in order.
pub open spec fn rows_from(i: int, end: int) -> Seq<(int, int)>
    decreases end - i,
{
    if i >= end {
        Seq::empty()
    } else {
        row_pairs(i, i + 1, end) + rows_from(i + 1, end)
    }
}

/// The comparison schedules of groups `g` onward, in group order, when `n`
/// entities are grouped at cluster size `k`.
pub open spec fn schedule_from(n: int, k: int, g: int) -> Seq<(int, int)>
    decreases n / k - g,
{
    if k < 1 || g < 0 || g >= n / k {
        Seq::empty()
    } else {
        rows_from(g * k, g * k + k) + schedule_from(n, k, g + 1)
    }
}

/// The full comparison schedule: every within-group pair of every full
/// group, groups left to right, and within a group each member against all
/// later members.  Remainder entities past the last full group appear in no
/// pair.
pub open spec fn schedule(n: int, k: int) -> Seq<(int, int)> {
    schedule_from(n, k, 0)
}

/// The index pairs of an executable schedule, widened for comparison with
/// the specification-level schedule.
pub open spec fn pairs_view(s: Seq<(usize, usize)>) -> Seq<(int, int)> {
    s.map_values(|p: (usize, usize)| (p.0 as int, p.1 as int))
}

/// Builds the comparison schedule for the given entities: for each full
/// group of `cluster_size`, every unordered index pair inside that group,
/// in scan order.  The trailing remainder of fewer than `cluster_size`
/// entities contributes no pair.  A cluster size of zero is the
/// configuration fault, reported rather than dividing by zero.
pub fn comparison_schedule(particles: &Vec<Particle>, cluster_size: usize) -> (r: Result<
    Vec<(usize, usize)>,
    ProcessError,
>)
    ensures
        cluster_size == 0 <==> r is Err,
        r is Err ==> (r matches Err(e) && e is InvalidConfiguration),
        r matches Ok(v) ==> pairs_view(v@) == schedule(
            particles@.len() as int,
            cluster_size as int,
        ),
{
    if cluster_size == 0 {
        return Err(ProcessError::InvalidConfiguration);
    }
    let n: usize = particles.len();
    let k: usize = cluster_size;
    let groups: usize = n / k;
    let ghost ni: int = n as int;
    let ghost ki: int = k as int;
    let mut v: Vec<(usize, usize)> = Vec::new();
    let mut g: usize = 0;
    while g < groups
        invariant
            1 <= ki,
            ni == n,
            ki == k,
            groups == ni / ki,
            g <= groups,
            pairs_view(v@) + schedule_from(ni, ki, g as int) == schedule(ni, ki),
        decreases groups - g,
    {
        proof {
            lemma_group_fits(ni, ki, g as int);
        }
        let start: usize = g * k;
        let gend: usize = start + k;
        let mut i: usize = start;
        proof {
            assert(schedule_from(ni, ki, g as int) == rows_from(start as int, gend as int)
                + schedule_from(ni, ki, g as int + 1));
        }
        while i < gend
            invariant
                1 <= ki,
                ni == n,
                ki == k,
                groups == ni / ki,
                g < groups,
                start == g * k,
                gend == start + k,
                gend <= n,
                start <= i <= gend,
                pairs_view(v@) + rows_from(i as int, gend as int) + schedule_from(
                    ni,
                    ki,
                    g as int + 1,
                ) == schedule(ni, ki),
            decreases gend - i,
        {
            let mut j: usize = i + 1;
            proof {
                assert(rows_from(i as int, gend as int) == row_pairs(i as int, i as int + 1, gend as int)
                    + rows_from(i as int + 1, gend as int));
            }
            while j < gend
                invariant
                    1 <= ki,
                    ni == n,
                    ki == k,
                    groups == ni / ki,
                    g < groups,
                    start == g * k,
                    gend == start + k,
                    gend <= n,
                    start <= i < gend,
                    i < j <= gend,
                    pairs_view(v@) + row_pairs(i as int, j as int, gend as int) + rows_from(
                        i as int + 1,
                        gend as int,
                    ) + schedule_from(ni, ki, g as int + 1) == schedule(ni, ki),
                decreases gend - j,
            {
                let ghost v_old = v@;
                v.push((i, j));
                proof {
                    assert(pairs_view(v@) =~= pairs_view(v_old).push((i as int, j as int)));
                    assert(row_pairs(i as int, j as int, gend as int) == seq![(i as int, j as int)]
                        + row_pairs(i as int, j as int + 1, gend as int));
                    assert(pairs_view(v@) + row_pairs(i as int, j as int + 1, gend as int)
                        =~= pairs_view(v_old) + row_pairs(i as int, j as int, gend as int));
                }
                j = j + 1;
            }
            proof {
                assert(row_pairs(i as int, gend as int, gend as int) =~= Seq::<(int, int)>::empty());
                assert(pairs_view(v@) + rows_from(i as int + 1, gend as int) =~= pairs_view(v@)
                    + row_pairs(i as int, gend as int, gend as int) + rows_from(
                    i as int + 1,
                    gend as int,
                ));
            }
            i = i + 1;
        }
        proof {
            assert(rows_from(gend as int, gend as int) =~= Seq::<(int, int)>::empty());
            assert(pairs_view(v@) + schedule_from(ni, ki, g as int + 1) =~= pairs_view(v@)
                + rows_from(gend as int, gend as int) + schedule_from(ni, ki, g as int + 1));
        }
        g = g + 1;
    }
    proof {
        assert(schedule_from(ni, ki, groups as int) =~= Seq::<(int, int)>::empty());
        assert(pairs_view(v@) =~= pairs_view(v@) + schedule_from(ni, ki, groups as int));
    }
    Ok(v)
}

/// How many unordered pairs a group of `m` entities holds: the triangular
/// count `(m - 1) + (m - 2) + ... + 1`, that is `m * (m - 1) / 2`.
pub open spec fn pair_total(m: int) -> int
    decreases m,
{
    if m <= 0 {
        0
    } else {
        (m - 1) + pair_total(m - 1)
    }
}

proof fn lemma_pair_total_double(m: int)
    requires
        m >= 0,
    ensures
        2 * pair_total(m) == m * (m - 1),
    decreases m,
{
    if m == 0 {
    } else {
        lemma_pair_total_double(m - 1);
        assert(2 * ((m - 1) + pair_total(m - 1)) == m * (m - 1)) by (nonlinear_arith)
            requires
                2 * pair_total(m - 1) == (m - 1) * (m - 2),
        ;
    }
}

/// The triangular count in closed form.
pub proof fn lemma_pair_total_closed(m: int)
    requires
        m >= 0,
    ensures
        pair_total(m) == m * (m - 1) / 2,
{
    lemma_pair_total_double(m);
    vstd::arithmetic::div_mod::lemma_div_multiples_vanish(pair_total(m), 2);
}

/// One row of the schedule pairs its entity with each of the `end - j`
/// later entities once.
proof fn lemma_row_pairs_len(i: int, j: int, end: int)
    requires
        j <= end,
    ensures
        row_pairs(i, j, end).len() == end - j,
    decreases end - j,
{
    if j < end {
        lemma_row_pairs_len(i, j + 1, end);
    }
}

/// One group of `end - i` entities is compared in exactly the triangular
/// number of pairs.
proof fn lemma_rows_from_len(i: int, end: int)
    requires
        i <= end,
    ensures
        rows_from(i, end).len() == pair_total(end - i),
    decreases end - i,
{
    if i < end {
        lemma_row_pairs_len(i, i + 1, end);
        lemma_rows_from_len(i + 1, end);
    }
}

proof fn lemma_schedule_from_len(n: int, k: int, g: int)
    requires
        k >= 1,
        0 <= g <= n / k,
    ensures
        schedule_from(n, k, g).len() == (n / k - g) * pair_total(k),
    decreases n / k - g,
{
    if g >= n / k {
        assert((n / k - g) * pair_total(k) == 0) by (nonlinear_arith)
            requires
                n / k - g == 0,
        ;
    } else {
        lemma_rows_from_len(g * k, g * k + k);
        lemma_schedule_from_len(n, k, g + 1);
        assert((n / k - g) * pair_total(k) == pair_total(k) + (n / k - g - 1) * pair_total(k))
            by (nonlinear_arith);
    }
}

/// The workload of the whole schedule: exactly `n / k` full groups are
/// processed, each contributing the triangular number of pairs for `k`
/// entities, and nothing else contributes.
pub proof fn lemma_schedule_len(n: int, k: int)
    requires
        n >= 0,
        k >= 1,
    ensures
        schedule(n, k).len() == (n / k) * pair_total(k),
{
    vstd::arithmetic::div_mod::lemma_div_pos_is_pos(n, k);
    lemma_schedule_from_len(n, k, 0);
}

/// Membership in a concatenation is membership in either part.
proof fn lemma_concat_contains<T>(a: Seq<T>, b: Seq<T>, x: T)
    ensures
        (a + b).contains(x) <==> a.contains(x) || b.contains(x),
{
    if (a + b).contains(x) {
        let idx = choose|idx: int| 0 <= idx < (a + b).len() && (a + b)[idx] == x;
        if idx < a.len() {
            assert(a[idx] == x);
        } else {
            assert(b[idx - a.len()] == x);
        }
    }
    if a.contains(x) {
        let idx = choose|idx: int| 0 <= idx < a.len() && a[idx] == x;
        assert((a + b)[idx] == x);
    }
    if b.contains(x) {
        let idx = choose|idx: int| 0 <= idx < b.len() && b[idx] == x;
        assert((a + b)[a.len() + idx] == x);
    }
}

proof fn lemma_row_pairs_contains(i: int, j: int, end: int, p: (int, int))
    ensures
        row_pairs(i, j, end).contains(p) <==> (p.0 == i && j <= p.1 < end),
    decreases end - j,
{
    if j >= end {
    } else {
        lemma_concat_contains(seq![(i, j)], row_pairs(i, j + 1, end), p);
        lemma_row_pairs_contains(i, j + 1, end, p);
        if p == (i, j) {
            assert(seq![(i, j)][0] == p);
        }
        if seq![(i, j)].contains(p) {
            assert(seq![(i, j)][0] == (i, j));
        }
    }
}

proof fn lemma_rows_from_contains(i: int, end: int, p: (int, int))
    ensures
        rows_from(i, end).contains(p) <==> (i <= p.0 && p.0 < p.1 < end),
    decreases end - i,
{
    if i >= end {
    } else {
        lemma_concat_contains(row_pairs(i, i + 1, end), rows_from(i + 1, end), p);
        lemma_row_pairs_contains(i, i + 1, end, p);
        lemma_rows_from_contains(i + 1, end, p);
    }
}

/// Whether the pair `p` lies wholly inside group `g` at cluster size `k`.
pub open spec fn in_group(p: (int, int), g: int, k: int) -> bool {
    g * k <= p.0 && p.0 < p.1 < g * k + k
}

proof fn lemma_schedule_from_contains(n: int, k: int, g0: int, p: (int, int))
    requires
        k >= 1,
        g0 >= 0,
    ensures
        schedule_from(n, k, g0).contains(p) <==> exists|g: int|
            g0 <= g < n / k && #[trigger] in_group(p, g, k),
    decreases n / k - g0,
{
    if g0 >= n / k {
    } else {
        lemma_concat_contains(
            rows_from(g0 * k, g0 * k + k),
            schedule_from(n, k, g0 + 1),
            p,
        );
        lemma_rows_from_contains(g0 * k, g0 * k + k, p);
        lemma_schedule_from_contains(n, k, g0 + 1, p);
        if schedule_from(n, k, g0).contains(p) {
            if in_group(p, g0, k) {
                assert(g0 <= g0 < n / k && in_group(p, g0, k));
            } else {
                let g = choose|g: int| g0 + 1 <= g < n / k && #[trigger] in_group(p, g, k);
                assert(g0 <= g < n / k && in_group(p, g, k));
            }
        }
        if exists|g: int| g0 <= g < n / k && #[trigger] in_group(p, g, k) {
            let g = choose|g: int| g0 <= g < n / k && #[trigger] in_group(p, g, k);
            if g == g0 {
                assert(rows_from(g0 * k, g0 * k + k).contains(p));
            } else {
                assert(g0 + 1 <= g < n / k && in_group(p, g, k));
            }
        }
    }
}

/// The schedule compares exactly the pairs that [`compared`] describes: a
/// pair of indices appears in the schedule if and only if both indices fall
/// before the trailing remainder and in the same group, in order.
pub proof fn lemma_schedule_characterizes(n: int, k: int, p: (int, int))
    requires
        n >= 0,
        k >= 1,
    ensures
        schedule(n, k).contains(p) <==> compared(p.0, p.1, n, k),
{
    lemma_schedule_from_contains(n, k, 0, p);
    if schedule(n, k).contains(p) {
        let g = choose|g: int| 0 <= g < n / k && #[trigger] in_group(p, g, k);
        lemma_group_fits(n, k, g);
        vstd::arithmetic::div_mod::lemma_fundamental_div_mod_converse(p.0, k, g, p.0 - g * k);
        vstd::arithmetic::div_mod::lemma_fundamental_div_mod_converse(p.1, k, g, p.1 - g * k);
    }
    if compared(p.0, p.1, n, k) {
        let g = p.0 / k;
        vstd::arithmetic::div_mod::lemma_fundamental_div_mod(p.0, k);
        vstd::arithmetic::div_mod::lemma_mod_bound(p.0, k);
        vstd::arithmetic::div_mod::lemma_fundamental_div_mod(p.1, k);
        vstd::arithmetic::div_mod::lemma_mod_bound(p.1, k);
        vstd::arithmetic::mul::lemma_mul_is_commutative(k, g);
        vstd::arithmetic::div_mod::lemma_div_pos_is_pos(p.0, k);
        if g >= n / k {
            vstd::arithmetic::mul::lemma_mul_inequality(n / k, g, k);
            assert(false);
        }
        assert(0 <= g < n / k && in_group(p, g, k));
    }
}

/// Remainder entities participate in no comparison: every scheduled pair
/// lies wholly inside the `n / k` full groups, so any entity at index
/// `(n / k) * k` or past it — the trailing `n % k` entities — appears in no
/// pair.
pub proof fn lemma_remainder_uncompared(n: int, k: int, p: (int, int))
    requires
        n >= 0,
        k >= 1,
        schedule(n, k).contains(p),
    ensures
        0 <= p.0 < p.1 < (n / k) * k,
{
    lemma_schedule_characterizes(n, k, p);
}

/// A full group lies wholly inside the entity sequence: group `g`, one of
/// the `n / k` full groups, ends at `(g + 1) * k`, which is at most `n`.
pub proof fn lemma_group_fits(n: int, k: int, g: int)
    requires
        k >= 1,
        n >= 0,
        0 <= g < n / k,
    ensures
        g * k + k <= (n / k) * k <= n,
        g * k >= 0,
{
    vstd::arithmetic::div_mod::lemma_fundamental_div_mod(n, k);
    vstd::arithmetic::div_mod::lemma_mod_bound(n, k);
    vstd::arithmetic::mul::lemma_mul_inequality(g + 1, n / k, k);
    vstd::arithmetic::mul::lemma_mul_is_distributive_add_other_way(k, g, 1);
    vstd::arithmetic::mul::lemma_mul_is_commutative(n / k, k);
    vstd::arithmetic::mul::lemma_mul_nonnegative(g, k);
}

} // verus!



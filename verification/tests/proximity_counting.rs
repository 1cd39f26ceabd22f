use weak_hardware_booster::particle::Particle;
use weak_hardware_booster::partition::comparison_schedule;
use weak_hardware_booster::proximity::{
    count_proximate_pairs, is_proximate, PROXIMITY_THRESHOLD_SQ_BITS,
};

fn particle_at(x: f32, y: f32, z: f32) -> Particle {
    Particle { pos: [x.to_bits(), y.to_bits(), z.to_bits()], velocity: [0.0f32.to_bits(); 3] }
}

// The squared distance of one compared pair, handed to the library the way
// the unverified shell hands it: as the bit pattern of the single-precision
// result.
fn dist_sq_bits(a: &Particle, b: &Particle) -> u32 {
    let dx = f32::from_bits(a.pos[0]) - f32::from_bits(b.pos[0]);
    let dy = f32::from_bits(a.pos[1]) - f32::from_bits(b.pos[1]);
    let dz = f32::from_bits(a.pos[2]) - f32::from_bits(b.pos[2]);
    (dx * dx + dy * dy + dz * dz).to_bits()
}

fn count_for(entities: &Vec<Particle>, cluster_size: usize) -> usize {
    let schedule = comparison_schedule(entities, cluster_size).unwrap();
    let dists: Vec<u32> = schedule
        .iter()
        .map(|&(i, j)| dist_sq_bits(&entities[i], &entities[j]))
        .collect();
    count_proximate_pairs(&dists)
}

#[test]
fn threshold_constant_is_the_single_precision_quarter() {
    assert_eq!(PROXIMITY_THRESHOLD_SQ_BITS, 0.25f32.to_bits());
}

#[test]
fn bit_order_matches_float_order_on_squared_distances() {
    // The library compares bit patterns; for the nonnegative values a sum of
    // squares yields, that order must be the floating-point order.
    let samples = [
        0.0f32, 1.0e-30, 0.1, 0.16, 0.2499999, 0.25, 0.2500001, 0.5, 1.0, 2.0, 1.0e30,
    ];
    for &a in &samples {
        assert_eq!(is_proximate(a.to_bits()), a < 0.25, "sample {a}");
        for &b in &samples {
            assert_eq!(a < b, a.to_bits() < b.to_bits(), "samples {a} {b}");
        }
    }
}

#[test]
fn distance_exactly_at_threshold_is_not_proximate() {
    // 0.5 * 0.5 is exactly representable: the squared distance is exactly
    // the threshold, and the strict test must exclude it.
    let a = particle_at(0.0, 0.0, 0.0);
    let b = particle_at(0.5, 0.0, 0.0);
    assert_eq!(dist_sq_bits(&a, &b), PROXIMITY_THRESHOLD_SQ_BITS);
    assert!(!is_proximate(dist_sq_bits(&a, &b)));
    assert_eq!(count_for(&vec![a, b], 2), 0);
}

#[test]
fn close_pair_is_counted() {
    // Squared distance 0.16, below the threshold: one proximate pair.
    let entities = vec![particle_at(0.0, 0.0, 0.0), particle_at(0.4, 0.0, 0.0)];
    assert!(dist_sq_bits(&entities[0], &entities[1]) < PROXIMITY_THRESHOLD_SQ_BITS);
    assert_eq!(count_for(&entities, 2), 1);
}

#[test]
fn far_pair_is_not_counted() {
    // Squared distance 1.0, at or above the threshold: no proximate pair.
    let entities = vec![particle_at(0.0, 0.0, 0.0), particle_at(1.0, 0.0, 0.0)];
    assert_eq!(count_for(&entities, 2), 0);
}

#[test]
fn pair_count_ignores_order_within_group() {
    // One group of four entities, counted in several arrangements: the pair
    // count never depends on the order inside the group.
    let a = particle_at(0.0, 0.0, 0.0);
    let b = particle_at(0.4, 0.0, 0.0);
    let c = particle_at(0.0, 0.2, 0.0);
    let d = particle_at(10.0, 0.0, 0.0);
    let baseline = count_for(&vec![a, b, c, d], 4);
    assert_eq!(baseline, 3); // a-b, a-c, b-c are close; d is far from all.
    for arrangement in [
        vec![d, c, b, a],
        vec![b, a, d, c],
        vec![c, d, a, b],
        vec![a, c, d, b],
    ] {
        assert_eq!(count_for(&arrangement, 4), baseline);
    }
}

#[test]
fn cross_group_pairs_are_never_evaluated() {
    // Two entities well inside the threshold of one another, but in
    // different groups: the partition trades those pairs away.
    let entities = vec![
        particle_at(0.0, 0.0, 0.0),
        particle_at(100.0, 0.0, 0.0),
        particle_at(0.1, 0.0, 0.0),
        particle_at(200.0, 0.0, 0.0),
    ];
    assert_eq!(count_for(&entities, 2), 0);
}

#[test]
fn counts_mixed_schedule_of_distances() {
    // One proximate entry per compared pair, tallied across groups.
    let entities = vec![
        particle_at(0.0, 0.0, 0.0),
        particle_at(0.1, 0.0, 0.0),
        particle_at(50.0, 0.0, 0.0),
        particle_at(50.0, 0.2, 0.0),
        particle_at(90.0, 0.0, 0.0),
    ];
    // Groups of two: pairs (0, 1) and (2, 3), both close; entity 4 dropped.
    assert_eq!(count_for(&entities, 2), 2);
}

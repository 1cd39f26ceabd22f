use weak_hardware_booster::particle::Particle;
use weak_hardware_booster::partition::{comparison_schedule, num_groups, ProcessError};

fn particle_at(x: f32, y: f32, z: f32) -> Particle {
    Particle { pos: [x.to_bits(), y.to_bits(), z.to_bits()], velocity: [0.0f32.to_bits(); 3] }
}

fn particles(n: usize) -> Vec<Particle> {
    (0..n).map(|i| particle_at(i as f32, 0.0, 0.0)).collect()
}

#[test]
fn group_count_is_floor_of_quotient() {
    for (n, k, expected) in [
        (0usize, 1usize, 0usize),
        (0, 7, 0),
        (1, 2, 0),
        (5, 2, 2),
        (6, 2, 3),
        (6, 3, 2),
        (7, 3, 2),
        (100, 250, 0),
        (1000, 250, 4),
    ] {
        assert_eq!(num_groups(n, k), Ok(expected), "n={n} k={k}");
    }
}

#[test]
fn zero_cluster_size_is_invalid_configuration() {
    for n in [0usize, 1, 5, 1000] {
        assert_eq!(num_groups(n, 0), Err(ProcessError::InvalidConfiguration));
        assert_eq!(
            comparison_schedule(&particles(n), 0),
            Err(ProcessError::InvalidConfiguration)
        );
    }
}

#[test]
fn five_entities_in_clusters_of_two() {
    // Two full groups are processed: entities 0-1 and 2-3.  Entity 4, the
    // remainder, appears in no comparison.
    let schedule = comparison_schedule(&particles(5), 2).unwrap();
    assert_eq!(schedule, vec![(0, 1), (2, 3)]);
    assert!(schedule.iter().all(|&(i, j)| i != 4 && j != 4));
}

#[test]
fn schedule_lists_each_group_row_by_row() {
    let schedule = comparison_schedule(&particles(6), 3).unwrap();
    assert_eq!(
        schedule,
        vec![(0, 1), (0, 2), (1, 2), (3, 4), (3, 5), (4, 5)]
    );
}

#[test]
fn schedule_length_is_groups_times_pairs_per_group() {
    for (n, k) in [(0usize, 1usize), (5, 2), (6, 3), (10, 4), (9, 3), (20, 5), (13, 13)] {
        let schedule = comparison_schedule(&particles(n), k).unwrap();
        let groups = n / k;
        assert_eq!(schedule.len(), groups * (k * (k - 1) / 2), "n={n} k={k}");
    }
}

#[test]
fn remainder_entities_are_never_compared() {
    for (n, k) in [(5usize, 2usize), (7, 3), (11, 4), (9, 10), (3, 2)] {
        let schedule = comparison_schedule(&particles(n), k).unwrap();
        let processed = (n / k) * k;
        for &(i, j) in &schedule {
            assert!(i < j, "ordered pair expected, n={n} k={k}");
            assert!(j < processed, "remainder index compared, n={n} k={k}");
            assert_eq!(i / k, j / k, "cross-group pair, n={n} k={k}");
        }
    }
}

#[test]
fn cluster_size_larger_than_input_yields_no_groups() {
    assert_eq!(num_groups(3, 10), Ok(0));
    assert_eq!(comparison_schedule(&particles(3), 10), Ok(vec![]));
}

#[test]
fn empty_input_yields_no_groups() {
    assert_eq!(num_groups(0, 250), Ok(0));
    assert_eq!(comparison_schedule(&Vec::new(), 250), Ok(vec![]));
}

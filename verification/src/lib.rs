//! Core of a particle proximity micro-benchmark.
//!
//! The benchmark partitions an ordered sequence of point-mass entities into
//! contiguous fixed-size groups and counts, within each group independently,
//! the unordered pairs of entities whose squared Euclidean distance lies
//! strictly below a fixed threshold.  Cross-group pairs are never examined:
//! that trade of accuracy for an `O(N * K)` bound is the point of the
//! partitioning and is deliberately preserved here.
//!
//! This crate holds the verified part of that benchmark:
//!
//! - [`partition`] plans which index pairs are compared: the groups, their
//!   bounds, and the exact comparison schedule, with trailing remainder
//!   entities excluded.
//! - [`proximity`] makes the threshold decision for each compared pair and
//!   tallies the proximate ones.
//! - [`reorder`] proves that the pair count of a group does not depend on the
//!   order of the entities inside it.
//! - [`counting`] proves that the composition — schedule, threshold
//!   decision, tally — computes exactly the sum of the groups' pair counts.
//!
//! Floating-point arithmetic cannot be verified here, so positions travel as
//! raw IEEE 754 bit patterns ([`particle::Particle`]) and the caller supplies
//! each compared pair's squared distance the same way.  Timing and the raw
//! foreign-pointer entry point are likewise left to the unverified shell
//! around this crate.

pub mod counting;
pub mod partition;
pub mod particle;
pub mod proximity;
pub mod reorder;

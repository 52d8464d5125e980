//! Neighbor finding for circular particles in a bounded, optionally periodic,
//! two-dimensional domain: a brute-force finder, a cell-index finder, the
//! symmetric adjacency they fill, and the properties that relate them.
//!
//! Lengths are fixed-point integers, so that every distance test is exact.
//! The `gear` module holds the integer part of a Gear predictor-corrector.
pub mod cim_finder;
pub mod gear;
pub mod neighbor_finder;
pub mod particles;
pub mod simple_finder;
pub mod theorems;

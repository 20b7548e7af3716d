//! Evolving creatures: a vision sensor, a small feed-forward network as the
//! brain, and a genetic algorithm that breeds the brains of the creatures that
//! ate the most food.
//!
//! All quantities are fixed-point integers: a real value `v` is held as
//! `v * ONE` (see [`fixed`]).

pub mod creature;
pub mod creature_individual;
pub mod eye;
pub mod fixed;
pub mod food;
pub mod genetic;
pub mod network;
pub mod random;
pub mod simulation;
pub mod world;

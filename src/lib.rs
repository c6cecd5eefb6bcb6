//! Certified differentially private queries over a committed database.
pub mod arith;
pub mod bit_sigma;
pub mod commitment_phase;
pub mod data;
pub mod group;
pub mod messages;
pub mod monomial;
pub mod pedersen;
pub mod product_sigma;
pub mod protocol;

//! Candidate generators.
pub mod strategy;
pub mod brute;
pub mod tunnel;
pub mod driven;
pub mod random;

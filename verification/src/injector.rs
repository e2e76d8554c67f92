//! Driving candidates through execution: configuration, policies, packets.
pub mod range;
pub mod policy;
pub mod observation;
pub mod fault;
pub mod packet;
pub mod config;
pub mod engine;
pub mod supervisor;

//! Sandblaster: candidate generation, result records and the line formats of a
//! processor fuzzer, with their contracts.
pub mod text;
pub mod instruction;
pub mod result;
pub mod anomaly;
pub mod target;
pub mod search;
pub mod injector;
pub mod disasm;
pub mod text_laws;
pub mod cpu;
pub mod legacy_format;
pub mod legacy_laws;
pub mod sifter;
pub mod summary;
pub mod mobile;
pub mod tui;

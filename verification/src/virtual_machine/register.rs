//! The register-based machine.


pub mod vm;
pub mod emit;

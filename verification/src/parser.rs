//! Parser combinators: every parser has a mathematical meaning (`spec_parse`)
//! and an executable `parse` that is proved to agree with it.

pub mod traits;
pub mod combinators;
pub mod grammar;
pub mod laws;
pub mod mappers;
pub mod outcome;
pub mod primitives;
pub mod text;

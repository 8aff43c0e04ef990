//! A register machine: its instructions, an evaluator, and a code emitter.

pub mod interface;
pub mod register;

//! Parser combinators over character input, and a small register machine.

pub mod language;
pub mod parser;
pub mod virtual_machine;

pub use crate::language::Expr;
pub use crate::parser::combinators::{
    and_then, choice, forward, set_implementation, AndThenParser, ChoiceParser, ForwardParser,
    ManyParser, Many1Parser, MapParser, OptionParser,
};
pub use crate::parser::grammar::{Grammar, GrammarParser, Node, Tree};
pub use crate::parser::mappers::{CollectString, Const, First, Second};
pub use crate::parser::primitives::{any_of, pchar, pstring, CharParser, StringParser};
pub use crate::parser::traits::{Mapper, Parser};
pub use crate::virtual_machine::interface::{Compiler, Runtime};
pub use crate::virtual_machine::register::emit::{emit, emit_body};
pub use crate::virtual_machine::register::vm::{Function, Instruction, Program, Types, Values};

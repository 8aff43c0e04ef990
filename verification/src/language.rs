use vstd::prelude::*;

verus! {

/// An expression of the source language.
#[derive(Debug, PartialEq)]
pub enum Expr {
    /// An integer literal.
    Int(i32),
    /// A use of a bound name.
    Symbol(String),
    /// Binds a name to the value of an expression.
    Ident(String, Box<Expr>),
    /// The sum of two expressions.
    Add(Box<Expr>, Box<Expr>),
}

} // verus!

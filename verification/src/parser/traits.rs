use vstd::prelude::*;

use std::rc::Rc;

use crate::parser::combinators::{
    AndThenParser, ChoiceParser, ManyParser, Many1Parser, MapParser, OptionParser,
};
use crate::parser::mappers::{First, Second};
use crate::parser::outcome::{agrees, Outcome};
use crate::parser::primitives::{any_of, is_any_of, CharParser};

verus! {

/// `rest` is what is left of `input` after a prefix of it was consumed.
pub open spec fn is_suffix_of(rest: Seq<char>, input: Seq<char>) -> bool {
    &&& rest.len() <= input.len()
    &&& rest == input.skip(input.len() - rest.len())
}

/// A parser over character input.
///
/// `spec_parse` is the meaning of the parser; `parse` runs it and returns
/// exactly that meaning on every input on which it returns at all.
pub trait Parser: Sized {
    /// The value a successful parse produces.
    type Output: DeepView;

    /// What parsing `input` gives.
    spec fn spec_parse(&self, input: Seq<char>) -> Outcome<<Self::Output as DeepView>::V>;

    /// Parses `input`: on success the value and the rest of the input, else
    /// an error message.
    fn parse(&self, input: String) -> (r: Result<(Self::Output, String), String>)
        requires
            !(self.spec_parse(input@) is Stuck),
        ensures
            agrees(r, self.spec_parse(input@)),
    ;

    /// A parser only ever consumes a prefix of its input.
    proof fn lemma_consumes_prefix(&self, input: Seq<char>)
        ensures
            self.spec_parse(input) matches Outcome::Success(_, rest) ==> is_suffix_of(rest, input),
    ;

    /// This parser shared behind an `Rc`.
    fn to_rc(self) -> (r: Rc<Self>)
        ensures
            *r == self,
    {
        Rc::new(self)
    }

    /// This parser with `f` applied to its value.
    fn map<M: Mapper<Self::Output>>(self, f: M) -> (r: MapParser<Self, M>)
        ensures
            r.parser == self,
            r.f == f,
    {
        MapParser { f, parser: self }
    }

    /// This parser, or `None` without consuming anything where it fails.
    fn optional(self) -> (r: OptionParser<Self>)
        ensures
            r.parser == self,
    {
        OptionParser { parser: self }
    }

    /// This parser, or `other` where this one fails.
    fn or(self, other: Self) -> (r: ChoiceParser<Self>)
        ensures
            r.parsers@ == seq![self, other],
    {
        let mut parsers: Vec<Self> = Vec::new();
        parsers.push(self);
        parsers.push(other);
        ChoiceParser { parsers }
    }

    /// This parser followed by `other`; both values.
    fn and_then<T>(self, other: T) -> (r: AndThenParser<Self, T>)
        ensures
            r.parser_a == self,
            r.parser_b == other,
    {
        AndThenParser { parser_a: self, parser_b: other }
    }

    /// This parser as often as it succeeds.
    fn many(self) -> (r: ManyParser<Self>)
        ensures
            r.parser == self,
    {
        ManyParser { parser: self }
    }

    /// This parser at least once, then as often as it succeeds.
    fn many1(self) -> (r: Many1Parser<Self>)
        ensures
            r.parser == self,
    {
        Many1Parser { parser: self }
    }

    /// This parser followed by `other`; the value of this one.
    fn left<U>(self, other: U) -> (r: MapParser<AndThenParser<Self, U>, First>)
        ensures
            r.parser.parser_a == self,
            r.parser.parser_b == other,
    {
        MapParser { f: First, parser: AndThenParser { parser_a: self, parser_b: other } }
    }

    /// This parser followed by `other`; the value of `other`.
    fn right<U>(self, other: U) -> (r: MapParser<AndThenParser<Self, U>, Second>)
        ensures
            r.parser.parser_a == self,
            r.parser.parser_b == other,
    {
        MapParser { f: Second, parser: AndThenParser { parser_a: self, parser_b: other } }
    }

    /// `left`, then this parser, then `right`; the value of this parser.
    fn between<U, V>(self, left: U, right: V) -> (r: MapParser<
        AndThenParser<U, MapParser<AndThenParser<Self, V>, First>>,
        Second,
    >)
        ensures
            r.parser.parser_a == left,
            r.parser.parser_b.parser.parser_a == self,
            r.parser.parser_b.parser.parser_b == right,
    {
        let inner = MapParser { f: First, parser: AndThenParser { parser_a: self, parser_b: right } };
        MapParser { f: Second, parser: AndThenParser { parser_a: left, parser_b: inner } }
    }

    /// This parser followed by any whitespace; the value of this parser.
    fn ws(self) -> (r: MapParser<AndThenParser<Self, ManyParser<ChoiceParser<CharParser>>>, First>)
        ensures
            r.parser.parser_a == self,
            is_any_of(r.parser.parser_b.parser, whitespace_chars()),
    {
        let ws = ManyParser { parser: any_of(&[' ', '\t', '\n', '\r']) };
        MapParser { f: First, parser: AndThenParser { parser_a: self, parser_b: ws } }
    }

    /// This parser followed by at least one whitespace character; the value
    /// of this parser.
    fn ws1(self) -> (r: MapParser<
        AndThenParser<Self, Many1Parser<ChoiceParser<CharParser>>>,
        First,
    >)
        ensures
            r.parser.parser_a == self,
            is_any_of(r.parser.parser_b.parser, whitespace_chars()),
    {
        let ws = Many1Parser { parser: any_of(&[' ', '\t', '\n', '\r']) };
        MapParser { f: First, parser: AndThenParser { parser_a: self, parser_b: ws } }
    }
}

/// The characters that `ws` and `ws1` skip.
pub open spec fn whitespace_chars() -> Seq<char> {
    seq![' ', '\t', '\n', '\r']
}

/// A function applied to the value of a parser (see `Parser::map`).
pub trait Mapper<In: DeepView> {
    /// The type of the mapped value.
    type Out: DeepView;

    /// What the mapping does, on the values' models.
    spec fn spec_map(&self, x: In::V) -> <Self::Out as DeepView>::V;

    /// Applies the mapping.
    fn apply(&self, x: In) -> (y: Self::Out)
        ensures
            y.deep_view() == self.spec_map(x.deep_view()),
    ;
}

} // verus!

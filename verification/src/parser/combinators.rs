use vstd::prelude::*;

use std::rc::Rc;

use crate::parser::outcome::Outcome;
use crate::parser::traits::{is_suffix_of, Mapper, Parser};

verus! {

/// Runs `parser_a`, then `parser_b` on what `parser_a` left.
pub struct AndThenParser<A, B> {
    pub parser_a: A,
    pub parser_b: B,
}

/// Tries each parser in turn on the same input; the first success wins.
pub struct ChoiceParser<P> {
    pub parsers: Vec<P>,
}

/// Applies `f` to the value of `parser`.
pub struct MapParser<P, M> {
    pub f: M,
    pub parser: P,
}

/// Runs `parser`; where it fails, succeeds with `None` consuming nothing.
pub struct OptionParser<P> {
    pub parser: P,
}

/// Runs `parser` as often as it succeeds and collects the values.
pub struct ManyParser<P> {
    pub parser: P,
}

/// Like `ManyParser`, but `parser` must succeed at least once.
pub struct Many1Parser<P> {
    pub parser: P,
}

/// A parser whose implementation is given after it is made
/// (see `set_implementation`). It holds its implementation by value: it is
/// not a cell shared between handles, so it cannot stand inside its own
/// implementation, and a grammar cannot refer to itself through it; a
/// recursive grammar is written as a `Grammar` whose rules refer to each
/// other by index.
pub struct ForwardParser<P> {
    pub parser: Option<P>,
}

/// `prefix` followed by `message`.
pub open spec fn prefixed_message(prefix: Seq<char>, message: Seq<char>) -> Seq<char> {
    prefix + message
}

/// The message of a choice in which no parser succeeded.
pub open spec fn choice_message() -> Seq<char> {
    "Expected one of the parsers to succeed"@
}

/// The message of a forward parser that was never given an implementation.
pub open spec fn forward_message() -> Seq<char> {
    "Forward Parser not implemented"@
}

/// Puts `vs` in front of the values of a repetition outcome.
pub open spec fn prepend<V>(vs: Seq<V>, o: Outcome<Seq<V>>) -> Outcome<Seq<V>> {
    match o {
        Outcome::Success(ws, rest) => Outcome::Success(vs + ws, rest),
        Outcome::Failure(e) => Outcome::Failure(e),
        Outcome::Stuck => Outcome::Stuck,
    }
}

/// The meaning of running `p` as often as it succeeds on `input`.
/// A success that consumes nothing would repeat forever: `Stuck`.
pub open spec fn many_outcome<P: Parser>(p: P, input: Seq<char>) -> Outcome<
    Seq<<P::Output as DeepView>::V>,
>
    decreases input.len(),
{
    match p.spec_parse(input) {
        Outcome::Success(v, rest) => if rest.len() < input.len() {
            prepend(seq![v], many_outcome(p, rest))
        } else {
            Outcome::Stuck
        },
        Outcome::Failure(_) => Outcome::Success(Seq::empty(), input),
        Outcome::Stuck => Outcome::Stuck,
    }
}

/// The meaning of trying `parsers[i..]` in turn on `input`.
pub open spec fn choice_outcome<P: Parser>(parsers: Seq<P>, i: int, input: Seq<char>) -> Outcome<
    <P::Output as DeepView>::V,
>
    decreases parsers.len() - i,
{
    if i < 0 || i >= parsers.len() {
        Outcome::Failure(choice_message())
    } else {
        match parsers[i].spec_parse(input) {
            Outcome::Success(v, rest) => Outcome::Success(v, rest),
            Outcome::Failure(_) => choice_outcome(parsers, i + 1, input),
            Outcome::Stuck => Outcome::Stuck,
        }
    }
}

/// A string made of `prefix` and then `message`.
pub(crate) fn join_message(prefix: &str, message: String) -> (r: String)
    ensures
        r@ == prefixed_message(prefix@, message@),
{
    String::from_str(prefix).concat(message.as_str())
}

impl<A: Parser, B: Parser> Parser for AndThenParser<A, B> {
    type Output = (A::Output, B::Output);

    open spec fn spec_parse(&self, input: Seq<char>) -> Outcome<
        (<A::Output as DeepView>::V, <B::Output as DeepView>::V),
    > {
        match self.parser_a.spec_parse(input) {
            Outcome::Success(v1, rest1) => match self.parser_b.spec_parse(rest1) {
                Outcome::Success(v2, rest2) => Outcome::Success((v1, v2), rest2),
                Outcome::Failure(e) => Outcome::Failure(prefixed_message("Then 2nd : "@, e)),
                Outcome::Stuck => Outcome::Stuck,
            },
            Outcome::Failure(e) => Outcome::Failure(prefixed_message("Then 1st : "@, e)),
            Outcome::Stuck => Outcome::Stuck,
        }
    }

    fn parse(&self, input: String) -> (r: Result<((A::Output, B::Output), String), String>) {
        match self.parser_a.parse(input) {
            Ok((success1, remaining)) => match self.parser_b.parse(remaining) {
                Ok((success2, remaining)) => Ok(((success1, success2), remaining)),
                Err(error) => Err(join_message("Then 2nd : ", error)),
            },
            Err(error) => Err(join_message("Then 1st : ", error)),
        }
    }

    proof fn lemma_consumes_prefix(&self, input: Seq<char>) {
        self.parser_a.lemma_consumes_prefix(input);
        if let Outcome::Success(v1, rest1) = self.parser_a.spec_parse(input) {
            self.parser_b.lemma_consumes_prefix(rest1);
            if let Outcome::Success(v2, rest2) = self.parser_b.spec_parse(rest1) {
                assert(rest2 =~= input.skip(input.len() - rest2.len()));
            }
        }
    }
}

impl<P: Parser> Parser for ChoiceParser<P> {
    type Output = P::Output;

    open spec fn spec_parse(&self, input: Seq<char>) -> Outcome<<P::Output as DeepView>::V> {
        choice_outcome(self.parsers@, 0, input)
    }

    fn parse(&self, input: String) -> (r: Result<(P::Output, String), String>) {
        let ghost whole = choice_outcome(self.parsers@, 0, input@);
        let mut i: usize = 0;
        while i < self.parsers.len()
            invariant
                i <= self.parsers@.len(),
                whole == choice_outcome(self.parsers@, 0, input@),
                whole == choice_outcome(self.parsers@, i as int, input@),
                !(whole is Stuck),
            decreases self.parsers@.len() - i,
        {
            let result = self.parsers[i].parse(input.clone());
            match result {
                Ok(success) => {
                    return Ok(success);
                },
                Err(_) => {},
            }
            i = i + 1;
        }
        Err(String::from_str("Expected one of the parsers to succeed"))
    }

    proof fn lemma_consumes_prefix(&self, input: Seq<char>) {
        lemma_choice_consumes_prefix(self.parsers@, 0, input);
    }
}

proof fn lemma_choice_consumes_prefix<P: Parser>(parsers: Seq<P>, i: int, input: Seq<char>)
    ensures
        choice_outcome(parsers, i, input) matches Outcome::Success(_, rest) ==> is_suffix_of(
            rest,
            input,
        ),
    decreases parsers.len() - i,
{
    if 0 <= i < parsers.len() {
        parsers[i].lemma_consumes_prefix(input);
        lemma_choice_consumes_prefix(parsers, i + 1, input);
    }
}

impl<P: Parser, M: Mapper<P::Output>> Parser for MapParser<P, M> {
    type Output = M::Out;

    open spec fn spec_parse(&self, input: Seq<char>) -> Outcome<<M::Out as DeepView>::V> {
        match self.parser.spec_parse(input) {
            Outcome::Success(v, rest) => Outcome::Success(self.f.spec_map(v), rest),
            Outcome::Failure(e) => Outcome::Failure(prefixed_message("MapParser : "@, e)),
            Outcome::Stuck => Outcome::Stuck,
        }
    }

    fn parse(&self, input: String) -> (r: Result<(M::Out, String), String>) {
        match self.parser.parse(input) {
            Ok((success, remaining)) => {
                let mapped = self.f.apply(success);
                Ok((mapped, remaining))
            },
            Err(error) => Err(join_message("MapParser : ", error)),
        }
    }

    proof fn lemma_consumes_prefix(&self, input: Seq<char>) {
        self.parser.lemma_consumes_prefix(input);
    }
}

impl<P: Parser> Parser for OptionParser<P> {
    type Output = Option<P::Output>;

    open spec fn spec_parse(&self, input: Seq<char>) -> Outcome<
        Option<<P::Output as DeepView>::V>,
    > {
        match self.parser.spec_parse(input) {
            Outcome::Success(v, rest) => Outcome::Success(Some(v), rest),
            Outcome::Failure(_) => Outcome::Success(None, input),
            Outcome::Stuck => Outcome::Stuck,
        }
    }

    fn parse(&self, input: String) -> (r: Result<(Option<P::Output>, String), String>) {
        let result1 = self.parser.parse(input.clone());
        match result1 {
            Ok((success, remaining)) => Ok((Some(success), remaining)),
            Err(_) => Ok((None, input)),
        }
    }

    proof fn lemma_consumes_prefix(&self, input: Seq<char>) {
        self.parser.lemma_consumes_prefix(input);
        assert(input.skip(0) =~= input);
    }
}

/// Runs `p` as often as it succeeds, starting on `input`; the values in
/// order and what is left.
fn parse_many<P: Parser>(p: &P, input: String) -> (r: (Vec<P::Output>, String))
    requires
        !(many_outcome(*p, input@) is Stuck),
    ensures
        many_outcome(*p, input@) == Outcome::Success(r.0.deep_view(), r.1@),
{
    let ghost whole = many_outcome(*p, input@);
    let mut values: Vec<P::Output> = Vec::new();
    let mut current = input;
    proof {
        if let Outcome::Success(ws, rest) = whole {
            assert(values.deep_view() + ws =~= ws);
        }
    }
    loop
        invariant
            whole == many_outcome(*p, input@),
            whole == prepend(values.deep_view(), many_outcome(*p, current@)),
            !(many_outcome(*p, current@) is Stuck),
        decreases current@.len(),
    {
        match p.parse(current.clone()) {
            Ok((success, remaining)) => {
                let ghost vs = values.deep_view();
                let ghost v = success.deep_view();
                proof {
                    if let Outcome::Success(ws, rest) = many_outcome(*p, remaining@) {
                        assert(vs + (seq![v] + ws) =~= vs.push(v) + ws);
                    }
                }
                values.push(success);
                assert(values.deep_view() =~= vs.push(v));
                current = remaining;
            },
            Err(_) => {
                proof {
                    assert(values.deep_view() + Seq::empty() =~= values.deep_view());
                }
                return (values, current);
            },
        }
    }
}

impl<P: Parser> Parser for ManyParser<P> {
    type Output = Vec<P::Output>;

    open spec fn spec_parse(&self, input: Seq<char>) -> Outcome<Seq<<P::Output as DeepView>::V>> {
        many_outcome(self.parser, input)
    }

    fn parse(&self, input: String) -> (r: Result<(Vec<P::Output>, String), String>) {
        let (values, outerremaining) = parse_many(&self.parser, input);
        Ok((values, outerremaining))
    }

    proof fn lemma_consumes_prefix(&self, input: Seq<char>) {
        lemma_many_consumes_prefix(self.parser, input);
    }
}

proof fn lemma_many_consumes_prefix<P: Parser>(p: P, input: Seq<char>)
    ensures
        many_outcome(p, input) matches Outcome::Success(_, rest) ==> is_suffix_of(rest, input),
    decreases input.len(),
{
    p.lemma_consumes_prefix(input);
    match p.spec_parse(input) {
        Outcome::Success(v, rest1) => {
            if rest1.len() < input.len() {
                lemma_many_consumes_prefix(p, rest1);
                if let Outcome::Success(vs, rest) = many_outcome(p, rest1) {
                    assert(rest =~= input.skip(input.len() - rest.len()));
                }
            }
        },
        Outcome::Failure(_) => {
            assert(input.skip(0) =~= input);
        },
        Outcome::Stuck => {},
    }
}

impl<P: Parser> Parser for Many1Parser<P> {
    type Output = Vec<P::Output>;

    open spec fn spec_parse(&self, input: Seq<char>) -> Outcome<Seq<<P::Output as DeepView>::V>> {
        match self.parser.spec_parse(input) {
            Outcome::Success(v, rest) => prepend(seq![v], many_outcome(self.parser, rest)),
            Outcome::Failure(e) => Outcome::Failure(e),
            Outcome::Stuck => Outcome::Stuck,
        }
    }

    fn parse(&self, input: String) -> (r: Result<(Vec<P::Output>, String), String>) {
        let result = self.parser.parse(input);
        match result {
            Ok((success, remaining)) => {
                let (mut result, remain) = parse_many(&self.parser, remaining);
                let ghost vs = result.deep_view();
                let ghost v = success.deep_view();
                result.insert(0, success);
                assert(result.deep_view() =~= seq![v] + vs);
                Ok((result, remain))
            },
            Err(err) => Err(err),
        }
    }

    proof fn lemma_consumes_prefix(&self, input: Seq<char>) {
        self.parser.lemma_consumes_prefix(input);
        if let Outcome::Success(v, rest1) = self.parser.spec_parse(input) {
            lemma_many_consumes_prefix(self.parser, rest1);
            if let Outcome::Success(vs, rest) = many_outcome(self.parser, rest1) {
                assert(rest =~= input.skip(input.len() - rest.len()));
            }
        }
    }
}

impl<P: Parser> Parser for ForwardParser<P> {
    type Output = P::Output;

    open spec fn spec_parse(&self, input: Seq<char>) -> Outcome<<P::Output as DeepView>::V> {
        match self.parser {
            Some(p) => p.spec_parse(input),
            None => Outcome::Failure(forward_message()),
        }
    }

    fn parse(&self, input: String) -> (r: Result<(P::Output, String), String>) {
        match &self.parser {
            Some(parser) => parser.parse(input),
            None => Err(String::from_str("Forward Parser not implemented")),
        }
    }

    proof fn lemma_consumes_prefix(&self, input: Seq<char>) {
        if let Some(p) = self.parser {
            p.lemma_consumes_prefix(input);
        }
    }
}

impl<P: Parser> Parser for Rc<P> {
    type Output = P::Output;

    open spec fn spec_parse(&self, input: Seq<char>) -> Outcome<<P::Output as DeepView>::V> {
        (**self).spec_parse(input)
    }

    fn parse(&self, input: String) -> (r: Result<(P::Output, String), String>) {
        let parser: &P = &**self;
        parser.parse(input)
    }

    proof fn lemma_consumes_prefix(&self, input: Seq<char>) {
        (**self).lemma_consumes_prefix(input);
    }
}

/// A parser of `parser_a` followed by `parser_b`.
pub fn and_then<A: Parser, B: Parser>(parser_a: A, parser_b: B) -> (r: AndThenParser<A, B>)
    ensures
        r.parser_a == parser_a,
        r.parser_b == parser_b,
{
    AndThenParser { parser_a, parser_b }
}

/// A parser that tries `parsers` in order.
pub fn choice<P: Parser>(parsers: Vec<P>) -> (r: ChoiceParser<P>)
    ensures
        r.parsers == parsers,
{
    ChoiceParser { parsers }
}

/// A forward parser without an implementation: it fails until
/// `set_implementation` gives the returned handle one.
pub fn forward<P: Parser>() -> (r: Rc<ForwardParser<P>>)
    ensures
        r.parser is None,
{
    Rc::new(ForwardParser { parser: None })
}

/// Puts into `forward` a new forward parser with the given implementation.
///
/// Only the handle passed in changes: it then points to a new allocation.
/// Clones of the `Rc` taken before the call keep pointing to the old forward
/// parser, which still has no implementation.
pub fn set_implementation<P: Parser>(forward: &mut Rc<ForwardParser<P>>, implementation: P)
    ensures
        final(forward).parser == Some(implementation),
{
    *forward = Rc::new(ForwardParser { parser: Some(implementation) });
}

} // verus!

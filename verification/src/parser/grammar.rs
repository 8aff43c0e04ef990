use vstd::prelude::*;

use crate::parser::combinators::{
    choice_message, forward_message, join_message, prefixed_message,
};
use crate::parser::outcome::Outcome;
use crate::parser::primitives::{pchar, pstring, CharParser, StringParser};
use crate::parser::traits::{is_suffix_of, Parser};

verus! {

/// A parsing expression whose parts may refer to the rules of a `Grammar`
/// by their index, so that rules can refer to each other and to themselves.
#[derive(Debug, PartialEq)]
pub enum Node {
    /// One given character, as `pchar`.
    Char(char),
    /// One given string, as `pstring`.
    Str(&'static str),
    /// One node, then another, as `and_then`.
    Then(Box<Node>, Box<Node>),
    /// One node, or else another, as `or`.
    Or(Box<Node>, Box<Node>),
    /// A node or nothing, as `optional`.
    Optional(Box<Node>),
    /// A node as often as it succeeds, as `many`.
    Many(Box<Node>),
    /// A node at least once, as `many1`.
    Many1(Box<Node>),
    /// The rule with this index, as a forward parser: it fails while the
    /// rule has no definition.
    Rule(usize),
}

/// What a `Node` produces.
#[derive(Debug, PartialEq)]
pub enum Tree {
    /// The character of a `Char` node.
    Char(char),
    /// The string of a `Str` node.
    Text(&'static str),
    /// The values of a `Then` node; also a non-empty list (head, tail).
    Pair(Box<Tree>, Box<Tree>),
    /// An absent optional value; also the empty list.
    Nil,
    /// A present optional value.
    Present(Box<Tree>),
}

impl DeepView for Tree {
    type V = Tree;

    open spec fn deep_view(&self) -> Tree {
        *self
    }
}

/// Rules by index; a rule that is declared but not yet defined is `None`.
pub struct Grammar {
    pub rules: Vec<Option<Node>>,
}

/// Parses with the rule `start` of `grammar`.
pub struct GrammarParser {
    pub grammar: Grammar,
    pub start: usize,
}

/// What parsing `s` with `node` gives, within `rules`.
///
/// `fuel` counts how many more rules may be entered before some input is
/// consumed. Entering more rules than there are without consuming anything
/// means entering one rule twice at the same place of the input, and from
/// there the recursion repeats forever: `Stuck`. It starts at the number of
/// rules and is back there wherever some input was consumed.
pub open spec fn node_outcome(rules: Seq<Option<Node>>, node: Node, s: Seq<char>, fuel: nat) -> Outcome<Tree>
    decreases s.len(), fuel, node,
{
    match node {
        Node::Char(c) => match (CharParser { c }).spec_parse(s) {
            Outcome::Success(v, rest) => Outcome::Success(Tree::Char(v), rest),
            Outcome::Failure(e) => Outcome::Failure(e),
            Outcome::Stuck => Outcome::Stuck,
        },
        Node::Str(t) => match (StringParser { string: t }).spec_parse(s) {
            Outcome::Success(_, rest) => Outcome::Success(Tree::Text(t), rest),
            Outcome::Failure(e) => Outcome::Failure(e),
            Outcome::Stuck => Outcome::Stuck,
        },
        Node::Then(a, b) => match node_outcome(rules, *a, s, fuel) {
            Outcome::Success(va, rest) => {
                let second = if rest.len() < s.len() {
                    node_outcome(rules, *b, rest, rules.len())
                } else if rest.len() == s.len() {
                    node_outcome(rules, *b, rest, fuel)
                } else {
                    Outcome::Stuck
                };
                match second {
                    Outcome::Success(vb, rest2) => Outcome::Success(
                        Tree::Pair(Box::new(va), Box::new(vb)),
                        rest2,
                    ),
                    Outcome::Failure(e) => Outcome::Failure(prefixed_message("Then 2nd : "@, e)),
                    Outcome::Stuck => Outcome::Stuck,
                }
            },
            Outcome::Failure(e) => Outcome::Failure(prefixed_message("Then 1st : "@, e)),
            Outcome::Stuck => Outcome::Stuck,
        },
        Node::Or(a, b) => match node_outcome(rules, *a, s, fuel) {
            Outcome::Success(v, rest) => Outcome::Success(v, rest),
            Outcome::Failure(_) => match node_outcome(rules, *b, s, fuel) {
                Outcome::Success(v, rest) => Outcome::Success(v, rest),
                Outcome::Failure(_) => Outcome::Failure(choice_message()),
                Outcome::Stuck => Outcome::Stuck,
            },
            Outcome::Stuck => Outcome::Stuck,
        },
        Node::Optional(a) => match node_outcome(rules, *a, s, fuel) {
            Outcome::Success(v, rest) => Outcome::Success(Tree::Present(Box::new(v)), rest),
            Outcome::Failure(_) => Outcome::Success(Tree::Nil, s),
            Outcome::Stuck => Outcome::Stuck,
        },
        Node::Many(a) => match node_outcome(rules, *a, s, fuel) {
            Outcome::Success(v, rest) => if rest.len() < s.len() {
                match node_outcome(rules, Node::Many(a), rest, rules.len()) {
                    Outcome::Success(vs, rest2) => Outcome::Success(
                        Tree::Pair(Box::new(v), Box::new(vs)),
                        rest2,
                    ),
                    Outcome::Failure(e) => Outcome::Failure(e),
                    Outcome::Stuck => Outcome::Stuck,
                }
            } else {
                Outcome::Stuck
            },
            Outcome::Failure(_) => Outcome::Success(Tree::Nil, s),
            Outcome::Stuck => Outcome::Stuck,
        },
        Node::Many1(a) => match node_outcome(rules, *a, s, fuel) {
            Outcome::Success(v, rest) => if rest.len() < s.len() {
                match node_outcome(rules, Node::Many(a), rest, rules.len()) {
                    Outcome::Success(vs, rest2) => Outcome::Success(
                        Tree::Pair(Box::new(v), Box::new(vs)),
                        rest2,
                    ),
                    Outcome::Failure(e) => Outcome::Failure(e),
                    Outcome::Stuck => Outcome::Stuck,
                }
            } else {
                Outcome::Stuck
            },
            Outcome::Failure(e) => Outcome::Failure(e),
            Outcome::Stuck => Outcome::Stuck,
        },
        Node::Rule(i) => if i < rules.len() && rules[i as int] is Some {
            if fuel == 0 {
                Outcome::Stuck
            } else {
                node_outcome(rules, rules[i as int]->0, s, (fuel - 1) as nat)
            }
        } else {
            Outcome::Failure(forward_message())
        },
    }
}

impl Grammar {
    /// A grammar without rules.
    pub fn new() -> (r: Grammar)
        ensures
            r.rules@ == Seq::<Option<Node>>::empty(),
    {
        Grammar { rules: Vec::new() }
    }

    /// Adds a rule without a definition and returns its index; `Node::Rule`
    /// of that index fails until `define` gives the rule a definition.
    pub fn declare(&mut self) -> (i: usize)
        requires
            old(self).rules@.len() < usize::MAX,
        ensures
            i == old(self).rules@.len(),
            final(self).rules@ == old(self).rules@.push(None),
    {
        let i = self.rules.len();
        self.rules.push(None);
        i
    }

    /// Gives the rule `rule` the definition `node`. Every `Node::Rule(rule)`,
    /// wherever it stands in the grammar, then parses with `node`.
    pub fn define(&mut self, rule: usize, node: Node)
        requires
            rule < old(self).rules@.len(),
        ensures
            final(self).rules@ == old(self).rules@.update(rule as int, Some(node)),
    {
        self.rules.set(rule, Some(node));
    }

    /// Parses `input` with `node`, `fuel` rules deep at the present place of
    /// the input (see `node_outcome`).
    pub fn parse_node(&self, node: &Node, input: String, fuel: usize) -> (r: Result<
        (Tree, String),
        String,
    >)
        requires
            !(node_outcome(self.rules@, *node, input@, fuel as nat) is Stuck),
        ensures
            match r {
                Ok((v, rest)) => node_outcome(self.rules@, *node, input@, fuel as nat)
                    == Outcome::Success(v, rest@),
                Err(e) => node_outcome(self.rules@, *node, input@, fuel as nat)
                    == Outcome::<Tree>::Failure(e@),
            },
        decreases input@.len(), fuel, node, 0nat,
    {
        match node {
            Node::Char(c) => match pchar(*c).parse(input) {
                Ok((ch, rest)) => Ok((Tree::Char(ch), rest)),
                Err(e) => Err(e),
            },
            Node::Str(t) => match pstring(*t).parse(input) {
                Ok((_, rest)) => Ok((Tree::Text(*t), rest)),
                Err(e) => Err(e),
            },
            Node::Then(a, b) => {
                let n0 = input.as_str().unicode_len();
                match self.parse_node(a, input, fuel) {
                    Ok((va, rest)) => {
                        let n1 = rest.as_str().unicode_len();
                        let second = if n1 < n0 {
                            self.parse_node(b, rest, self.rules.len())
                        } else {
                            self.parse_node(b, rest, fuel)
                        };
                        match second {
                            Ok((vb, rest2)) => Ok((Tree::Pair(Box::new(va), Box::new(vb)), rest2)),
                            Err(e) => Err(join_message("Then 2nd : ", e)),
                        }
                    },
                    Err(e) => Err(join_message("Then 1st : ", e)),
                }
            },
            Node::Or(a, b) => {
                match self.parse_node(a, input.clone(), fuel) {
                    Ok(success) => Ok(success),
                    Err(_) => match self.parse_node(b, input, fuel) {
                        Ok(success) => Ok(success),
                        Err(_) => Err(String::from_str("Expected one of the parsers to succeed")),
                    },
                }
            },
            Node::Optional(a) => {
                match self.parse_node(a, input.clone(), fuel) {
                    Ok((v, rest)) => Ok((Tree::Present(Box::new(v)), rest)),
                    Err(_) => Ok((Tree::Nil, input)),
                }
            },
            Node::Many(a) => self.parse_repeat(a, input, fuel),
            Node::Many1(a) => {
                let n0 = input.as_str().unicode_len();
                match self.parse_node(a, input, fuel) {
                    Ok((v, rest)) => {
                        let n1 = rest.as_str().unicode_len();
                        if n1 < n0 {
                            match self.parse_repeat(a, rest, self.rules.len()) {
                                Ok((vs, rest2)) => Ok((Tree::Pair(Box::new(v), Box::new(vs)), rest2)),
                                Err(e) => Err(e),
                            }
                        } else {
                            Err(String::new())
                        }
                    },
                    Err(e) => Err(e),
                }
            },
            Node::Rule(i) => {
                if *i < self.rules.len() {
                    match &self.rules[*i] {
                        Some(definition) => self.parse_node(definition, input, fuel - 1),
                        None => Err(String::from_str("Forward Parser not implemented")),
                    }
                } else {
                    Err(String::from_str("Forward Parser not implemented"))
                }
            },
        }
    }

    /// Parses `input` with `a` as often as it succeeds, as `Node::Many(a)`.
    fn parse_repeat(&self, a: &Node, input: String, fuel: usize) -> (r: Result<(Tree, String), String>)
        requires
            !(node_outcome(self.rules@, Node::Many(Box::new(*a)), input@, fuel as nat) is Stuck),
        ensures
            match r {
                Ok((v, rest)) => node_outcome(self.rules@, Node::Many(Box::new(*a)), input@, fuel as nat)
                    == Outcome::Success(v, rest@),
                Err(e) => node_outcome(self.rules@, Node::Many(Box::new(*a)), input@, fuel as nat)
                    == Outcome::<Tree>::Failure(e@),
            },
        decreases input@.len(), fuel, a, 1nat,
    {
        let n0 = input.as_str().unicode_len();
        match self.parse_node(a, input.clone(), fuel) {
            Ok((v, rest)) => {
                let n1 = rest.as_str().unicode_len();
                if n1 < n0 {
                    match self.parse_repeat(a, rest, self.rules.len()) {
                        Ok((vs, rest2)) => Ok((Tree::Pair(Box::new(v), Box::new(vs)), rest2)),
                        Err(e) => Err(e),
                    }
                } else {
                    Err(String::new())
                }
            },
            Err(_) => Ok((Tree::Nil, input)),
        }
    }
}

impl Parser for GrammarParser {
    type Output = Tree;

    /// The meaning of the rule `start`, entered with the full fuel.
    open spec fn spec_parse(&self, input: Seq<char>) -> Outcome<Tree> {
        node_outcome(self.grammar.rules@, Node::Rule(self.start), input, self.grammar.rules@.len())
    }

    fn parse(&self, input: String) -> (r: Result<(Tree, String), String>) {
        self.grammar.parse_node(&Node::Rule(self.start), input, self.grammar.rules.len())
    }

    proof fn lemma_consumes_prefix(&self, input: Seq<char>) {
        lemma_node_consumes_prefix(
            self.grammar.rules@,
            Node::Rule(self.start),
            input,
            self.grammar.rules@.len(),
        );
    }
}

/// A node only ever consumes a prefix of its input.
pub proof fn lemma_node_consumes_prefix(rules: Seq<Option<Node>>, node: Node, s: Seq<char>, fuel: nat)
    ensures
        node_outcome(rules, node, s, fuel) matches Outcome::Success(_, rest) ==> is_suffix_of(rest, s),
    decreases s.len(), fuel, node,
{
    match node {
        Node::Char(c) => {
            (CharParser { c }).lemma_consumes_prefix(s);
        },
        Node::Str(t) => {
            (StringParser { string: t }).lemma_consumes_prefix(s);
        },
        Node::Then(a, b) => {
            lemma_node_consumes_prefix(rules, *a, s, fuel);
            if let Outcome::Success(va, rest) = node_outcome(rules, *a, s, fuel) {
                if rest.len() < s.len() {
                    lemma_node_consumes_prefix(rules, *b, rest, rules.len());
                } else if rest.len() == s.len() {
                    lemma_node_consumes_prefix(rules, *b, rest, fuel);
                }
                if let Outcome::Success(_, rest2) = node_outcome(rules, node, s, fuel) {
                    assert(rest2 =~= s.skip(s.len() - rest2.len()));
                }
            }
        },
        Node::Or(a, b) => {
            lemma_node_consumes_prefix(rules, *a, s, fuel);
            lemma_node_consumes_prefix(rules, *b, s, fuel);
        },
        Node::Optional(a) => {
            lemma_node_consumes_prefix(rules, *a, s, fuel);
            assert(s.skip(0) =~= s);
        },
        Node::Many(a) => {
            lemma_node_consumes_prefix(rules, *a, s, fuel);
            assert(s.skip(0) =~= s);
            if let Outcome::Success(v, rest) = node_outcome(rules, *a, s, fuel) {
                if rest.len() < s.len() {
                    lemma_node_consumes_prefix(rules, Node::Many(a), rest, rules.len());
                    if let Outcome::Success(_, rest2) = node_outcome(rules, node, s, fuel) {
                        assert(rest2 =~= s.skip(s.len() - rest2.len()));
                    }
                }
            }
        },
        Node::Many1(a) => {
            lemma_node_consumes_prefix(rules, *a, s, fuel);
            if let Outcome::Success(v, rest) = node_outcome(rules, *a, s, fuel) {
                if rest.len() < s.len() {
                    lemma_node_consumes_prefix(rules, Node::Many(a), rest, rules.len());
                    if let Outcome::Success(_, rest2) = node_outcome(rules, node, s, fuel) {
                        assert(rest2 =~= s.skip(s.len() - rest2.len()));
                    }
                }
            }
        },
        Node::Rule(i) => {
            if i < rules.len() && rules[i as int] is Some && fuel > 0 {
                lemma_node_consumes_prefix(rules, rules[i as int]->0, s, (fuel - 1) as nat);
            }
        },
    }
}

/// Every reference to a rule parses with that rule's definition, wherever
/// the reference stands; a reference to a rule without a definition fails
/// with the forward parser's message.
pub proof fn law_rule_reference(rules: Seq<Option<Node>>, i: usize, s: Seq<char>, fuel: nat)
    ensures
        i < rules.len() && rules[i as int] is Some && fuel > 0 ==> node_outcome(
            rules,
            Node::Rule(i),
            s,
            fuel,
        ) == node_outcome(rules, rules[i as int]->0, s, (fuel - 1) as nat),
        !(i < rules.len() && rules[i as int] is Some) ==> node_outcome(rules, Node::Rule(i), s, fuel)
            == Outcome::<Tree>::Failure(forward_message()),
{
}

/// Once rule `i` is defined as `definition`, every reference to it parses
/// with `definition`: defining a rule is seen by all references to it.
pub proof fn law_define_seen_by_references(
    rules: Seq<Option<Node>>,
    i: usize,
    definition: Node,
    s: Seq<char>,
    fuel: nat,
)
    requires
        i < rules.len(),
        fuel > 0,
    ensures
        node_outcome(rules.update(i as int, Some(definition)), Node::Rule(i), s, fuel)
            == node_outcome(rules.update(i as int, Some(definition)), definition, s, (fuel - 1) as nat),
{
}

/// A rule that starts with a reference to itself never returns: the
/// recursion enters it again without consuming anything.
pub proof fn law_left_recursion_stuck(
    rules: Seq<Option<Node>>,
    i: usize,
    tail: Node,
    s: Seq<char>,
    fuel: nat,
)
    requires
        i < rules.len(),
        rules[i as int] == Some(Node::Then(Box::new(Node::Rule(i)), Box::new(tail))),
    ensures
        node_outcome(rules, Node::Rule(i), s, fuel) is Stuck,
    decreases fuel,
{
    if fuel > 0 {
        let f = (fuel - 1) as nat;
        law_left_recursion_stuck(rules, i, tail, s, f);
        let body = Node::Then(Box::new(Node::Rule(i)), Box::new(tail));
        assert(node_outcome(rules, body, s, f) is Stuck);
        assert(node_outcome(rules, Node::Rule(i), s, fuel) == node_outcome(rules, body, s, f));
    }
}

/// The fuel with which a node is tried again after another node left `rest`
/// of `s`: the full fuel where something was consumed, else what was left.
pub open spec fn fuel_after(rules: Seq<Option<Node>>, s: Seq<char>, rest: Seq<char>, fuel: nat) -> nat {
    if rest.len() < s.len() {
        rules.len()
    } else {
        fuel
    }
}

/// A `Many` node stops only where its node fails: what it leaves is an input
/// on which its node fails, it never leaves more than it was given, and it
/// leaves the input as it was exactly when it collects nothing.
pub proof fn law_many_node_stops_where_node_fails(
    rules: Seq<Option<Node>>,
    a: Node,
    s: Seq<char>,
    fuel: nat,
)
    ensures
        node_outcome(rules, Node::Many(Box::new(a)), s, fuel) matches Outcome::Success(vs, rest)
            ==> {
            &&& node_outcome(rules, a, rest, fuel_after(rules, s, rest, fuel)) is Failure
            &&& rest.len() <= s.len()
            &&& (vs == Tree::Nil <==> rest.len() == s.len())
        },
    decreases s.len(),
{
    if let Outcome::Success(v, r) = node_outcome(rules, a, s, fuel) {
        if r.len() < s.len() {
            law_many_node_stops_where_node_fails(rules, a, r, rules.len());
        }
    }
}

/// Where its node succeeds with value `v` and consumes something, a `Many`
/// node gives `v` in front of what the `Many` node gives on the rest: the
/// list of every repetition, until the node fails.
pub proof fn law_many_node_unfolds(rules: Seq<Option<Node>>, a: Node, s: Seq<char>, fuel: nat)
    ensures
        node_outcome(rules, a, s, fuel) matches Outcome::Success(v, rest) ==> (rest.len()
            < s.len() ==> node_outcome(rules, Node::Many(Box::new(a)), s, fuel) == match node_outcome(
            rules,
            Node::Many(Box::new(a)),
            rest,
            rules.len(),
        ) {
            Outcome::Success(vs, rest2) => Outcome::Success(
                Tree::Pair(Box::new(v), Box::new(vs)),
                rest2,
            ),
            Outcome::Failure(e) => Outcome::Failure(e),
            Outcome::Stuck => Outcome::Stuck,
        }),
        node_outcome(rules, a, s, fuel) is Failure ==> node_outcome(
            rules,
            Node::Many(Box::new(a)),
            s,
            fuel,
        ) == Outcome::Success(Tree::Nil, s),
{
}

/// A `Many1` node fails where its node fails, and otherwise gives the first
/// value in front of the `Many` node's list on the rest; it too stops only
/// where its node fails.
pub proof fn law_many1_node(rules: Seq<Option<Node>>, a: Node, s: Seq<char>, fuel: nat)
    ensures
        node_outcome(rules, a, s, fuel) matches Outcome::Failure(e) ==> node_outcome(
            rules,
            Node::Many1(Box::new(a)),
            s,
            fuel,
        ) == Outcome::<Tree>::Failure(e),
        node_outcome(rules, Node::Many1(Box::new(a)), s, fuel) matches Outcome::Success(vs, rest)
            ==> {
            &&& vs matches Tree::Pair(first, _)
            &&& node_outcome(rules, a, s, fuel) matches Outcome::Success(v, _)
            &&& *first == v
            &&& node_outcome(rules, a, rest, rules.len()) is Failure
            &&& rest.len() < s.len()
        },
{
    if let Outcome::Success(v, r) = node_outcome(rules, a, s, fuel) {
        if r.len() < s.len() {
            law_many_node_stops_where_node_fails(rules, a, r, rules.len());
        }
    }
}

/// The nodes that match text take what `pchar` and `pstring` take.
pub proof fn law_text_nodes(rules: Seq<Option<Node>>, c: char, t: &'static str, s: Seq<char>, fuel: nat)
    ensures
        node_outcome(rules, Node::Char(c), s, fuel) is Success <==> (CharParser { c }).spec_parse(
            s,
        ) is Success,
        node_outcome(rules, Node::Char(c), s, fuel) is Success ==> node_outcome(
            rules,
            Node::Char(c),
            s,
            fuel,
        ) == Outcome::Success(Tree::Char(c), s.drop_first()),
        node_outcome(rules, Node::Str(t), s, fuel) is Success <==> t@.is_prefix_of(s),
        t@.is_prefix_of(s) ==> node_outcome(rules, Node::Str(t), s, fuel) == Outcome::Success(
            Tree::Text(t),
            s.skip(t@.len() as int),
        ),
{
}

/// An `Or` node gives its first node's success; where the first node fails,
/// the second node's success; where both fail, the choice message.
pub proof fn law_or_node(rules: Seq<Option<Node>>, a: Node, b: Node, s: Seq<char>, fuel: nat)
    ensures
        node_outcome(rules, a, s, fuel) is Success ==> node_outcome(
            rules,
            Node::Or(Box::new(a), Box::new(b)),
            s,
            fuel,
        ) == node_outcome(rules, a, s, fuel),
        node_outcome(rules, a, s, fuel) is Failure && node_outcome(rules, b, s, fuel) is Success
            ==> node_outcome(rules, Node::Or(Box::new(a), Box::new(b)), s, fuel) == node_outcome(
            rules,
            b,
            s,
            fuel,
        ),
        node_outcome(rules, a, s, fuel) is Failure && node_outcome(rules, b, s, fuel) is Failure
            ==> node_outcome(rules, Node::Or(Box::new(a), Box::new(b)), s, fuel) == Outcome::<
            Tree,
        >::Failure(choice_message()),
{
}

/// An `Optional` node wraps its node's success in `Present`, and where its
/// node fails it gives `Nil` and leaves the input as it was.
pub proof fn law_optional_node(rules: Seq<Option<Node>>, a: Node, s: Seq<char>, fuel: nat)
    ensures
        node_outcome(rules, a, s, fuel) matches Outcome::Success(v, rest) ==> node_outcome(
            rules,
            Node::Optional(Box::new(a)),
            s,
            fuel,
        ) == Outcome::Success(Tree::Present(Box::new(v)), rest),
        node_outcome(rules, a, s, fuel) is Failure ==> node_outcome(
            rules,
            Node::Optional(Box::new(a)),
            s,
            fuel,
        ) == Outcome::Success(Tree::Nil, s),
{
}

/// A `Then` node succeeds exactly where its first node succeeds and its
/// second node succeeds on what the first left; its value pairs both values
/// and its rest is what the second left.
pub proof fn law_then_node(rules: Seq<Option<Node>>, a: Node, b: Node, s: Seq<char>, fuel: nat)
    ensures
        node_outcome(rules, Node::Then(Box::new(a), Box::new(b)), s, fuel) matches Outcome::Success(
            v,
            rest,
        ) ==> {
            &&& node_outcome(rules, a, s, fuel) matches Outcome::Success(va, rest1)
            &&& node_outcome(rules, b, rest1, fuel_after(rules, s, rest1, fuel)) matches Outcome::Success(
                vb,
                rest2,
            )
            &&& v == Tree::Pair(Box::new(va), Box::new(vb))
            &&& rest == rest2
        },
        node_outcome(rules, a, s, fuel) matches Outcome::Success(va, rest1) ==> (node_outcome(
            rules,
            b,
            rest1,
            fuel_after(rules, s, rest1, fuel),
        ) is Success && rest1.len() <= s.len() ==> node_outcome(
            rules,
            Node::Then(Box::new(a), Box::new(b)),
            s,
            fuel,
        ) is Success),
{
}

} // verus!

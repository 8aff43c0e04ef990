use parsevm::{Grammar, GrammarParser, Node, Parser, Tree};

fn b(node: Node) -> Box<Node> {
    Box::new(node)
}

fn t(tree: Tree) -> Box<Tree> {
    Box::new(tree)
}

// balanced = '(' balanced ')' | ""
fn balanced() -> GrammarParser {
    let mut grammar = Grammar::new();
    let rule = grammar.declare();
    let body = Node::Or(
        b(Node::Then(
            b(Node::Char('(')),
            b(Node::Then(b(Node::Rule(rule)), b(Node::Char(')')))),
        )),
        b(Node::Str("")),
    );
    grammar.define(rule, body);
    GrammarParser { grammar, start: rule }
}

#[test]
fn recursive_rule_parses_nested_input() {
    let result = balanced().parse("(())x".to_string());
    let inner = Tree::Pair(
        t(Tree::Char('(')),
        t(Tree::Pair(t(Tree::Text("")), t(Tree::Char(')')))),
    );
    let outer = Tree::Pair(t(Tree::Char('(')), t(Tree::Pair(t(inner), t(Tree::Char(')')))));
    assert_eq!(result, Ok((outer, "x".to_string())));
}

#[test]
fn recursive_rule_falls_back_on_unclosed_input() {
    let result = balanced().parse("(".to_string());
    assert_eq!(result, Ok((Tree::Text(""), "(".to_string())));
}

#[test]
fn undefined_rule_fails_like_empty_forward_parser() {
    let mut grammar = Grammar::new();
    let rule = grammar.declare();
    let parser = GrammarParser { grammar, start: rule };
    assert_eq!(parser.parse("a".to_string()), Err("Forward Parser not implemented".to_string()));
}

#[test]
fn reference_made_before_definition_sees_it() {
    let mut grammar = Grammar::new();
    let start = grammar.declare();
    let later = grammar.declare();
    grammar.define(start, Node::Then(b(Node::Char('a')), b(Node::Rule(later))));
    let parser = GrammarParser { grammar, start };
    assert_eq!(
        parser.parse("ab".to_string()),
        Err("Then 2nd : Forward Parser not implemented".to_string())
    );
    let mut grammar = parser.grammar;
    grammar.define(later, Node::Char('b'));
    let parser = GrammarParser { grammar, start };
    assert_eq!(
        parser.parse("ab".to_string()),
        Ok((Tree::Pair(t(Tree::Char('a')), t(Tree::Char('b'))), "".to_string()))
    );
}

#[test]
fn many_optional_and_many1_nodes() {
    let mut grammar = Grammar::new();
    let digits = grammar.declare();
    let sign = grammar.declare();
    let number = grammar.declare();
    grammar.define(digits, Node::Many1(b(Node::Or(b(Node::Char('1')), b(Node::Char('2'))))));
    grammar.define(sign, Node::Optional(b(Node::Char('-'))));
    grammar.define(number, Node::Then(b(Node::Rule(sign)), b(Node::Rule(digits))));
    let parser = GrammarParser { grammar, start: number };
    let list = Tree::Pair(
        t(Tree::Char('1')),
        t(Tree::Pair(t(Tree::Char('2')), t(Tree::Nil))),
    );
    assert_eq!(
        parser.parse("-12;".to_string()),
        Ok((Tree::Pair(t(Tree::Present(t(Tree::Char('-')))), t(list)), ";".to_string()))
    );
    assert_eq!(
        parser.parse("x".to_string()),
        Err("Then 2nd : Expected one of the parsers to succeed".to_string())
    );
}

#[test]
fn many_node_never_fails() {
    let mut grammar = Grammar::new();
    let rule = grammar.declare();
    grammar.define(rule, Node::Many(b(Node::Str("ab"))));
    let parser = GrammarParser { grammar, start: rule };
    assert_eq!(parser.parse("aba".to_string()), Ok((
        Tree::Pair(t(Tree::Text("ab")), t(Tree::Nil)),
        "a".to_string(),
    )));
    assert_eq!(parser.parse("".to_string()), Ok((Tree::Nil, "".to_string())));
}

use parsevm::{and_then, any_of, choice, pchar, pstring, CollectString, Const, Parser};

#[test]
fn char_parse() {
    let parse_a = pchar('a');
    let result = parse_a.parse("a".to_string());
    assert_eq!(result, Result::Ok(('a', "".to_string())));
}

#[test]
fn char_parse_with_remaining() {
    let parse_a = pchar('a');
    let result = parse_a.parse("ab".to_string());
    assert_eq!(result, Result::Ok(('a', "b".to_string())));
}

#[test]
fn str_parse() {
    let parse_hello = pstring("hello");
    let result = parse_hello.parse("hello".to_string());
    assert_eq!(result, Result::Ok(("hello", "".to_string())));
}

#[test]
fn str_parse_with_remaining() {
    let parse_hello = pstring("hello");
    let result = parse_hello.parse("helloworld".to_string());
    assert_eq!(result, Result::Ok(("hello", "world".to_string())));
}

#[test]
fn or_a() {
    let parse_a = pchar('a');
    let parse_b = pchar('b');
    let parser = parse_a.or(parse_b);
    let result = parser.parse("a".to_string());
    assert_eq!(result, Result::Ok(('a', "".to_string())));
}

#[test]
fn or_b() {
    let parse_a = pchar('a');
    let parse_b = pchar('b');
    let parser = parse_a.or(parse_b);
    let result = parser.parse("b".to_string());
    assert_eq!(result, Result::Ok(('b', "".to_string())));
}

#[test]
fn a_then_b() {
    let parse_a = pchar('a');
    let parse_b = pchar('b');
    let parser = and_then(parse_a, parse_b);
    let result = parser.parse("ab".to_string());
    assert_eq!(result, Result::Ok((('a', 'b'), "".to_string())));
}

#[test]
fn simple_choice() {
    let parse_a = pchar('a');
    let parse_b = pchar('b');
    let parse_c = pchar('c');

    let parsers = vec![parse_a, parse_b, parse_c];
    let choice_parser = choice(parsers);
    let result = choice_parser.parse("c".to_string());
    assert_eq!(result, Result::Ok(('c', "".to_string())));
}

#[test]
fn any_of_test() {
    let parsers = vec!['1', '2', '3'];
    let choice_parser = any_of(&parsers);
    let result = choice_parser.parse("3".to_string());
    assert_eq!(result, Result::Ok(('3', "".to_string())));
}

#[test]
fn map_parser_test() {
    let true_parser = pchar('t');
    let false_parser = pchar('f');

    let true_parser = true_parser.map(Const { value: true });
    let false_parser = false_parser.map(Const { value: false });

    let true_result = true_parser.parse("t".to_string());
    let false_result = false_parser.parse("f".to_string());
    assert_eq!(true_result, Result::Ok((true, "".to_string())));
    assert_eq!(false_result, Result::Ok((false, "".to_string())));
}

#[test]
fn option_parser_test() {
    let true_parser = pchar('t');
    let true_option_parser = true_parser.optional();
    let true_result = true_option_parser.parse("t".to_string());

    assert_eq!(true_result, Result::Ok((Some('t'), "".to_string())));
}

#[test]
fn option_parser_test_negative() {
    let true_parser = pchar('t');
    let true_option_parser = true_parser.optional();
    let true_result = true_option_parser.parse("-t".to_string());

    assert_eq!(true_result, Result::Ok((None, "-t".to_string())));
}

#[test]
fn test_arbitrary_string() {
    let mut allowed_chars = Vec::new();
    for c in "abcdefghijklmnopqrstuvwxyzABCDEFGHIJKLMNOPQRSTUVWXYZ".chars() {
        allowed_chars.push(c);
    }
    let chars = any_of(&allowed_chars).many();

    let stringified = chars.map(CollectString);

    let result = stringified.parse("SomeValue A".to_string());

    assert_eq!(result, Result::Ok(("SomeValue".to_string(), " A".to_string())));
}

#[test]
fn between_test() {
    let foo = pstring("foo");
    let lparen = pchar('(');
    let rparen = pchar(')');

    let result = foo.between(lparen, rparen).parse("(foo)".to_string());

    assert_eq!(result, Result::Ok(("foo", "".to_string())));
}

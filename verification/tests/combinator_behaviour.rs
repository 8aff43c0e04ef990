use parsevm::{
    and_then, any_of, choice, forward, pchar, pstring, set_implementation, CharParser,
    CollectString, Const, Parser,
};

#[test]
fn char_error_on_empty_input() {
    let result = pchar('a').parse("".to_string());
    assert_eq!(result, Err("Empty String - expected a".to_string()));
}

#[test]
fn char_error_on_other_char() {
    let result = pchar('a').parse("bc".to_string());
    assert_eq!(result, Err("Expected a, got b. Remaining bc".to_string()));
}

#[test]
fn char_error_on_non_ascii_input() {
    let result = pchar('a').parse("éa".to_string());
    assert_eq!(result, Err("Expected a, got é. Remaining éa".to_string()));
}

#[test]
fn non_ascii_char_parser_rejects_other_input() {
    let result = pchar('é').parse("abc".to_string());
    assert_eq!(result, Err("Expected é, got a. Remaining abc".to_string()));
}

#[test]
fn string_error() {
    let result = pstring("hello").parse("help".to_string());
    assert_eq!(result, Err("Expected hello".to_string()));
}

#[test]
fn string_longer_than_input() {
    let result = pstring("hello").parse("he".to_string());
    assert_eq!(result, Err("Expected hello".to_string()));
}

#[test]
fn string_with_non_ascii_chars() {
    let result = pstring("héllo").parse("héllo wörld".to_string());
    assert_eq!(result, Ok(("héllo", " wörld".to_string())));
}

#[test]
fn empty_string_parser_consumes_nothing() {
    let result = pstring("").parse("abc".to_string());
    assert_eq!(result, Ok(("", "abc".to_string())));
}

#[test]
fn and_then_first_fails() {
    let result = and_then(pchar('a'), pchar('b')).parse("xb".to_string());
    assert_eq!(result, Err("Then 1st : Expected a, got x. Remaining xb".to_string()));
}

#[test]
fn and_then_second_fails() {
    let result = and_then(pchar('a'), pchar('b')).parse("ax".to_string());
    assert_eq!(result, Err("Then 2nd : Expected b, got x. Remaining x".to_string()));
}

#[test]
fn and_then_method_nests() {
    let parser = pchar('a').and_then(pstring("bc")).and_then(pchar('d'));
    let result = parser.parse("abcde".to_string());
    assert_eq!(result, Ok(((('a', "bc"), 'd'), "e".to_string())));
}

#[test]
fn choice_all_fail() {
    let parser = choice(vec![pchar('a'), pchar('b')]);
    let result = parser.parse("c".to_string());
    assert_eq!(result, Err("Expected one of the parsers to succeed".to_string()));
}

#[test]
fn choice_of_nothing_fails() {
    let parser = choice(Vec::<CharParser>::new());
    let result = parser.parse("a".to_string());
    assert_eq!(result, Err("Expected one of the parsers to succeed".to_string()));
}

#[test]
fn or_prefers_first_success() {
    let parser = pstring("ab").or(pstring("a"));
    assert_eq!(parser.parse("abc".to_string()), Ok(("ab", "c".to_string())));
    assert_eq!(parser.parse("ac".to_string()), Ok(("a", "c".to_string())));
}

#[test]
fn map_error_is_prefixed() {
    let parser = pchar('t').map(Const { value: true });
    let result = parser.parse("f".to_string());
    assert_eq!(result, Err("MapParser : Expected t, got f. Remaining f".to_string()));
}

#[test]
fn optional_on_empty_input() {
    let result = pchar('a').optional().parse("".to_string());
    assert_eq!(result, Ok((None, "".to_string())));
}

#[test]
fn many_collects_all() {
    let result = pchar('a').many().parse("aaab".to_string());
    assert_eq!(result, Ok((vec!['a', 'a', 'a'], "b".to_string())));
}

#[test]
fn many_never_fails() {
    let result = pchar('a').many().parse("".to_string());
    assert_eq!(result, Ok((vec![], "".to_string())));
    let result = pchar('a').many().parse("bbb".to_string());
    assert_eq!(result, Ok((vec![], "bbb".to_string())));
}

#[test]
fn many1_needs_one() {
    let result = pchar('a').many1().parse("bbb".to_string());
    assert_eq!(result, Err("Expected a, got b. Remaining bbb".to_string()));
    let result = pchar('a').many1().parse("aab".to_string());
    assert_eq!(result, Ok((vec!['a', 'a'], "b".to_string())));
}

#[test]
fn left_and_right() {
    let left = pchar('a').left(pchar('b'));
    assert_eq!(left.parse("abc".to_string()), Ok(('a', "c".to_string())));
    let right = pchar('a').right(pchar('b'));
    assert_eq!(right.parse("abc".to_string()), Ok(('b', "c".to_string())));
}

#[test]
fn between_fails_without_closing() {
    let result = pstring("foo").between(pchar('('), pchar(')')).parse("(foo]".to_string());
    assert_eq!(
        result,
        Err("MapParser : Then 2nd : MapParser : Then 2nd : Expected ), got ]. Remaining ]"
            .to_string())
    );
}

#[test]
fn ws_skips_whitespace() {
    let result = pchar('a').ws().parse("a \t\n\rb".to_string());
    assert_eq!(result, Ok(('a', "b".to_string())));
    let result = pchar('a').ws().parse("ab".to_string());
    assert_eq!(result, Ok(('a', "b".to_string())));
}

#[test]
fn ws1_needs_whitespace() {
    let result = pchar('a').ws1().parse("a  b".to_string());
    assert_eq!(result, Ok(('a', "b".to_string())));
    let result = pchar('a').ws1().parse("ab".to_string());
    assert_eq!(
        result,
        Err("MapParser : Then 2nd : Expected one of the parsers to succeed".to_string())
    );
}

#[test]
fn forward_without_implementation_fails() {
    let parser = forward::<CharParser>();
    let result = parser.parse("a".to_string());
    assert_eq!(result, Err("Forward Parser not implemented".to_string()));
}

#[test]
fn forward_with_implementation() {
    let mut parser = forward::<CharParser>();
    set_implementation(&mut parser, pchar('a'));
    let result = parser.parse("ab".to_string());
    assert_eq!(result, Ok(('a', "b".to_string())));
}

#[test]
fn rc_parser_delegates() {
    let parser = pchar('x').to_rc();
    assert_eq!(parser.parse("xy".to_string()), Ok(('x', "y".to_string())));
}

#[test]
fn collect_string_keeps_chars() {
    let parser = any_of(&['é', 'x']).many().map(CollectString);
    let result = parser.parse("xx!".to_string());
    assert_eq!(result, Ok(("xx".to_string(), "!".to_string())));
}

#[test]
fn const_replaces_value() {
    let parser = pstring("yes").map(Const { value: 'y' });
    assert_eq!(parser.parse("yes!".to_string()), Ok(('y', "!".to_string())));
}

#[test]
fn set_implementation_changes_only_the_given_handle() {
    let mut parser = forward::<CharParser>();
    let earlier = parser.clone();
    set_implementation(&mut parser, pchar('a'));
    assert_eq!(parser.parse("a".to_string()), Ok(('a', "".to_string())));
    assert_eq!(
        earlier.parse("a".to_string()),
        Err("Forward Parser not implemented".to_string())
    );
}

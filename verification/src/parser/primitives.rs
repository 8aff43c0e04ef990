use vstd::prelude::*;

use crate::parser::combinators::ChoiceParser;
use crate::parser::outcome::Outcome;
use crate::parser::text::push_char;
use crate::parser::traits::Parser;

verus! {

/// Parses one given character.
pub struct CharParser {
    pub c: char,
}

/// Parses one given string.
pub struct StringParser {
    pub string: &'static str,
}

/// The message for a character expected at the end of the input.
pub open spec fn char_empty_message(c: char) -> Seq<char> {
    "Empty String - expected "@.push(c)
}

/// The message for a character expected where another one stands.
pub open spec fn char_mismatch_message(c: char, head: char, input: Seq<char>) -> Seq<char> {
    "Expected "@.push(c) + ", got "@.push(head) + ". Remaining "@ + input
}

/// The message for a string that the input does not start with.
pub open spec fn string_message(s: Seq<char>) -> Seq<char> {
    "Expected "@ + s
}

/// A character that UTF-8 encodes in one byte.
pub open spec fn is_ascii_char(c: char) -> bool {
    (c as u32) < 128
}

impl Parser for CharParser {
    type Output = char;

    /// Succeeds on an input that starts with `c`, consuming it. Taking the
    /// rest of the input cuts the string after its first byte, so a match on
    /// a character that takes more than one byte does not return.
    open spec fn spec_parse(&self, input: Seq<char>) -> Outcome<char> {
        if input.len() == 0 {
            Outcome::Failure(char_empty_message(self.c))
        } else if input[0] == self.c {
            if is_ascii_char(self.c) {
                Outcome::Success(self.c, input.drop_first())
            } else {
                Outcome::Stuck
            }
        } else {
            Outcome::Failure(char_mismatch_message(self.c, input[0], input))
        }
    }

    fn parse(&self, input: String) -> (r: Result<(char, String), String>) {
        let s = input.as_str();
        if s.is_empty() {
            let mut e = String::from_str("Empty String - expected ");
            push_char(&mut e, self.c);
            return Err(e);
        }
        let head = s.get_char(0);
        if head == self.c {
            let n = s.unicode_len();
            let rest = String::from_str(s.substring_char(1, n));
            assert(rest@ =~= input@.drop_first());
            Ok((self.c, rest))
        } else {
            let mut e = String::from_str("Expected ");
            push_char(&mut e, self.c);
            e.append(", got ");
            push_char(&mut e, head);
            e.append(". Remaining ");
            e.append(s);
            Err(e)
        }
    }

    proof fn lemma_consumes_prefix(&self, input: Seq<char>) {
        if input.len() > 0 {
            assert(input.drop_first() =~= input.skip(1));
        }
    }
}

/// The rest of `input` after `prefix`, if `input` starts with `prefix`.
fn strip_prefix(input: &str, prefix: &str) -> (r: Option<String>)
    ensures
        r is Some <==> prefix@.is_prefix_of(input@),
        r matches Some(rest) ==> rest@ == input@.skip(prefix@.len() as int),
{
    let n = prefix.unicode_len();
    let m = input.unicode_len();
    if n > m {
        return None;
    }
    let mut i: usize = 0;
    while i < n
        invariant
            n == prefix@.len(),
            m == input@.len(),
            n <= m,
            i <= n,
            forall|j: int| 0 <= j < i ==> prefix@[j] == input@[j],
        decreases n - i,
    {
        if prefix.get_char(i) != input.get_char(i) {
            return None;
        }
        i = i + 1;
    }
    assert(prefix@ =~= input@.subrange(0, n as int));
    Some(String::from_str(input.substring_char(n, m)))
}

impl Parser for StringParser {
    type Output = &'static str;

    /// Succeeds on an input that starts with `string`, consuming it.
    open spec fn spec_parse(&self, input: Seq<char>) -> Outcome<Seq<char>> {
        if self.string@.is_prefix_of(input) {
            Outcome::Success(self.string@, input.skip(self.string@.len() as int))
        } else {
            Outcome::Failure(string_message(self.string@))
        }
    }

    fn parse(&self, input: String) -> (r: Result<(&'static str, String), String>) {
        match strip_prefix(input.as_str(), self.string) {
            Some(rest) => {
                let value: &'static str = self.string;
                assert(value.deep_view() == self.string@);
                Ok((value, rest))
            },
            None => {
                let mut e = String::from_str("Expected ");
                e.append(self.string);
                Err(e)
            },
        }
    }

    proof fn lemma_consumes_prefix(&self, input: Seq<char>) {
    }
}

/// A parser of the character `c`.
pub fn pchar(c: char) -> (r: CharParser)
    ensures
        r.c == c,
{
    CharParser { c }
}

/// A parser of the string `string`.
pub fn pstring(string: &'static str) -> (r: StringParser)
    ensures
        r.string == string,
{
    StringParser { string }
}

/// `p` tries exactly the characters of `chars`, in order.
pub open spec fn is_any_of(p: ChoiceParser<CharParser>, chars: Seq<char>) -> bool {
    &&& p.parsers@.len() == chars.len()
    &&& forall|i: int| 0 <= i < chars.len() ==> (#[trigger] p.parsers@[i]).c == chars[i]
}

/// A parser of any one of `chars`.
pub fn any_of(chars: &[char]) -> (r: ChoiceParser<CharParser>)
    ensures
        is_any_of(r, chars@),
{
    let mut char_parsers: Vec<CharParser> = Vec::new();
    let mut i: usize = 0;
    while i < chars.len()
        invariant
            i <= chars@.len(),
            char_parsers@.len() == i,
            forall|j: int| 0 <= j < i ==> (#[trigger] char_parsers@[j]).c == chars@[j],
        decreases chars@.len() - i,
    {
        char_parsers.push(pchar(chars[i]));
        i = i + 1;
    }
    ChoiceParser { parsers: char_parsers }
}

} // verus!

use vstd::prelude::*;

use std::rc::Rc;

use crate::parser::combinators::{
    choice_message, choice_outcome, forward_message, many_outcome, prepend, AndThenParser,
    ChoiceParser, ForwardParser, ManyParser, Many1Parser, MapParser, OptionParser,
};
use crate::parser::mappers::{CollectString, Const, First, Second};
use crate::parser::outcome::Outcome;
use crate::parser::primitives::{is_any_of, is_ascii_char, CharParser, StringParser};
use crate::parser::traits::{is_suffix_of, whitespace_chars, Mapper, Parser};

verus! {

/// `optional` never fails: where its parser fails it succeeds with `None`
/// and leaves the input as it was.
pub proof fn law_optional_never_fails<P: Parser>(p: OptionParser<P>, input: Seq<char>)
    ensures
        !(p.spec_parse(input) is Failure),
        p.parser.spec_parse(input) is Failure ==> p.spec_parse(input) == Outcome::<
            Option<<P::Output as DeepView>::V>,
        >::Success(None, input),
{
}

/// `many` never fails: where its parser fails at once it succeeds with no
/// values and leaves the input as it was.
pub proof fn law_many_never_fails<P: Parser>(p: ManyParser<P>, input: Seq<char>)
    ensures
        !(p.spec_parse(input) is Failure),
        p.parser.spec_parse(input) is Failure ==> p.spec_parse(input) == Outcome::<
            Seq<<P::Output as DeepView>::V>,
        >::Success(Seq::empty(), input),
    decreases input.len(),
{
    if let Outcome::Success(v, rest) = p.parser.spec_parse(input) {
        if rest.len() < input.len() {
            law_many_never_fails(p, rest);
        }
    }
}

/// `many1` is its parser once and then `many` of it: it fails exactly where
/// its parser fails, with the same message; where the first parse succeeds
/// it gives what `many` gives on the rest, with the first value in front
/// (so it does not return where that `many` does not); and a success holds at
/// least one value, the first parse's.
pub proof fn law_many1_is_one_then_many<P: Parser>(p: Many1Parser<P>, input: Seq<char>)
    ensures
        p.parser.spec_parse(input) matches Outcome::Failure(e) ==> p.spec_parse(input)
            == Outcome::<Seq<<P::Output as DeepView>::V>>::Failure(e),
        p.parser.spec_parse(input) matches Outcome::Success(v, rest) ==> p.spec_parse(input)
            == prepend(seq![v], ManyParser { parser: p.parser }.spec_parse(rest)),
        p.spec_parse(input) matches Outcome::Success(vs, _) ==> {
            &&& vs.len() >= 1
            &&& p.parser.spec_parse(input) matches Outcome::Success(v, _)
            &&& vs[0] == v
        },
{
    if let Outcome::Success(v, rest) = p.parser.spec_parse(input) {
        law_many_never_fails(ManyParser { parser: p.parser }, rest);
    }
}

/// `a.or(b)` gives `a`'s success where `a` succeeds, else `b`'s success; where
/// both fail it fails with the choice message.
pub proof fn law_or_prefers_first<P: Parser>(c: ChoiceParser<P>, a: P, b: P, input: Seq<char>)
    requires
        c.parsers@ == seq![a, b],
    ensures
        c.spec_parse(input) == match a.spec_parse(input) {
            Outcome::Success(v, rest) => Outcome::Success(v, rest),
            Outcome::Failure(_) => match b.spec_parse(input) {
                Outcome::Success(v, rest) => Outcome::Success(v, rest),
                Outcome::Failure(_) => Outcome::Failure(choice_message()),
                Outcome::Stuck => Outcome::Stuck,
            },
            Outcome::Stuck => Outcome::Stuck,
        },
{
    reveal_with_fuel(choice_outcome, 3);
}

/// `a.left(b)` succeeds exactly where `a` then `b` does, with the same rest
/// and `a`'s value.
pub proof fn law_left_keeps_first<A: Parser, B: Parser>(
    l: MapParser<AndThenParser<A, B>, First>,
    input: Seq<char>,
)
    ensures
        l.parser.spec_parse(input) matches Outcome::Success(v, rest) ==> l.spec_parse(input)
            == Outcome::<<A::Output as DeepView>::V>::Success(v.0, rest),
        l.spec_parse(input) is Success <==> l.parser.spec_parse(input) is Success,
        l.spec_parse(input) is Stuck <==> l.parser.spec_parse(input) is Stuck,
{
}

/// `a.right(b)` succeeds exactly where `a` then `b` does, with the same rest
/// and `b`'s value.
pub proof fn law_right_keeps_second<A: Parser, B: Parser>(
    r: MapParser<AndThenParser<A, B>, Second>,
    input: Seq<char>,
)
    ensures
        r.parser.spec_parse(input) matches Outcome::Success(v, rest) ==> r.spec_parse(input)
            == Outcome::<<B::Output as DeepView>::V>::Success(v.1, rest),
        r.spec_parse(input) is Success <==> r.parser.spec_parse(input) is Success,
        r.spec_parse(input) is Stuck <==> r.parser.spec_parse(input) is Stuck,
{
}

/// `p.between(l, r)` succeeds with `p`'s value exactly where `l`, then `p`,
/// then `r` succeed one after the other; the rest is what `r` left.
pub proof fn law_between<P: Parser, L: Parser, R: Parser>(
    b: MapParser<AndThenParser<L, MapParser<AndThenParser<P, R>, First>>, Second>,
    input: Seq<char>,
)
    ensures
        b.spec_parse(input) is Success <==> {
            &&& b.parser.parser_a.spec_parse(input) matches Outcome::Success(_, rest1)
            &&& b.parser.parser_b.parser.parser_a.spec_parse(rest1) matches Outcome::Success(
                _,
                rest2,
            )
            &&& b.parser.parser_b.parser.parser_b.spec_parse(rest2) is Success
        },
        b.spec_parse(input) matches Outcome::Success(v, rest) ==> {
            &&& b.parser.parser_a.spec_parse(input) matches Outcome::Success(_, rest1)
            &&& b.parser.parser_b.parser.parser_a.spec_parse(rest1) matches Outcome::Success(
                w,
                rest2,
            )
            &&& v == w
            &&& b.parser.parser_b.parser.parser_b.spec_parse(rest2) matches Outcome::Success(
                _,
                rest3,
            )
            &&& rest == rest3
        },
{
}

/// A character parser that succeeds consumes exactly its character.
pub proof fn law_pchar_consumes_one(p: CharParser, input: Seq<char>)
    ensures
        p.spec_parse(input) is Success <==> input.len() > 0 && input[0] == p.c && is_ascii_char(
            p.c,
        ),
        p.spec_parse(input) is Success ==> p.spec_parse(input) == Outcome::Success(
            p.c,
            input.drop_first(),
        ),
{
}

/// A string parser succeeds exactly on the inputs that start with its string,
/// and leaves what follows it.
pub proof fn law_pstring_prefix(p: StringParser, input: Seq<char>)
    ensures
        p.spec_parse(input) is Success <==> p.string@.is_prefix_of(input),
        p.spec_parse(input) is Success ==> p.spec_parse(input) == Outcome::Success(
            p.string@,
            input.skip(p.string@.len() as int),
        ),
        !(p.spec_parse(input) is Stuck),
{
}

/// A parser of any of `chars` takes the first input character if it is one
/// of `chars`, and fails with the choice message otherwise.
pub proof fn law_any_of(p: ChoiceParser<CharParser>, chars: Seq<char>, input: Seq<char>)
    requires
        is_any_of(p, chars),
    ensures
        input.len() > 0 && chars.contains(input[0]) && is_ascii_char(input[0])
            ==> p.spec_parse(input) == Outcome::Success(input[0], input.drop_first()),
        input.len() > 0 && chars.contains(input[0]) && !is_ascii_char(input[0])
            ==> p.spec_parse(input) is Stuck,
        !(input.len() > 0 && chars.contains(input[0])) ==> p.spec_parse(input)
            == Outcome::<char>::Failure(choice_message()),
{
    lemma_any_of_from(p, chars, input, 0);
    assert(chars.subrange(0, chars.len() as int) =~= chars);
}

proof fn lemma_any_of_from(p: ChoiceParser<CharParser>, chars: Seq<char>, input: Seq<char>, i: int)
    requires
        is_any_of(p, chars),
        0 <= i <= chars.len(),
    ensures
        input.len() > 0 && chars.subrange(i, chars.len() as int).contains(input[0])
            && is_ascii_char(input[0]) ==> choice_outcome(
            p.parsers@,
            i,
            input,
        ) == Outcome::Success(input[0], input.drop_first()),
        input.len() > 0 && chars.subrange(i, chars.len() as int).contains(input[0])
            && !is_ascii_char(input[0]) ==> choice_outcome(
            p.parsers@,
            i,
            input,
        ) is Stuck,
        !(input.len() > 0 && chars.subrange(i, chars.len() as int).contains(input[0]))
            ==> choice_outcome(p.parsers@, i, input)
            == Outcome::<char>::Failure(choice_message()),
    decreases chars.len() - i,
{
    if i < chars.len() {
        lemma_any_of_from(p, chars, input, i + 1);
        let tail = chars.subrange(i, chars.len() as int);
        assert(tail[0] == chars[i]);
        assert(p.parsers@[i].c == chars[i]);
        if input.len() > 0 && tail.contains(input[0]) && input[0] != chars[i] {
            let k = choose|k: int| 0 <= k < tail.len() && #[trigger] tail[k] == input[0];
            assert(chars.subrange(i + 1, chars.len() as int)[k - 1] == input[0]);
        }
        let rest = chars.subrange(i + 1, chars.len() as int);
        if input.len() > 0 && rest.contains(input[0]) {
            let k = choose|k: int| 0 <= k < rest.len() && #[trigger] rest[k] == input[0];
            assert(tail[k + 1] == input[0]);
        }
    } else {
        assert(chars.subrange(i, chars.len() as int).len() == 0);
    }
}

/// `rest` is what is left of `s` after all its leading whitespace: the
/// characters of `s` before `rest` are whitespace, and `rest` does not start
/// with a whitespace character.
pub open spec fn skips_whitespace(s: Seq<char>, rest: Seq<char>) -> bool {
    &&& is_suffix_of(rest, s)
    &&& forall|i: int| 0 <= i < s.len() - rest.len() ==> whitespace_chars().contains(#[trigger] s[i])
    &&& (rest.len() == 0 || !whitespace_chars().contains(rest[0]))
}

proof fn lemma_whitespace_is_ascii(c: char)
    requires
        whitespace_chars().contains(c),
    ensures
        is_ascii_char(c),
{
    let k = choose|k: int| 0 <= k < whitespace_chars().len() && #[trigger] whitespace_chars()[k] == c;
    assert(k == 0 || k == 1 || k == 2 || k == 3);
}

/// Repeating a parser of the whitespace characters always succeeds, taking
/// exactly the leading whitespace.
pub proof fn lemma_many_whitespace(p: ChoiceParser<CharParser>, s: Seq<char>)
    requires
        is_any_of(p, whitespace_chars()),
    ensures
        many_outcome(p, s) matches Outcome::Success(_, rest) && skips_whitespace(s, rest),
    decreases s.len(),
{
    law_any_of(p, whitespace_chars(), s);
    if s.len() > 0 && whitespace_chars().contains(s[0]) {
        lemma_whitespace_is_ascii(s[0]);
        let rest1 = s.drop_first();
        lemma_many_whitespace(p, rest1);
        if let Outcome::Success(vs, rest) = many_outcome(p, rest1) {
            assert(rest =~= s.skip(s.len() - rest.len()));
            assert forall|i: int| 0 <= i < s.len() - rest.len() implies whitespace_chars().contains(
                #[trigger] s[i],
            ) by {
                if i > 0 {
                    assert(s[i] == rest1[i - 1]);
                }
            }
        }
    } else {
        assert(s.skip(0) =~= s);
    }
}

/// `p.ws()` succeeds exactly where `p` does, with `p`'s value, and then takes
/// all the whitespace that follows.
pub proof fn law_ws<P: Parser>(
    w: MapParser<AndThenParser<P, ManyParser<ChoiceParser<CharParser>>>, First>,
    input: Seq<char>,
)
    requires
        is_any_of(w.parser.parser_b.parser, whitespace_chars()),
    ensures
        w.spec_parse(input) is Success <==> w.parser.parser_a.spec_parse(input) is Success,
        w.spec_parse(input) matches Outcome::Success(v, rest) ==> {
            &&& w.parser.parser_a.spec_parse(input) matches Outcome::Success(pv, prest)
            &&& v == pv
            &&& skips_whitespace(prest, rest)
        },
{
    if let Outcome::Success(pv, prest) = w.parser.parser_a.spec_parse(input) {
        lemma_many_whitespace(w.parser.parser_b.parser, prest);
    }
}

/// `p.ws1()` succeeds exactly where `p` succeeds and is followed by at least
/// one whitespace character, with `p`'s value, taking all that whitespace.
pub proof fn law_ws1<P: Parser>(
    w: MapParser<AndThenParser<P, Many1Parser<ChoiceParser<CharParser>>>, First>,
    input: Seq<char>,
)
    requires
        is_any_of(w.parser.parser_b.parser, whitespace_chars()),
    ensures
        w.spec_parse(input) is Success <==> (w.parser.parser_a.spec_parse(input) matches Outcome::Success(_, prest)
            && prest.len() > 0 && whitespace_chars().contains(prest[0])),
        w.spec_parse(input) matches Outcome::Success(v, rest) ==> {
            &&& w.parser.parser_a.spec_parse(input) matches Outcome::Success(pv, prest)
            &&& v == pv
            &&& skips_whitespace(prest, rest)
        },
{
    let ws = w.parser.parser_b.parser;
    if let Outcome::Success(pv, prest) = w.parser.parser_a.spec_parse(input) {
        law_any_of(ws, whitespace_chars(), prest);
        if prest.len() > 0 && whitespace_chars().contains(prest[0]) {
            lemma_whitespace_is_ascii(prest[0]);
            let rest1 = prest.drop_first();
            lemma_many_whitespace(ws, rest1);
            if let Outcome::Success(vs, rest) = many_outcome(ws, rest1) {
                assert(rest =~= prest.skip(prest.len() - rest.len()));
                assert forall|i: int| 0 <= i < prest.len() - rest.len() implies whitespace_chars().contains(
                    #[trigger] prest[i],
                ) by {
                    if i > 0 {
                        assert(prest[i] == rest1[i - 1]);
                    }
                }
            }
        }
    }
}

/// `p.map(f)` succeeds exactly where `p` does, with the same rest and `f`
/// applied to the value; its failures carry `p`'s message after a prefix.
pub proof fn law_map<P: Parser, M: Mapper<P::Output>>(m: MapParser<P, M>, input: Seq<char>)
    ensures
        m.parser.spec_parse(input) matches Outcome::Success(v, rest) ==> m.spec_parse(input)
            == Outcome::<<M::Out as DeepView>::V>::Success(m.f.spec_map(v), rest),
        m.spec_parse(input) is Success <==> m.parser.spec_parse(input) is Success,
        m.spec_parse(input) is Stuck <==> m.parser.spec_parse(input) is Stuck,
        m.parser.spec_parse(input) matches Outcome::Failure(e) ==> m.spec_parse(input)
            == Outcome::<<M::Out as DeepView>::V>::Failure("MapParser : "@ + e),
{
}

/// `many` over a parser that never gets stuck and consumes something
/// whenever it succeeds never gets stuck either.
pub proof fn law_many_not_stuck<P: Parser>(p: ManyParser<P>, input: Seq<char>)
    requires
        forall|s: Seq<char>| !(#[trigger] p.parser.spec_parse(s) is Stuck),
        forall|s: Seq<char>|
            #[trigger] p.parser.spec_parse(s) matches Outcome::Success(_, rest) ==> rest.len()
                < s.len(),
    ensures
        !(p.spec_parse(input) is Stuck),
    decreases input.len(),
{
    if let Outcome::Success(v, rest) = p.parser.spec_parse(input) {
        law_many_not_stuck(p, rest);
    }
}

/// Trying the parsers of `ps` followed by those of `qs` is trying `ps`, and
/// where all of them fail, trying `qs`.
pub proof fn law_choice_concat<P: Parser>(
    c: ChoiceParser<P>,
    a: ChoiceParser<P>,
    b: ChoiceParser<P>,
    input: Seq<char>,
)
    requires
        c.parsers@ == a.parsers@ + b.parsers@,
    ensures
        c.spec_parse(input) == match a.spec_parse(input) {
            Outcome::Success(v, rest) => Outcome::Success(v, rest),
            Outcome::Failure(_) => b.spec_parse(input),
            Outcome::Stuck => Outcome::Stuck,
        },
{
    lemma_choice_concat_from(a.parsers@, b.parsers@, 0, input);
}

proof fn lemma_choice_concat_from<P: Parser>(ps: Seq<P>, qs: Seq<P>, i: int, input: Seq<char>)
    requires
        0 <= i <= ps.len(),
    ensures
        choice_outcome(ps + qs, i, input) == match choice_outcome(ps, i, input) {
            Outcome::Success(v, rest) => Outcome::Success(v, rest),
            Outcome::Failure(_) => choice_outcome(qs, 0, input),
            Outcome::Stuck => Outcome::Stuck,
        },
    decreases ps.len() - i,
{
    if i < ps.len() {
        assert((ps + qs)[i] == ps[i]);
        lemma_choice_concat_from(ps, qs, i + 1, input);
    } else {
        lemma_choice_shift(ps, qs, 0, input);
    }
}

proof fn lemma_choice_shift<P: Parser>(ps: Seq<P>, qs: Seq<P>, j: int, input: Seq<char>)
    requires
        0 <= j <= qs.len(),
    ensures
        choice_outcome(ps + qs, ps.len() + j, input) == choice_outcome(qs, j, input),
    decreases qs.len() - j,
{
    if j < qs.len() {
        assert((ps + qs)[ps.len() + j] == qs[j]);
        lemma_choice_shift(ps, qs, j + 1, input);
    }
}

/// A choice of one parser gives that parser's success.
pub proof fn law_choice_single<P: Parser>(c: ChoiceParser<P>, q: P, input: Seq<char>)
    requires
        c.parsers@ == seq![q],
    ensures
        q.spec_parse(input) is Success ==> c.spec_parse(input) == q.spec_parse(input),
        q.spec_parse(input) is Failure ==> c.spec_parse(input) == Outcome::<
            <P::Output as DeepView>::V,
        >::Failure(choice_message()),
        q.spec_parse(input) is Stuck ==> c.spec_parse(input) is Stuck,
{
    reveal_with_fuel(choice_outcome, 2);
}

/// For a parser that never gets stuck and consumes something whenever it
/// succeeds, `many1` succeeds exactly where the parser does, and then gives
/// what `many` gives; `many` gives a non-empty sequence exactly there.
pub proof fn law_many1_agrees_with_many<P: Parser>(p: P, input: Seq<char>)
    requires
        forall|s: Seq<char>| !(#[trigger] p.spec_parse(s) is Stuck),
        forall|s: Seq<char>|
            #[trigger] p.spec_parse(s) matches Outcome::Success(_, rest) ==> rest.len() < s.len(),
    ensures
        (Many1Parser { parser: p }).spec_parse(input) is Success <==> p.spec_parse(input) is Success,
        p.spec_parse(input) is Success ==> (Many1Parser { parser: p }).spec_parse(input)
            == (ManyParser { parser: p }).spec_parse(input),
        (ManyParser { parser: p }).spec_parse(input) matches Outcome::Success(vs, _) ==> (vs.len()
            > 0 <==> p.spec_parse(input) is Success),
{
    assert(!(p.spec_parse(input) is Stuck));
    if let Outcome::Success(v, rest) = p.spec_parse(input) {
        assert(rest.len() < input.len());
        law_many_not_stuck(ManyParser { parser: p }, rest);
        law_many_never_fails(ManyParser { parser: p }, rest);
    }
}

/// Where its parser succeeds, `optional` succeeds with that value wrapped in
/// `Some` and the same rest.
pub proof fn law_optional_keeps_success<P: Parser>(p: OptionParser<P>, input: Seq<char>)
    ensures
        p.parser.spec_parse(input) matches Outcome::Success(v, rest) ==> p.spec_parse(input)
            == Outcome::<Option<<P::Output as DeepView>::V>>::Success(Some(v), rest),
        p.spec_parse(input) matches Outcome::Success(Some(v), rest) ==> p.parser.spec_parse(input)
            == Outcome::<<P::Output as DeepView>::V>::Success(v, rest),
        p.spec_parse(input) matches Outcome::Success(None, rest) ==> rest == input
            && p.parser.spec_parse(input) is Failure,
{
}

/// `many` stops only where its parser fails: what it leaves is an input on
/// which its parser fails, and it leaves the input as it was exactly when it
/// collects no value.
pub proof fn law_many_stops_where_parser_fails<P: Parser>(m: ManyParser<P>, input: Seq<char>)
    ensures
        m.spec_parse(input) matches Outcome::Success(vs, rest) ==> {
            &&& m.parser.spec_parse(rest) is Failure
            &&& (vs.len() == 0 <==> rest.len() == input.len())
            &&& rest.len() <= input.len()
        },
    decreases input.len(),
{
    if let Outcome::Success(v, r) = m.parser.spec_parse(input) {
        if r.len() < input.len() {
            law_many_stops_where_parser_fails(m, r);
        }
    }
}

/// Where its parser succeeds with value `v` and consumes something, `many`
/// gives `v` followed by what `many` gives on the rest: every repetition,
/// until the parser fails.
pub proof fn law_many_unfolds<P: Parser>(m: ManyParser<P>, input: Seq<char>)
    ensures
        m.parser.spec_parse(input) matches Outcome::Success(v, rest) ==> (rest.len()
            < input.len() ==> m.spec_parse(input) == prepend(seq![v], m.spec_parse(rest))),
        m.parser.spec_parse(input) matches Outcome::Success(v, rest) ==> (rest.len()
            < input.len() ==> (m.spec_parse(input) matches Outcome::Success(vs, _) ==> (vs.len()
            >= 1 && vs[0] == v))),
{
    if let Outcome::Success(v, rest) = m.parser.spec_parse(input) {
        if rest.len() < input.len() {
            law_many_never_fails(m, rest);
        }
    }
}

/// A forward parser with an implementation parses exactly as that
/// implementation; without one it fails with the forward message.
pub proof fn law_forward_is_its_implementation<P: Parser>(f: ForwardParser<P>, input: Seq<char>)
    ensures
        f.parser matches Some(p) ==> f.spec_parse(input) == p.spec_parse(input),
        f.parser is None ==> f.spec_parse(input) == Outcome::<<P::Output as DeepView>::V>::Failure(
            forward_message(),
        ),
{
}

/// A parser behind an `Rc` parses exactly as the parser itself.
pub proof fn law_rc_is_its_parser<P: Parser>(r: Rc<P>, input: Seq<char>)
    ensures
        r.spec_parse(input) == (*r).spec_parse(input),
{
}

/// `a` then `b` succeeds exactly where `a` succeeds and `b` succeeds on what
/// `a` left; the value is the pair of both values and the rest is what `b`
/// left. A failure of `a` or of `b` carries its message after a prefix.
pub proof fn law_and_then<A: Parser, B: Parser>(t: AndThenParser<A, B>, input: Seq<char>)
    ensures
        t.spec_parse(input) is Success <==> (t.parser_a.spec_parse(input) matches Outcome::Success(
            _,
            rest1,
        ) && t.parser_b.spec_parse(rest1) is Success),
        t.spec_parse(input) matches Outcome::Success(v, rest) ==> {
            &&& t.parser_a.spec_parse(input) matches Outcome::Success(v1, rest1)
            &&& v.0 == v1
            &&& t.parser_b.spec_parse(rest1) matches Outcome::Success(v2, rest2)
            &&& v.1 == v2
            &&& rest == rest2
        },
        t.parser_a.spec_parse(input) matches Outcome::Failure(e) ==> t.spec_parse(input)
            == Outcome::<(<A::Output as DeepView>::V, <B::Output as DeepView>::V)>::Failure(
            "Then 1st : "@ + e,
        ),
{
}

/// `CollectString` keeps every character, in order.
pub proof fn law_collect_string_keeps_chars(x: Seq<char>)
    ensures
        CollectString.spec_map(x) == x,
        CollectString.spec_map(x).len() == x.len(),
{
}

/// `p.many().map(CollectString)` gives a string of exactly the characters
/// that `many` collected, and the same rest.
pub proof fn law_collected_string<P: Parser<Output = char>>(
    m: MapParser<ManyParser<P>, CollectString>,
    input: Seq<char>,
)
    ensures
        m.spec_parse(input) matches Outcome::Success(text, rest) ==> {
            &&& m.parser.spec_parse(input) matches Outcome::Success(chars, rest2)
            &&& text == chars
            &&& rest == rest2
        },
        m.spec_parse(input) is Success <==> m.parser.spec_parse(input) is Success,
{
}

/// `First` keeps the first of a pair, `Second` the second, and `Const`
/// gives its value whatever it is given.
pub proof fn law_mappers<A: DeepView, B: DeepView, T: Copy + DeepView>(
    a: A::V,
    b: B::V,
    c: Const<T>,
    x: A::V,
)
    ensures
        Mapper::<(A, B)>::spec_map(&First, (a, b)) == a,
        Mapper::<(A, B)>::spec_map(&Second, (a, b)) == b,
        Mapper::<A>::spec_map(&c, x) == c.value.deep_view(),
{
}

} // verus!

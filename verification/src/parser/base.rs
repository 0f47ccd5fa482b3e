use vstd::prelude::*;

use crate::parser::types::{outcome_matches, Check, Outcome, Parser, ParserResult, Transform};

verus! {

/// Parser that matches a fixed literal at the head of the input.
///
/// An empty literal matches trivially, consuming nothing; the repetition
/// combinators guard against such zero-width matches, so composing an empty
/// literal under them cannot loop.
#[derive(Clone, Copy)]
pub struct MatchLiteral<'e> {
    pub expected: &'e str,
}

impl<'e> Parser<()> for MatchLiteral<'e> {
    open spec fn outcome(&self, input: Seq<char>) -> Outcome<()> {
        if self.expected@.len() <= input.len() && input.take(self.expected@.len() as int)
            == self.expected@ {
            Outcome::Match { consumed: self.expected@.len(), value: () }
        } else {
            Outcome::NoMatch { at: input }
        }
    }

    proof fn lemma_consumed_bounded(&self, input: Seq<char>) {
    }

    fn parse<'a>(&self, input: &'a str) -> (r: ParserResult<'a, ()>) {
        let n: usize = self.expected.unicode_len();
        let len: usize = input.unicode_len();
        if len < n {
            return Err(input);
        }
        let mut i: usize = 0;
        while i < n
            invariant
                i <= n,
                n == self.expected@.len(),
                n <= len == input@.len(),
                forall|j: int| 0 <= j < i ==> input@[j] == self.expected@[j],
            decreases n - i,
        {
            if input.get_char(i) != self.expected.get_char(i) {
                proof {
                    assert(input@.take(n as int)[i as int] == input@[i as int]);
                }
                return Err(input);
            }
            i = i + 1;
        }
        let rest = input.substring_char(n, len);
        proof {
            assert(input@.take(n as int) =~= self.expected@);
            assert(rest@ =~= input@.skip(n as int));
        }
        Ok((rest, ()))
    }
}

/// Build a parser that succeeds exactly when the input begins with the
/// `expected` character sequence, consuming exactly those characters and
/// producing a unit signal; on any other input it fails at the original
/// input.
pub fn match_literal<'e>(expected: &'e str) -> (p: MatchLiteral<'e>)
    ensures
        p.expected == expected,
{
    MatchLiteral { expected }
}

/// Parser that takes the single character at the head of the input.
#[derive(Clone, Copy)]
pub struct AnyChar;

impl Parser<char> for AnyChar {
    open spec fn outcome(&self, input: Seq<char>) -> Outcome<char> {
        if input.len() > 0 {
            Outcome::Match { consumed: 1, value: input[0] }
        } else {
            Outcome::NoMatch { at: input }
        }
    }

    proof fn lemma_consumed_bounded(&self, input: Seq<char>) {
    }

    fn parse<'a>(&self, input: &'a str) -> (r: ParserResult<'a, char>) {
        let len: usize = input.unicode_len();
        if len == 0 {
            return Err(input);
        }
        let c = input.get_char(0);
        let rest = input.substring_char(1, len);
        proof {
            assert(rest@ =~= input@.skip(1));
        }
        Ok((rest, c))
    }
}

/// Build the parser that succeeds on any non-empty input, producing the
/// first character and advancing past exactly that character; it fails on
/// empty input.
pub fn any_char() -> (p: AnyChar)
    ensures
        p == AnyChar,
{
    AnyChar
}

/// Parser that runs two parsers in sequence and pairs their values.
#[derive(Clone, Copy)]
pub struct Pair<P1, P2> {
    pub first: P1,
    pub second: P2,
}

impl<P1, P2, R1, R2> Parser<(R1, R2)> for Pair<P1, P2> where
    P1: Parser<R1>,
    P2: Parser<R2>,
    R1: DeepView,
    R2: DeepView,
 {
    open spec fn outcome(&self, input: Seq<char>) -> Outcome<(R1::V, R2::V)> {
        match self.first.outcome(input) {
            Outcome::Match { consumed: c1, value: v1 } => match self.second.outcome(
                input.skip(c1 as int),
            ) {
                Outcome::Match { consumed: c2, value: v2 } => (Outcome::Match {
                    consumed: c1 + c2,
                    value: (v1, v2),
                }),
                Outcome::NoMatch { at } => Outcome::NoMatch { at },
            },
            Outcome::NoMatch { at } => Outcome::NoMatch { at },
        }
    }

    proof fn lemma_consumed_bounded(&self, input: Seq<char>) {
        self.first.lemma_consumed_bounded(input);
        if let Outcome::Match { consumed: c1, .. } = self.first.outcome(input) {
            self.second.lemma_consumed_bounded(input.skip(c1 as int));
        }
    }

    fn parse<'a>(&self, input: &'a str) -> (r: ParserResult<'a, (R1, R2)>) {
        match self.first.parse(input) {
            Ok((rest1, v1)) => {
                proof {
                    self.first.lemma_consumed_bounded(input@);
                }
                match self.second.parse(rest1) {
                    Ok((rest2, v2)) => {
                        proof {
                            let c1: nat = self.first.outcome(input@)->Match_consumed;
                            let c2: nat = self.second.outcome(rest1@)->Match_consumed;
                            self.second.lemma_consumed_bounded(rest1@);
                            vstd::seq_lib::lemma_seq_skip_of_skip(input@, c1 as int, c2 as int);
                        }
                        Ok((rest2, (v1, v2)))
                    },
                    Err(e) => Err(e),
                }
            },
            Err(e) => Err(e),
        }
    }
}

/// Combine two parsers in sequence: the result runs `p1`, then on success
/// runs `p2` on the remainder, producing the ordered pair of their values
/// and the final remainder. If either fails, the failure propagates with
/// that parser's own failure position, and `p2` is never run after a
/// failure of `p1`.
pub fn pair<P1, P2, R1, R2>(p1: P1, p2: P2) -> (p: Pair<P1, P2>) where
    P1: Parser<R1>,
    P2: Parser<R2>,
    R1: DeepView,
    R2: DeepView,

    ensures
        p.first == p1,
        p.second == p2,
{
    Pair { first: p1, second: p2 }
}

/// Parser that tries one parser, and on failure the other, from the same
/// input.
#[derive(Clone, Copy)]
pub struct Or<P1, P2> {
    pub first: P1,
    pub second: P2,
}

impl<P1, P2, R> Parser<R> for Or<P1, P2> where P1: Parser<R>, P2: Parser<R>, R: DeepView {
    open spec fn outcome(&self, input: Seq<char>) -> Outcome<R::V> {
        match self.first.outcome(input) {
            Outcome::Match { consumed, value } => Outcome::Match { consumed, value },
            Outcome::NoMatch { .. } => self.second.outcome(input),
        }
    }

    proof fn lemma_consumed_bounded(&self, input: Seq<char>) {
        self.first.lemma_consumed_bounded(input);
        self.second.lemma_consumed_bounded(input);
    }

    fn parse<'a>(&self, input: &'a str) -> (r: ParserResult<'a, R>) {
        match self.first.parse(input) {
            Ok(success) => Ok(success),
            Err(_) => self.second.parse(input),
        }
    }
}

/// Combine two parsers as alternatives: the result tries `p1` first, and if
/// `p1` fails it tries `p2` on the original input (never on any partial
/// consumption of `p1`). It succeeds with whichever of the two succeeds
/// first, and fails with `p2`'s failure if both fail.
pub fn or<P1, P2, R>(p1: P1, p2: P2) -> (p: Or<P1, P2>) where
    P1: Parser<R>,
    P2: Parser<R>,
    R: DeepView,

    ensures
        p.first == p1,
        p.second == p2,
{
    Or { first: p1, second: p2 }
}

/// Parser that makes another parser's success optional.
#[derive(Clone, Copy)]
pub struct Optional<P> {
    pub parser: P,
}

impl<P, R> Parser<Option<R>> for Optional<P> where P: Parser<R>, R: DeepView {
    open spec fn outcome(&self, input: Seq<char>) -> Outcome<Option<R::V>> {
        match self.parser.outcome(input) {
            Outcome::Match { consumed, value } => (Outcome::Match {
                consumed,
                value: Some(value),
            }),
            Outcome::NoMatch { .. } => Outcome::Match { consumed: 0, value: None },
        }
    }

    proof fn lemma_consumed_bounded(&self, input: Seq<char>) {
        self.parser.lemma_consumed_bounded(input);
    }

    fn parse<'a>(&self, input: &'a str) -> (r: ParserResult<'a, Option<R>>) {
        match self.parser.parse(input) {
            Ok((rest, value)) => Ok((rest, Some(value))),
            Err(_) => {
                proof {
                    assert(input@.skip(0) =~= input@);
                }
                Ok((input, None))
            },
        }
    }
}

/// Make a parser optional: the result never fails. On success of `parser`
/// it produces the value wrapped as present, with the advanced input; on
/// failure it produces the absent marker and leaves the input unconsumed.
pub fn optional<P, R>(parser: P) -> (p: Optional<P>) where P: Parser<R>, R: DeepView
    ensures
        p.parser == parser,
{
    Optional { parser }
}

/// Parser that filters another parser's value through a predicate.
#[derive(Clone, Copy)]
pub struct Pred<P, C> {
    pub parser: P,
    pub condition: C,
}

impl<P, C, R> Parser<R> for Pred<P, C> where P: Parser<R>, C: Check<R>, R: DeepView {
    open spec fn outcome(&self, input: Seq<char>) -> Outcome<R::V> {
        match self.parser.outcome(input) {
            Outcome::Match { consumed, value } => if self.condition.accepts(value) {
                Outcome::Match { consumed, value }
            } else {
                Outcome::NoMatch { at: input }
            },
            Outcome::NoMatch { at } => Outcome::NoMatch { at },
        }
    }

    proof fn lemma_consumed_bounded(&self, input: Seq<char>) {
        self.parser.lemma_consumed_bounded(input);
    }

    fn parse<'a>(&self, input: &'a str) -> (r: ParserResult<'a, R>) {
        match self.parser.parse(input) {
            Ok((rest, value)) => {
                if self.condition.test(&value) {
                    Ok((rest, value))
                } else {
                    Err(input)
                }
            },
            Err(e) => Err(e),
        }
    }
}

/// Filter a parser through a predicate: the result succeeds exactly when
/// `parser` succeeds and `condition` holds of the produced value. On
/// predicate rejection it fails at the original input, rolling back the
/// underlying consumption; a failure of `parser` propagates unchanged.
pub fn pred<P, C, R>(parser: P, condition: C) -> (p: Pred<P, C>) where
    P: Parser<R>,
    C: Check<R>,
    R: DeepView,

    ensures
        p.parser == parser,
        p.condition == condition,
{
    Pred { parser, condition }
}

/// Predicate that accepts exactly one given character.
#[derive(Clone, Copy)]
pub struct CharIs {
    pub expected: char,
}

impl Check<char> for CharIs {
    open spec fn accepts(&self, c: char) -> bool {
        c == self.expected
    }

    fn test(&self, v: &char) -> (r: bool) {
        *v == self.expected
    }
}

/// Transformation that drops a unit signal and yields a fixed value.
#[derive(Clone, Copy)]
pub struct Always<V> {
    pub value: V,
}

impl<V: DeepView + Copy> Transform<(), V> for Always<V> {
    open spec fn image(&self, v: ()) -> V::V {
        self.value.deep_view()
    }

    fn apply(&self, v: ()) -> (r: V) {
        self.value
    }
}

/// The ordered values and the total number of characters consumed when a
/// parser is applied greedily, over and over, starting from `input`.
///
/// Collection stops at the first application that fails, and also at the
/// first application that matches without consuming anything (a zero-width
/// match), which is dropped rather than collected: this keeps greedy
/// repetition of a parser that can match emptily from looping forever.
pub open spec fn repeat_collect<P, R>(parser: P, input: Seq<char>) -> (Seq<R::V>, nat) where
    P: Parser<R>,
    R: DeepView,

    decreases input.len(),
{
    match parser.outcome(input) {
        Outcome::Match { consumed, value } => {
            if 1 <= consumed <= input.len() {
                let rec = repeat_collect(parser, input.skip(consumed as int));
                (seq![value] + rec.0, (consumed + rec.1) as nat)
            } else {
                (Seq::empty(), 0)
            }
        },
        Outcome::NoMatch { .. } => (Seq::empty(), 0),
    }
}

/// Greedy collection consumes at most the whole input.
pub proof fn lemma_repeat_collect_bounded<P, R>(parser: P, input: Seq<char>) where
    P: Parser<R>,
    R: DeepView,

    ensures
        repeat_collect(parser, input).1 <= input.len(),
    decreases input.len(),
{
    match parser.outcome(input) {
        Outcome::Match { consumed, .. } => {
            if 1 <= consumed <= input.len() {
                lemma_repeat_collect_bounded(parser, input.skip(consumed as int));
            }
        },
        Outcome::NoMatch { .. } => {},
    }
}

/// Whether a collected match count lies within the given bounds: at least
/// `min` matches, and, where `max` is bounded, at most `max` matches.
pub open spec fn count_within(min: usize, max: Option<usize>, count: nat) -> bool {
    min as nat <= count && (max matches Some(m) ==> count <= m as nat)
}

/// Parser that applies another parser greedily and checks how many times it
/// matched against a count bound.
#[derive(Clone, Copy)]
pub struct Repeat<P> {
    pub parser: P,
    pub min: usize,
    pub max: Option<usize>,
}

impl<P, R> Parser<Vec<R>> for Repeat<P> where P: Parser<R>, R: DeepView {
    open spec fn outcome(&self, input: Seq<char>) -> Outcome<Seq<R::V>> {
        let collected = repeat_collect(self.parser, input);
        if count_within(self.min, self.max, collected.0.len()) {
            Outcome::Match { consumed: collected.1, value: collected.0 }
        } else {
            Outcome::NoMatch { at: input }
        }
    }

    proof fn lemma_consumed_bounded(&self, input: Seq<char>) {
        lemma_repeat_collect_bounded(self.parser, input);
    }

    fn parse<'a>(&self, input: &'a str) -> (r: ParserResult<'a, Vec<R>>) {
        let ghost collected = repeat_collect(self.parser, input@);
        let mut rest: &'a str = input;
        let mut out: Vec<R> = Vec::new();
        let ghost mut used: nat = 0;
        proof {
            assert(input@.skip(0) =~= input@);
        }
        loop
            invariant
                used <= input@.len(),
                rest@ == input@.skip(used as int),
                collected == repeat_collect(self.parser, input@),
                collected.0 == out.deep_view() + repeat_collect(self.parser, rest@).0,
                collected.1 == used + repeat_collect(self.parser, rest@).1,
            ensures
                used <= input@.len(),
                rest@ == input@.skip(used as int),
                collected.0 == out.deep_view(),
                collected.1 == used,
            decreases input@.len() - used,
        {
            let step = self.parser.parse(rest);
            match step {
                Ok((next, value)) => {
                    proof {
                        self.parser.lemma_consumed_bounded(rest@);
                    }
                    let ghost consumed: nat = self.parser.outcome(rest@)->Match_consumed;
                    let ghost stepv = self.parser.outcome(rest@)->Match_value;
                    let rest_len: usize = rest.unicode_len();
                    let next_len: usize = next.unicode_len();
                    if next_len == rest_len {
                        // A zero-width match: stop collecting, or greedy
                        // repetition would never move forward.
                        proof {
                            assert(consumed == 0);
                            assert(repeat_collect(self.parser, rest@).0
                                == Seq::<R::V>::empty());
                            assert(collected.0 =~= out.deep_view());
                        }
                        break ;
                    }
                    proof {
                        assert(consumed >= 1);
                        assert(repeat_collect(self.parser, rest@).0 == seq![stepv]
                            + repeat_collect(self.parser, next@).0);
                        assert(repeat_collect(self.parser, rest@).1 == consumed
                            + repeat_collect(self.parser, next@).1);
                        vstd::seq_lib::lemma_seq_skip_of_skip(
                            input@,
                            used as int,
                            consumed as int,
                        );
                        assert(next@ =~= input@.skip(used as int + consumed as int));
                    }
                    let ghost prev = out.deep_view();
                    out.push(value);
                    proof {
                        assert(out.deep_view() =~= prev.push(stepv));
                        assert(prev + (seq![stepv] + repeat_collect(self.parser, next@).0)
                            =~= prev.push(stepv) + repeat_collect(self.parser, next@).0);
                        used = used + consumed;
                    }
                    rest = next;
                },
                Err(_) => {
                    proof {
                        assert(repeat_collect(self.parser, rest@).0
                            == Seq::<R::V>::empty());
                        assert(collected.0 =~= out.deep_view());
                    }
                    break ;
                },
            }
        }
        let count: usize = out.len();
        let within: bool = match self.max {
            Some(m) => self.min <= count && count <= m,
            None => self.min <= count,
        };
        if within {
            Ok((rest, out))
        } else {
            Err(input)
        }
    }
}

/// Apply `parser` greedily, collecting the produced values in order until
/// it fails or stops consuming input; the result succeeds exactly when the
/// number of collected values is at least `min` and, where `max` is
/// bounded, at most `max`, producing the ordered values and the input left
/// after the last collected match. On a bound violation it fails at the
/// original, pre-repetition input.
pub fn range<P, R>(parser: P, min: usize, max: Option<usize>) -> (p: Repeat<P>) where
    P: Parser<R>,
    R: DeepView,

    ensures
        p.parser == parser,
        p.min == min,
        p.max == max,
{
    Repeat { parser, min, max }
}

/// Apply `parser` greedily with no bound on the count: the result never
/// fails, producing the ordered values of as many matches as the input
/// holds (possibly none).
pub fn zero_or_more<P, R>(parser: P) -> (p: Repeat<P>) where P: Parser<R>, R: DeepView
    ensures
        p.parser == parser,
        p.min == 0,
        p.max is None,
{
    range(parser, 0, None)
}

/// Apply `parser` greedily, requiring at least one match: the result fails,
/// at the original input, exactly when the first application of `parser`
/// collects nothing.
pub fn one_or_more<P, R>(parser: P) -> (p: Repeat<P>) where P: Parser<R>, R: DeepView
    ensures
        p.parser == parser,
        p.min == 1,
        p.max is None,
{
    range(parser, 1, None)
}

/// Parser that transforms another parser's value.
///
/// The marker records the value type of the underlying parser, which no
/// field would otherwise determine.
pub struct Mapped<P, F, R> {
    pub parser: P,
    pub transform: F,
    pub marker: core::marker::PhantomData<R>,
}

impl<P, F, R, S> Parser<S> for Mapped<P, F, R> where
    P: Parser<R>,
    F: Transform<R, S>,
    R: DeepView,
    S: DeepView,
 {
    open spec fn outcome(&self, input: Seq<char>) -> Outcome<S::V> {
        match self.parser.outcome(input) {
            Outcome::Match { consumed, value } => (Outcome::Match {
                consumed,
                value: self.transform.image(value),
            }),
            Outcome::NoMatch { at } => Outcome::NoMatch { at },
        }
    }

    proof fn lemma_consumed_bounded(&self, input: Seq<char>) {
        self.parser.lemma_consumed_bounded(input);
    }

    fn parse<'a>(&self, input: &'a str) -> (r: ParserResult<'a, S>) {
        match self.parser.parse(input) {
            Ok((rest, value)) => Ok((rest, self.transform.apply(value))),
            Err(e) => Err(e),
        }
    }
}

/// Transform a parser's value: on success of `parser` the result applies
/// the pure `transform` to the produced value, keeping the same advanced
/// input; a failure propagates unchanged, position untouched.
pub fn map<P, F, R, S>(parser: P, transform: F) -> (p: Mapped<P, F, R>) where
    P: Parser<R>,
    F: Transform<R, S>,
    R: DeepView,
    S: DeepView,

    ensures
        p.parser == parser,
        p.transform == transform,
{
    Mapped { parser, transform, marker: core::marker::PhantomData }
}

} // verus!

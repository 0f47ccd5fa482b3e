use vstd::prelude::*;

use crate::parser::base::{
    count_within, lemma_repeat_collect_bounded, repeat_collect, Mapped, MatchLiteral, Optional, Or,
    Pair, Pred, Repeat,
};
use crate::parser::types::{Check, Outcome, Parser, Transform};

verus! {

/// A literal parser matches exactly when the input starts with the expected
/// character sequence; it then consumes exactly those characters, so the
/// remaining input is the input with the first `expected` characters
/// removed, and on a mismatch it fails at the original input.
pub proof fn lemma_match_literal_matches_prefix<'e>(p: MatchLiteral<'e>, input: Seq<char>)
    ensures
        p.outcome(input) is Match <==> (p.expected@.len() <= input.len() && input.take(
            p.expected@.len() as int,
        ) == p.expected@),
        p.outcome(input) matches Outcome::Match { consumed, .. } ==> consumed
            == p.expected@.len(),
        p.outcome(input) matches Outcome::NoMatch { at } ==> at == input,
{
}

/// Sequencing matches exactly when the first parser matches and the second
/// matches on the first's remainder; the values pair up in order, the
/// consumed prefixes add up, and a failure of either side propagates with
/// that parser's own failure position.
pub proof fn lemma_pair_sequences<P1, P2, R1, R2>(p: Pair<P1, P2>, input: Seq<char>) where
    P1: Parser<R1>,
    P2: Parser<R2>,
    R1: DeepView,
    R2: DeepView,

    ensures
        p.first.outcome(input) matches Outcome::NoMatch { at } ==> p.outcome(input) == (Outcome::<
            (R1::V, R2::V),
        >::NoMatch { at }),
        p.first.outcome(input) matches Outcome::Match { consumed: c1, value: v1 } ==> (
        p.second.outcome(input.skip(c1 as int)) matches Outcome::Match { consumed: c2, value: v2 }
            ==> (p.outcome(input) == (Outcome::<(R1::V, R2::V)>::Match {
            consumed: (c1 + c2) as nat,
            value: (v1, v2),
        }))),
        p.first.outcome(input) matches Outcome::Match { consumed: c1, .. } ==> (
        p.second.outcome(input.skip(c1 as int)) matches Outcome::NoMatch { at } ==> (p.outcome(
            input,
        ) == (Outcome::<(R1::V, R2::V)>::NoMatch { at }))),
{
}

/// Alternation is first-match-wins: its result equals the first parser's
/// result where that matches, and otherwise equals the second parser's
/// result on the original input, untouched by anything the first parser
/// did before failing.
pub proof fn lemma_or_first_wins<P1, P2, R>(p: Or<P1, P2>, input: Seq<char>) where
    P1: Parser<R>,
    P2: Parser<R>,
    R: DeepView,

    ensures
        p.first.outcome(input) is Match ==> p.outcome(input) == p.first.outcome(input),
        p.first.outcome(input) is NoMatch ==> p.outcome(input) == p.second.outcome(input),
{
}

/// Unbounded repetition with no lower bound never fails, and what it
/// consumes reconstructs the input: the consumed prefix concatenated with
/// the remaining input is exactly the input, and the produced values are
/// the greedily collected ones.
pub proof fn lemma_zero_or_more_reconstructs<P, R>(p: Repeat<P>, input: Seq<char>) where
    P: Parser<R>,
    R: DeepView,

    requires
        p.min == 0,
        p.max is None,
    ensures
        p.outcome(input) is Match,
        p.outcome(input) matches Outcome::Match { consumed, value } ==> consumed <= input.len()
            && input.take(consumed as int) + input.skip(consumed as int) == input && value
            == repeat_collect(p.parser, input).0,
{
    lemma_repeat_collect_bounded(p.parser, input);
    let consumed: nat = repeat_collect(p.parser, input).1;
    assert(input.take(consumed as int) + input.skip(consumed as int) =~= input);
}

/// Repetition that requires at least one match fails exactly when the same
/// repetition with no lower bound would have produced an empty sequence.
pub proof fn lemma_one_or_more_vs_zero_or_more<P, R>(
    one: Repeat<P>,
    zero: Repeat<P>,
    input: Seq<char>,
) where P: Parser<R>, R: DeepView
    requires
        one.parser == zero.parser,
        one.min == 1,
        one.max is None,
        zero.min == 0,
        zero.max is None,
    ensures
        one.outcome(input) is NoMatch <==> (zero.outcome(input) matches Outcome::Match {
            value,
            ..
        } && value.len() == 0),
{
}

/// Bounded repetition matches exactly when the greedily collected match
/// count lies within the bounds; it then produces those values and consumes
/// what they consumed, and on a bound violation it fails at the original,
/// pre-repetition input.
pub proof fn lemma_range_counts<P, R>(p: Repeat<P>, input: Seq<char>) where
    P: Parser<R>,
    R: DeepView,

    ensures
        p.outcome(input) is Match <==> count_within(
            p.min,
            p.max,
            repeat_collect(p.parser, input).0.len(),
        ),
        p.outcome(input) matches Outcome::Match { consumed, value } ==> value == repeat_collect(
            p.parser,
            input,
        ).0 && consumed == repeat_collect(p.parser, input).1,
        p.outcome(input) matches Outcome::NoMatch { at } ==> at == input,
{
}

/// An optional parser never fails; where the underlying parser fails it
/// consumes nothing and produces the absent marker, so running it again on
/// its own failure-path remainder changes nothing.
pub proof fn lemma_optional_never_fails<P, R>(p: Optional<P>, input: Seq<char>) where
    P: Parser<R>,
    R: DeepView,

    ensures
        p.outcome(input) is Match,
        p.parser.outcome(input) is NoMatch ==> p.outcome(input) == (Outcome::<
            Option<R::V>,
        >::Match { consumed: 0, value: None }),
        p.parser.outcome(input) is NoMatch ==> p.outcome(input.skip(0)) == p.outcome(input),
{
    assert(input.skip(0) =~= input);
}

/// Predicate filtering matches exactly when the underlying parser matches
/// and the predicate accepts the produced value; the match is then the
/// underlying parser's, unchanged. On predicate rejection the failure
/// position is the original input, not the consumed remainder, and an
/// underlying failure propagates unchanged.
pub proof fn lemma_pred_filters<P, C, R>(p: Pred<P, C>, input: Seq<char>) where
    P: Parser<R>,
    C: Check<R>,
    R: DeepView,

    ensures
        p.outcome(input) is Match <==> (p.parser.outcome(input) matches Outcome::Match {
            value,
            ..
        } && p.condition.accepts(value)),
        p.outcome(input) is Match ==> p.outcome(input) == p.parser.outcome(input),
        (p.parser.outcome(input) matches Outcome::Match { value, .. } && !p.condition.accepts(
            value,
        )) ==> p.outcome(input) == (Outcome::<R::V>::NoMatch { at: input }),
        p.parser.outcome(input) is NoMatch ==> p.outcome(input) == p.parser.outcome(input),
{
}

/// Transformation preserves success and failure exactly: on a match it
/// keeps the consumed prefix (and so the remaining input) and applies the
/// transformation to the value; a failure passes through with its position
/// untouched.
pub proof fn lemma_map_preserves_structure<P, F, R, S>(p: Mapped<P, F, R>, input: Seq<char>) where
    P: Parser<R>,
    F: Transform<R, S>,
    R: DeepView,
    S: DeepView,

    ensures
        p.outcome(input) is Match <==> p.parser.outcome(input) is Match,
        p.parser.outcome(input) matches Outcome::Match { consumed, value } ==> p.outcome(input)
            == (Outcome::<S::V>::Match { consumed, value: p.transform.image(value) }),
        p.parser.outcome(input) matches Outcome::NoMatch { at } ==> p.outcome(input) == (Outcome::<
            S::V,
        >::NoMatch { at }),
{
}

} // verus!

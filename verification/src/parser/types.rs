use vstd::prelude::*;

verus! {

/// The result of running a parser: on success, the remaining (unconsumed)
/// input together with the produced value; on failure, the input position at
/// which matching gave up.
pub type ParserResult<'a, Output> = Result<(&'a str, Output), &'a str>;

/// The specification-level outcome of a parse: either a match that consumed
/// a prefix of `consumed` characters and produced `value`, or no match, with
/// `at` the input view reported as the failure position.
pub enum Outcome<V> {
    Match { consumed: nat, value: V },
    NoMatch { at: Seq<char> },
}

/// Relates an executable parse result to a specification-level outcome on
/// the given input: success exactly on a match, with the remaining input
/// being the suffix after the consumed prefix and the produced value agreeing
/// up to `deep_view`; failure exactly on no match, at the stated position.
pub open spec fn outcome_matches<'a, Output: DeepView>(
    input: Seq<char>,
    o: Outcome<Output::V>,
    r: ParserResult<'a, Output>,
) -> bool {
    match o {
        Outcome::Match { consumed, value } => r matches Ok((rest, v)) && rest@ == input.skip(
            consumed as int,
        ) && v.deep_view() == value,
        Outcome::NoMatch { at } => r matches Err(e) && e@ == at,
    }
}

/// A parser: a reusable, stateless value that attempts to match a prefix of
/// an input view and either produces a value of type `Output` together with
/// the remaining input, or fails at some input position.
///
/// The whole behaviour of a parser is pinned down by its specification-level
/// `outcome`; `parse` must return exactly what `outcome` says, and a match
/// never consumes more characters than the input has (monotonic consumption:
/// the remaining input is always a suffix of the input given to the call).
pub trait Parser<Output: DeepView>: Sized {
    /// What this parser does on any input view.
    spec fn outcome(&self, input: Seq<char>) -> Outcome<Output::V>;

    /// A match consumes at most the whole input, so the remaining input is
    /// always a genuine suffix of the input given to the call.
    proof fn lemma_consumed_bounded(&self, input: Seq<char>)
        ensures
            self.outcome(input) matches Outcome::Match { consumed, .. } ==> consumed
                <= input.len(),
    ;

    /// Run the parser on an input view.
    fn parse<'a>(&self, input: &'a str) -> (r: ParserResult<'a, Output>)
        ensures
            outcome_matches(input@, self.outcome(input@), r),
    ;
}

/// A predicate over parsed values, with its specification-level meaning:
/// `test` decides exactly the set of values that `accepts` describes.
pub trait Check<T: DeepView> {
    /// Which values the predicate holds of.
    spec fn accepts(&self, v: T::V) -> bool;

    /// Decide the predicate on a concrete value.
    fn test(&self, v: &T) -> (r: bool)
        ensures
            r == self.accepts(v.deep_view()),
    ;
}

/// A pure transformation of parsed values, with its specification-level
/// meaning: `apply` returns exactly the value that `image` describes.
pub trait Transform<T: DeepView, U: DeepView> {
    /// The value the transformation yields, at the specification level.
    spec fn image(&self, v: T::V) -> U::V;

    /// Transform a concrete value.
    fn apply(&self, v: T) -> (r: U)
        ensures
            r.deep_view() == self.image(v.deep_view()),
    ;
}

} // verus!

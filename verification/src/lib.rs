pub mod parser;

use vstd::prelude::*;

pub use parser::base::{
    any_char, match_literal, one_or_more, optional, or, pair, pred, range, zero_or_more, Always,
    AnyChar, CharIs, Mapped, MatchLiteral, Optional, Or, Pair, Pred, Repeat,
};
pub use parser::types::{Check, Outcome, Parser, ParserResult, Transform};

verus! {

/// Whether a character counts as alphanumeric.
pub uninterp spec fn alphanumeric(c: char) -> bool;

/// Relies on char::is_alphanumeric: whether a character is alphanumeric is a
/// property of the character alone.
#[verifier::external_body]
fn char_alphanumeric(c: char) -> (r: bool)
    ensures
        r == alphanumeric(c),
{
    c.is_alphanumeric()
}

/// Predicate that accepts exactly the alphanumeric characters.
#[derive(Clone, Copy)]
pub struct IsAlphanumeric;

impl Check<char> for IsAlphanumeric {
    open spec fn accepts(&self, c: char) -> bool {
        alphanumeric(c)
    }

    fn test(&self, v: &char) -> (r: bool) {
        char_alphanumeric(*v)
    }
}

/// Parse a single alphanumeric character off the head of the input and hand
/// back the very parser that matched it, ready to be reused on further
/// input: a small demonstration of composing the primitives.
pub fn literal_pattern<'a>(input: &'a str) -> (r: ParserResult<
    'a,
    Pred<AnyChar, IsAlphanumeric>,
>)
    ensures
        input@.len() > 0 && alphanumeric(input@[0]) ==> (r matches Ok((rest, q)) && rest@
            == input@.skip(1) && q == (Pred { parser: AnyChar, condition: IsAlphanumeric })),
        !(input@.len() > 0 && alphanumeric(input@[0])) ==> (r matches Err(e) && e@ == input@),
{
    let parser = pred(any_char(), IsAlphanumeric);
    match parser.parse(input) {
        Ok((rest, _)) => Ok((rest, parser)),
        Err(e) => Err(e),
    }
}

} // verus!

//! Random tokens: challenges of connections and ids of rows.

use vstd::prelude::*;

verus! {

/// The length of a token.
pub const TOKEN_LENGTH: usize = 21;

/// Whether a character may stand in a token: a letter, a digit, `_` or `-`.
pub open spec fn token_char(c: char) -> bool {
    ('a' <= c <= 'z') || ('A' <= c <= 'Z') || ('0' <= c <= '9') || c == '_' || c == '-'
}

/// Draws a token with `nanoid::format` from the generator
/// `nanoid::rngs::default` and the alphabet `nanoid::alphabet::SAFE`, which
/// holds letters, digits, `_` and `-`. The text is random; its length and
/// alphabet are not.
#[verifier::external_body]
pub(crate) fn draw_token() -> (r: String)
    ensures
        r@.len() == TOKEN_LENGTH,
        forall|i: int| 0 <= i < r@.len() ==> token_char(#[trigger] r@[i]),
{
    nanoid::format(nanoid::rngs::default, &nanoid::alphabet::SAFE, 21)
}

/// A token drawn at random: 21 characters, each a letter, a digit, `_` or
/// `-`.
pub fn fresh_token() -> (r: String)
    ensures
        r@.len() == TOKEN_LENGTH,
        forall|i: int| 0 <= i < r@.len() ==> token_char(#[trigger] r@[i]),
{
    draw_token()
}

} // verus!

//! The top-level resolver: literal first, then a random request, then hash.

use vstd::prelude::*;
use crate::color::Color;
use crate::hashing::hash_color;
use crate::literal::{literal_color, literal_parses};
use crate::text::{lower_str, lowered, trim_str, trimmed};

verus! {

/// The identifiers that request a random color: `r`, `rand` and `random`.
pub open spec fn random_identifier(w: Seq<char>) -> bool {
    w == "r"@ || w == "rand"@ || w == "random"@
}

/// A message requests a random color when its trimmed, lowercased form is
/// one of the identifiers.
pub open spec fn requests_random(s: Seq<char>) -> bool {
    random_identifier(lowered(trimmed(s)))
}

/// Decides whether a message requests a random color: its trimmed,
/// lowercased form must be one of the identifiers exactly.
pub fn is_random_identifier(s: &str) -> (b: bool)
    ensures
        b == requests_random(s@),
{
    let t = trim_str(s);
    let low = lower_str(t);
    low == String::from_str("r") || low == String::from_str("rand") || low == String::from_str(
        "random",
    )
}

impl Color {
    /// Resolves a message to a color along exactly one of three paths, in
    /// this priority order: a literal parse when it succeeds, whatever the
    /// message otherwise says; a random color when the message requests
    /// one; and otherwise the hash of the original, un-normalized message.
    /// Never fails.
    pub fn from_message(s: &str) -> (c: Color)
        ensures
            literal_parses(s@) ==> c == literal_color(s@),
            !literal_parses(s@) && !requests_random(s@) ==> c == hash_color(s@),
    {
        let parsed = Color::from_literal(s);
        match parsed {
            Ok(c) => c,
            Err(_) => {
                if is_random_identifier(s) {
                    Color::random()
                } else {
                    Color::from_hash(s)
                }
            },
        }
    }
}

} // verus!

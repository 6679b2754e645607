//! The hash generator: a deterministic color derived from a string's content.

use vstd::prelude::*;
use vstd::std_specs::hash::DefaultHasherAdditionalSpecFns;
use vstd::string::StringSliceAdditionalSpecFns;
use std::collections::hash_map::DefaultHasher;
use std::hash::Hasher;
use crate::color::Color;

verus! {

/// The 64-bit digest that the standard hasher computes over the raw bytes
/// (the UTF-8 encoding) of a string with the given characters.
pub open spec fn string_digest(v: Seq<char>) -> u64 {
    DefaultHasher::spec_finish(seq![vstd::utf8::encode_utf8(v)])
}

/// The low 32 bits of a 64-bit digest.
pub open spec fn low_word(h: u64) -> u32 {
    (h & 0xffff_ffff) as u32
}

/// The color carried by a 32-bit word: red in bits 24-31, green in bits
/// 16-23, blue in bits 8-15. Bits 0-7 take part in no channel.
pub open spec fn word_color(w: u32) -> Color {
    Color((((w >> 24) & 0xff) as u8), (((w >> 16) & 0xff) as u8), (((w >> 8) & 0xff) as u8))
}

/// The hash-derived color of a string with the given characters.
pub open spec fn hash_color(v: Seq<char>) -> Color {
    word_color(low_word(string_digest(v)))
}

/// Hashes a string's bytes and truncates the digest to its low 32 bits.
pub fn calculate_hash(s: &str) -> (w: u32)
    ensures
        w == low_word(string_digest(s@)),
{
    let mut hasher = DefaultHasher::new();
    hasher.write(s.as_bytes());
    let h: u64 = hasher.finish();
    proof {
        assert(hasher@ =~= seq![s.spec_bytes()]);
        assert(h & 0xffff_ffff <= 0xffff_ffff) by (bit_vector);
    }
    (h & 0xffff_ffff) as u32
}

impl Color {
    /// Derives a color deterministically from the string's content: the
    /// channels are bits 24-31, 16-23 and 8-15 of the truncated digest.
    /// Bits 0-7 form a fourth byte that is computed and discarded.
    pub fn from_hash(s: &str) -> (c: Color)
        ensures
            c == hash_color(s@),
    {
        let w = calculate_hash(s);

        proof {
            assert((w >> 24) & 0xff <= 0xff && (w >> 16) & 0xff <= 0xff && (w >> 8) & 0xff
                <= 0xff && w & 0xff <= 0xff) by (bit_vector);
        }
        let r = ((w >> 24) & 0xff) as u8;
        let g = ((w >> 16) & 0xff) as u8;
        let b = ((w >> 8) & 0xff) as u8;
        let _a = (w & 0xff) as u8;  // reserved for a possible alpha channel, never surfaced

        Color::new(r, g, b)
    }
}

/// Law: the hash path is deterministic. Any two colors that satisfy
/// `from_hash`'s contract for the same character sequence are equal.
pub proof fn lemma_from_hash_deterministic(v: Seq<char>, c1: Color, c2: Color)
    requires
        c1 == hash_color(v),
        c2 == hash_color(v),
    ensures
        c1 == c2,
{
}

/// Law: the discarded fourth byte never reaches a channel. Two words that
/// agree above bit 7 carry exactly the same color, whatever their low bytes.
pub proof fn lemma_discarded_byte_unused(w1: u32, w2: u32)
    requires
        w1 >> 8 == w2 >> 8,
    ensures
        word_color(w1) == word_color(w2),
{
    assert((w1 >> 24) & 0xff == (w2 >> 24) & 0xff && (w1 >> 16) & 0xff == (w2 >> 16) & 0xff && (
    w1 >> 8) & 0xff == (w2 >> 8) & 0xff) by (bit_vector)
        requires
            w1 >> 8 == w2 >> 8,
    ;
}

} // verus!

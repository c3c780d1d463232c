//! Order keys for similarity scores.
//!
//! The index never interprets vector components or scores as numbers: a score
//! travels as a 32-bit order key, and ranking compares keys with the ordinary
//! unsigned `<`. This module fixes the translation between a score's IEEE-754
//! bit pattern and its key.
//!
//! Read as sign and magnitude, a 32-bit pattern denotes the integer given by
//! [`sign_magnitude_value`]; non-exceptional IEEE-754 values compare exactly
//! as these integers do. [`score_key`] maps patterns to keys strictly
//! monotonically with respect to that reading (proved by
//! [`lemma_score_key_monotone`]), so ranking by descending key is ranking by
//! descending score. [`score_key_inv`] recovers the pattern from the key.

use vstd::prelude::*;

verus! {

/// The integer denoted by a 32-bit word read in sign-magnitude form: the low
/// 31 bits give the magnitude, the top bit negates it.
pub open spec fn sign_magnitude_value(bits: u32) -> int {
    if bits >= 0x8000_0000 {
        -((bits - 0x8000_0000) as int)
    } else {
        bits as int
    }
}

/// The order key of a 32-bit pattern: negative patterns map below
/// 0x8000_0000 with their order reversed, non-negative ones above.
pub open spec fn score_key_of(bits: u32) -> u32 {
    if bits >= 0x8000_0000 {
        (0xffff_ffffu32 - bits) as u32
    } else {
        (bits + 0x8000_0000) as u32
    }
}

/// The pattern whose order key is `key`; inverse of [`score_key_of`].
pub open spec fn score_key_inv_of(key: u32) -> u32 {
    if key >= 0x8000_0000 {
        (key - 0x8000_0000) as u32
    } else {
        (0xffff_ffffu32 - key) as u32
    }
}

/// Maps a score's bit pattern to its order key.
pub fn score_key(bits: u32) -> (key: u32)
    ensures
        key == score_key_of(bits),
{
    if bits >= 0x8000_0000 {
        0xffff_ffff - bits
    } else {
        bits + 0x8000_0000
    }
}

/// Maps an order key back to the score's bit pattern.
pub fn score_key_inv(key: u32) -> (bits: u32)
    ensures
        bits == score_key_inv_of(key),
{
    if key >= 0x8000_0000 {
        key - 0x8000_0000
    } else {
        0xffff_ffff - key
    }
}

/// Keys lose nothing: decoding a key recovers the exact pattern it was made
/// from, and distinct patterns get distinct keys.
pub proof fn lemma_score_key_roundtrip(bits: u32)
    ensures
        score_key_inv_of(score_key_of(bits)) == bits,
        score_key_of(score_key_inv_of(bits)) == bits,
{
}

/// Keys order patterns exactly as their sign-magnitude reading does, except
/// that the two zero patterns (+0 and -0) remain distinguished, the negative
/// one just below the positive one.
pub proof fn lemma_score_key_monotone(a: u32, b: u32)
    ensures
        sign_magnitude_value(a) < sign_magnitude_value(b) ==> score_key_of(a) < score_key_of(b),
        score_key_of(a) == score_key_of(b) <==> a == b,
{
}

} // verus!

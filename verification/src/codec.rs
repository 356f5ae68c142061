//! Packing of a caller's (fingerprint, score, revoked) triple into one word.

use vstd::prelude::*;
use crate::params::{FP_MASK, SCORE_MAX};

verus! {

/// Bit position of the score field.
pub const SCORE_SHIFT: u64 = 56;

/// The seven bits of the score field, before shifting.
pub const SCORE_FIELD: u64 = 0x7F;

/// Bit position of the revoked flag.
pub const REVOKED_SHIFT: u64 = 63;

/// The revoked flag in place.
pub const REVOKED_BIT: u64 = 0x8000_0000_0000_0000;

/// Weight of the lowest score bit: two to the 56th.
pub const SCORE_UNIT: u64 = 0x0100_0000_0000_0000;

/// The word that stands for a caller: the fingerprint in the low 56 bits,
/// the score in the next seven, the revoked flag on top.
pub open spec fn packed_entry(fingerprint: u64, score: u8, revoked: bool) -> int {
    fingerprint + score * SCORE_UNIT + if revoked { REVOKED_BIT } else { 0 }
}

/// Fingerprint field of a word.
pub open spec fn entry_fingerprint(word: u64) -> u64 {
    word % SCORE_UNIT
}

/// Score field of a word.
pub open spec fn entry_score(word: u64) -> u8 {
    ((word / SCORE_UNIT) % 128) as u8
}

/// Revoked flag of a word.
pub open spec fn entry_revoked(word: u64) -> bool {
    word >= REVOKED_BIT
}

/// A triple that `encode_caller_entry` accepts.
pub open spec fn valid_caller(fingerprint: u64, score: u8) -> bool {
    fingerprint <= FP_MASK && score <= SCORE_MAX
}

/// Packs a caller's triple into one word. The fingerprint must be within
/// its 56 bits and the score at most `SCORE_MAX`: nothing is masked here.
pub fn encode_caller_entry(fingerprint: u64, score: u8, revoked: bool) -> (word: u64)
    requires
        valid_caller(fingerprint, score),
    ensures
        word == packed_entry(fingerprint, score, revoked),
{
    let wide: u64 = score as u64;
    let flag: u64 = if revoked {
        REVOKED_BIT
    } else {
        0
    };
    assert(fingerprint <= FP_MASK && wide <= SCORE_FIELD && (flag == 0 || flag == REVOKED_BIT)
        ==> (fingerprint | (wide << SCORE_SHIFT) | flag) == fingerprint + wide * SCORE_UNIT + flag)
        by (bit_vector);
    fingerprint | (wide << SCORE_SHIFT) | flag
}

/// Unpacks a word into fingerprint, score and revoked flag. Every word is
/// taken: the score that comes out is whatever the seven bits hold.
pub fn decode_caller_entry(word: u64) -> (fields: (u64, u8, bool))
    ensures
        fields == (entry_fingerprint(word), entry_score(word), entry_revoked(word)),
{
    assert(word & FP_MASK == word % SCORE_UNIT) by (bit_vector);
    assert((word >> SCORE_SHIFT) & SCORE_FIELD == (word / SCORE_UNIT) % 128) by (bit_vector);
    assert(((word >> REVOKED_SHIFT) != 0) == (word >= REVOKED_BIT)) by (bit_vector);
    let fingerprint: u64 = word & FP_MASK;
    let score: u8 = ((word >> SCORE_SHIFT) & SCORE_FIELD) as u8;
    let revoked: bool = (word >> REVOKED_SHIFT) != 0;
    (fingerprint, score, revoked)
}

/// Masks `fp` to a fingerprint, packs it with the score and the flag, and
/// unpacks the word again: what comes out is what went in.
pub fn proof_encode_decode_roundtrip(fp: u64, score: u8, revoked: bool) -> (fields: (u64, u8, bool))
    requires
        score <= SCORE_MAX,
    ensures
        fields == (fp & FP_MASK, score, revoked),
{
    assert(fp & FP_MASK <= FP_MASK) by (bit_vector);
    let fp56: u64 = fp & FP_MASK;
    let entry: u64 = encode_caller_entry(fp56, score, revoked);
    decode_caller_entry(entry)
}

/// Decoding a packed triple gives the triple back, field by field.
pub proof fn lemma_decode_inverts_encode(fingerprint: u64, score: u8, revoked: bool)
    requires
        valid_caller(fingerprint, score),
    ensures
        packed_entry(fingerprint, score, revoked) <= u64::MAX,
        entry_fingerprint(packed_entry(fingerprint, score, revoked) as u64) == fingerprint,
        entry_score(packed_entry(fingerprint, score, revoked) as u64) == score,
        entry_revoked(packed_entry(fingerprint, score, revoked) as u64) == revoked,
{
}

/// The three fields of a word make up the whole word: packing what was
/// unpacked gives the word back.
pub proof fn lemma_encode_inverts_decode(word: u64)
    ensures
        entry_fingerprint(word) <= FP_MASK,
        entry_score(word) <= SCORE_FIELD,
        packed_entry(entry_fingerprint(word), entry_score(word), entry_revoked(word)) == word,
{
}

} // verus!

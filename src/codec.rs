//! The binary encoding of a [`Decimal`]: 19 bytes, little-endian throughout.
//!
//! | offset | length | field                                       |
//! |--------|--------|---------------------------------------------|
//! | 0      | 16     | magnitude, an unsigned 128-bit integer      |
//! | 16     | 2      | scale, a signed 16-bit integer              |
//! | 18     | 1      | sign: `0x00` positive, `0x01` negative      |
//!
//! Every 19-byte sequence decodes: a sign byte other than `0x00` reads as
//! negative, and no field is range-checked.

use vstd::prelude::*;
use crate::decimal::{CodecError, Decimal, DecimalParts};
use crate::le::{
    le_bytes, le_value, lemma_le_bytes_len, lemma_le_value_of_le_bytes, lemma_pow256_16,
    pow256, push_le, read_le,
};

verus! {

/// The number of bytes in every encoding.
pub const ENCODED_LEN: usize = 19;

/// The byte that encodes the sign flag.
pub open spec fn sign_byte(negative: bool) -> u8 {
    if negative {
        1
    } else {
        0
    }
}

/// The encoding of a decimal with fields `p`.
pub open spec fn encoding(p: DecimalParts) -> Seq<u8> {
    le_bytes(p.magnitude as nat, 16) + le_bytes((p.scale as u16) as nat, 2) + seq![
        sign_byte(p.negative),
    ]
}

/// The fields that the first 19 bytes of `s` encode.
pub open spec fn decoded(s: Seq<u8>) -> DecimalParts
    recommends
        s.len() >= 19,
{
    DecimalParts {
        magnitude: le_value(s.subrange(0, 16)) as u128,
        scale: (le_value(s.subrange(16, 18)) as u16) as i16,
        negative: s[18] != 0,
    }
}

/// Every encoding is exactly 19 bytes long.
pub proof fn lemma_encoding_len(p: DecimalParts)
    ensures
        encoding(p).len() == ENCODED_LEN,
{
    lemma_le_bytes_len(p.magnitude as nat, 16);
    lemma_le_bytes_len((p.scale as u16) as nat, 2);
}

/// Decoding an encoding gives back the same magnitude, scale and sign.
pub proof fn lemma_round_trip(p: DecimalParts)
    ensures
        decoded(encoding(p)) == p,
{
    let m = le_bytes(p.magnitude as nat, 16);
    let u = (p.scale as u16) as nat;
    let sc = le_bytes(u, 2);
    let e = encoding(p);
    lemma_encoding_len(p);
    lemma_le_bytes_len(p.magnitude as nat, 16);
    lemma_le_bytes_len(u, 2);
    assert(e.subrange(0, 16) =~= m);
    assert(e.subrange(16, 18) =~= sc);
    lemma_pow256_16();
    lemma_le_value_of_le_bytes(p.magnitude as nat, 16);
    reveal_with_fuel(pow256, 3);
    lemma_le_value_of_le_bytes(u, 2);
    let s = p.scale;
    assert(((s as u16) as i16) == s) by (bit_vector);
    assert(e[18] == sign_byte(p.negative));
}

/// A decimal read back from bytes that hold the encoding of `v` is `v` itself.
pub proof fn lemma_decode_encoded(v: Decimal, bytes: Seq<u8>, w: Decimal)
    requires
        bytes.len() >= ENCODED_LEN,
        bytes.subrange(0, ENCODED_LEN as int) == encoding(v@),
        w@ == decoded(bytes.subrange(0, ENCODED_LEN as int)),
    ensures
        w == v,
{
    lemma_round_trip(v@);
    Decimal::lemma_view_injective(w, v);
}

/// A negative zero decodes to zero, with its scale kept.
pub proof fn lemma_negative_zero(p: DecimalParts)
    requires
        p.magnitude == 0,
        p.negative,
    ensures
        decoded(encoding(p)).magnitude == 0,
        decoded(encoding(p)).scale == p.scale,
{
    lemma_round_trip(p);
}

impl Decimal {
    /// The number of bytes that encoding this value takes.
    pub fn bytes_needed(&self) -> (r: usize)
        ensures
            r == ENCODED_LEN,
    {
        ENCODED_LEN
    }

    /// The number of bytes that a decode reads.
    pub fn minimum_bytes_needed() -> (r: usize)
        ensures
            r == ENCODED_LEN,
    {
        ENCODED_LEN
    }

    /// Appends the encoding of this value to `out`.
    pub fn write_to(&self, out: &mut Vec<u8>)
        ensures
            final(out)@ == old(out)@ + encoding(self@),
            final(out)@.len() == old(out)@.len() + ENCODED_LEN,
    {
        let ghost start = out@;
        proof {
            lemma_encoding_len(self@);
        }
        push_le(out, self.magnitude(), 16);
        push_le(out, self.scale() as u16 as u128, 2);
        out.push(if self.is_negative() { 1u8 } else { 0u8 });
        assert(out@ =~= start + encoding(self@));
    }

    /// Writes the encoding of this value to the start of `buf`.
    ///
    /// Fails with `DestinationCapacity`, leaving `buf` as it was, when `buf`
    /// is shorter than an encoding.
    pub fn write_to_buffer(&self, buf: &mut [u8]) -> (r: Result<(), CodecError>)
        ensures
            final(buf)@.len() == old(buf)@.len(),
            r is Ok <==> old(buf)@.len() >= ENCODED_LEN,
            r is Ok ==> final(buf)@.subrange(0, ENCODED_LEN as int) == encoding(self@),
            r is Ok ==> final(buf)@.subrange(ENCODED_LEN as int, final(buf)@.len() as int)
                == old(buf)@.subrange(ENCODED_LEN as int, old(buf)@.len() as int),
            r is Err ==> r == Err::<(), CodecError>(CodecError::DestinationCapacity),
            r is Err ==> final(buf)@ == old(buf)@,
    {
        if buf.len() < ENCODED_LEN {
            return Err(CodecError::DestinationCapacity);
        }
        let mut bytes: Vec<u8> = Vec::new();
        self.write_to(&mut bytes);
        proof {
            lemma_encoding_len(self@);
            assert(bytes@ =~= encoding(self@));
        }
        let mut i: usize = 0;
        while i < ENCODED_LEN
            invariant
                i <= ENCODED_LEN <= buf@.len(),
                buf@.len() == old(buf)@.len(),
                bytes@ == encoding(self@),
                bytes@.len() == ENCODED_LEN,
                forall|j: int| 0 <= j < i ==> buf@[j] == bytes@[j],
                forall|j: int| i <= j < buf@.len() ==> buf@[j] == old(buf)@[j],
            decreases ENCODED_LEN - i,
        {
            buf[i] = bytes[i];
            i = i + 1;
        }
        assert(buf@.subrange(0, ENCODED_LEN as int) =~= encoding(self@));
        assert(buf@.subrange(ENCODED_LEN as int, buf@.len() as int) =~= old(buf)@.subrange(
            ENCODED_LEN as int,
            old(buf)@.len() as int,
        ));
        Ok(())
    }

    /// Decodes a value from `bytes` at offset `*pos` and moves `*pos` past it.
    ///
    /// Fails with `InsufficientInput`, leaving `*pos` as it was, when fewer
    /// than 19 bytes follow `*pos`; never on the contents of the bytes.
    pub fn read_from(bytes: &[u8], pos: &mut usize) -> (r: Result<Decimal, CodecError>)
        ensures
            r is Ok <==> *old(pos) + ENCODED_LEN <= bytes@.len(),
            r is Ok ==> r->Ok_0@ == decoded(
                bytes@.subrange(*old(pos) as int, *old(pos) + ENCODED_LEN),
            ),
            r is Ok ==> *final(pos) == *old(pos) + ENCODED_LEN,
            r is Err ==> r == Err::<Decimal, CodecError>(CodecError::InsufficientInput),
            r is Err ==> *final(pos) == *old(pos),
    {
        let start = *pos;
        if start > bytes.len() || bytes.len() - start < ENCODED_LEN {
            return Err(CodecError::InsufficientInput);
        }
        let int_val = read_le(bytes, start, 16);
        let scale = read_le(bytes, start + 16, 2);
        let negative = bytes[start + 18] != 0;
        *pos = start + ENCODED_LEN;
        let ghost s = bytes@.subrange(start as int, start + ENCODED_LEN);
        assert(s.subrange(0, 16) =~= bytes@.subrange(start as int, start + 16));
        assert(s.subrange(16, 18) =~= bytes@.subrange(start + 16, start + 18));
        Ok(Decimal::from_parts_unchecked(int_val, scale as u16 as i16, negative))
    }

    /// Decodes a value from the start of `buf`; bytes after the first 19 are
    /// not read.
    ///
    /// Fails with `InsufficientInput` exactly when `buf` is shorter than 19
    /// bytes.
    pub fn read_from_buffer(buf: &[u8]) -> (r: Result<Decimal, CodecError>)
        ensures
            r is Ok <==> buf@.len() >= ENCODED_LEN,
            r is Ok ==> r->Ok_0@ == decoded(buf@.subrange(0, ENCODED_LEN as int)),
            r is Err ==> r == Err::<Decimal, CodecError>(CodecError::InsufficientInput),
    {
        let mut pos: usize = 0;
        Decimal::read_from(buf, &mut pos)
    }
}

} // verus!

use vstd::prelude::*;

verus! {

/// The framing mask XOR-stripped from the first byte of an encoding with
/// the given byte length: no bits for one byte, `110.....`, `1110....`
/// or `11110...` for the longer forms.
pub open spec fn header_mask(len: int) -> u8
    recommends
        1 <= len <= 4,
{
    if len == 1 {
        0x00
    } else if len == 2 {
        0xC0
    } else if len == 3 {
        0xE0
    } else {
        0xF0
    }
}

/// How many leading bits of the first byte are framing: the displayed
/// header is `0`, `110`, `1110` or `11110`.
pub open spec fn header_bit_width(len: int) -> nat
    recommends
        1 <= len <= 4,
{
    if len == 1 {
        1
    } else if len == 2 {
        3
    } else if len == 3 {
        4
    } else {
        5
    }
}

/// The leading framing bits of the first byte, read as a number.
pub open spec fn header_pattern(len: int) -> u8
    recommends
        1 <= len <= 4,
{
    if len == 1 {
        0b0
    } else if len == 2 {
        0b110
    } else if len == 3 {
        0b1110
    } else {
        0b11110
    }
}

/// How many payload bits the byte at position `i` contributes to the
/// scalar value: whatever the header leaves of the first byte, and six
/// for every continuation byte.
pub open spec fn payload_bit_width(len: int, i: int) -> nat
    recommends
        1 <= len <= 4,
        0 <= i < len,
{
    if i == 0 {
        (8 - header_bit_width(len)) as nat
    } else {
        6
    }
}

/// The mask selecting the payload bits of the first byte.
pub open spec fn payload_mask(len: int) -> u8
    recommends
        1 <= len <= 4,
{
    if len == 1 {
        0x7F
    } else if len == 2 {
        0x1F
    } else if len == 3 {
        0x0F
    } else {
        0x07
    }
}

/// The payload byte at position `i`: the raw byte with its framing bits
/// cleared by XOR, exactly as the decoder strips them. A byte whose
/// framing bits do not match the expected pattern is not detected here;
/// the XOR then flips bits instead of clearing them.
pub open spec fn payload_byte(bytes: Seq<u8>, i: int) -> u8
    recommends
        1 <= bytes.len() <= 4,
        0 <= i < bytes.len(),
{
    if i == 0 {
        bytes[0] ^ header_mask(bytes.len() as int)
    } else {
        bytes[i] ^ 0x80
    }
}

/// All payload bytes in order, unshifted.
pub open spec fn payload_seq(bytes: Seq<u8>) -> Seq<u8> {
    Seq::new(bytes.len(), |i: int| payload_byte(bytes, i))
}

/// How far the payload byte at position `i` is shifted into the scalar
/// value: six bits for every byte that follows it.
pub open spec fn payload_shift(len: int, i: int) -> u32
    recommends
        1 <= len <= 4,
        0 <= i < len,
{
    (6 * (len - 1 - i)) as u32
}

/// The scalar value assembled from the first `k` payload bytes, OR-ed
/// together after shifting, exactly as the decoder accumulates them.
pub open spec fn scalar_prefix(bytes: Seq<u8>, k: int) -> u32
    recommends
        1 <= bytes.len() <= 4,
        0 <= k <= bytes.len(),
    decreases k,
{
    if k <= 0 {
        0
    } else {
        scalar_prefix(bytes, k - 1) | ((payload_byte(bytes, k - 1) as u32) << payload_shift(
            bytes.len() as int,
            k - 1,
        ))
    }
}

/// The Unicode scalar value the decoder recovers from one encoded
/// character.
pub open spec fn scalar_of(bytes: Seq<u8>) -> u32
    recommends
        1 <= bytes.len() <= 4,
{
    scalar_prefix(bytes, bytes.len() as int)
}

/// A byte sequence carrying exactly the framing a real character of its
/// length would have: the header bits on the first byte and the `10`
/// marker on every continuation byte.
pub open spec fn well_formed(bytes: Seq<u8>) -> bool {
    let len = bytes.len() as int;
    &&& 1 <= len <= 4
    &&& (bytes[0] >> ((8 - header_bit_width(len)) as u8)) == header_pattern(len)
    &&& forall|i: int| 1 <= i < len ==> (#[trigger] bytes[i] >> 6u8) == 0b10
}

/// The byte at position `i` of the `len`-byte encoding of scalar value
/// `v`: the framing bits OR-ed over the payload bits for that position.
pub open spec fn encode_byte(v: u32, len: int, i: int) -> u8
    recommends
        1 <= len <= 4,
        0 <= i < len,
{
    if i == 0 {
        header_mask(len) | (((v >> payload_shift(len, 0)) as u8) & payload_mask(len))
    } else {
        0x80u8 | (((v >> payload_shift(len, i)) as u8) & 0x3F)
    }
}

/// The `len`-byte encoding of scalar value `v` under the framing rules.
pub open spec fn encode_scalar(v: u32, len: int) -> Seq<u8>
    recommends
        1 <= len <= 4,
{
    Seq::new(len as nat, |i: int| encode_byte(v, len, i))
}

/// The framing mask for the first byte, as executable code reads it.
pub fn header_mask_of(len: usize) -> (m: u8)
    requires
        1 <= len <= 4,
    ensures
        m == header_mask(len as int),
{
    if len == 1 {
        0x00
    } else if len == 2 {
        0xC0
    } else if len == 3 {
        0xE0
    } else {
        0xF0
    }
}

/// The header bit count of the first byte, as executable code reads it.
pub fn header_bit_width_of(len: usize) -> (w: usize)
    requires
        1 <= len <= 4,
    ensures
        w == header_bit_width(len as int),
{
    if len == 1 {
        1
    } else if len == 2 {
        3
    } else if len == 3 {
        4
    } else {
        5
    }
}

/// The header bit pattern of the first byte, as executable code reads it.
pub fn header_pattern_of(len: usize) -> (p: u8)
    requires
        1 <= len <= 4,
    ensures
        p == header_pattern(len as int),
{
    if len == 1 {
        0b0
    } else if len == 2 {
        0b110
    } else if len == 3 {
        0b1110
    } else {
        0b11110
    }
}

/// Well-formed framing leaves every payload byte inside its bit width:
/// the first below the payload mask of its length, the rest below 64.
pub proof fn lemma_payload_in_range(bytes: Seq<u8>)
    requires
        well_formed(bytes),
    ensures
        payload_seq(bytes)[0] <= payload_mask(bytes.len() as int),
        forall|i: int| 1 <= i < bytes.len() ==> payload_seq(bytes)[i] < 64,
{
    let len = bytes.len() as int;
    let b0 = bytes[0];
    if len == 1 {
        assert((b0 ^ 0x00u8) <= 0x7Fu8) by (bit_vector)
            requires
                b0 >> 7u8 == 0u8,
        ;
    } else if len == 2 {
        assert((b0 ^ 0xC0u8) <= 0x1Fu8) by (bit_vector)
            requires
                b0 >> 5u8 == 6u8,
        ;
    } else if len == 3 {
        assert((b0 ^ 0xE0u8) <= 0x0Fu8) by (bit_vector)
            requires
                b0 >> 4u8 == 14u8,
        ;
    } else {
        assert((b0 ^ 0xF0u8) <= 0x07u8) by (bit_vector)
            requires
                b0 >> 3u8 == 30u8,
        ;
    }
    assert forall|i: int| 1 <= i < len implies payload_seq(bytes)[i] < 64 by {
        let b = bytes[i];
        assert(b >> 6u8 == 2u8);
        assert((b ^ 0x80u8) < 64u8) by (bit_vector)
            requires
                b >> 6u8 == 2u8,
        ;
    }
}

/// Decoding then re-encoding with the same framing rules reproduces the
/// original bytes: for every sequence whose framing bits are exactly
/// those of a real character of its length, re-framing the recovered
/// scalar value gives the sequence back.
pub proof fn lemma_decode_encode_round_trip(bytes: Seq<u8>)
    requires
        well_formed(bytes),
    ensures
        encode_scalar(scalar_of(bytes), bytes.len() as int) == bytes,
{
    let len = bytes.len() as int;
    let v = scalar_of(bytes);
    if len == 1 {
        let b0 = bytes[0];
        assert(scalar_prefix(bytes, 0) == 0);
        assert(v == 0u32 | (((b0 ^ 0x00u8) as u32) << 0u32));
        assert((0x00u8 | (((v >> 0u32) as u8) & 0x7Fu8)) == b0) by (bit_vector)
            requires
                v == 0u32 | (((b0 ^ 0x00u8) as u32) << 0u32),
                b0 >> 7u8 == 0u8,
        ;
        assert(encode_byte(v, 1, 0) == b0);
        assert(encode_scalar(v, 1) =~= bytes);
    } else if len == 2 {
        let b0 = bytes[0];
        let b1 = bytes[1];
        assert(scalar_prefix(bytes, 0) == 0);
        assert(scalar_prefix(bytes, 1) == 0u32 | (((b0 ^ 0xC0u8) as u32) << 6u32));
        assert(v == (0u32 | (((b0 ^ 0xC0u8) as u32) << 6u32)) | (((b1 ^ 0x80u8) as u32)
            << 0u32));
        assert((0xC0u8 | (((v >> 6u32) as u8) & 0x1Fu8)) == b0 && (0x80u8 | (((v >> 0u32) as u8)
            & 0x3Fu8)) == b1) by (bit_vector)
            requires
                v == (0u32 | (((b0 ^ 0xC0u8) as u32) << 6u32)) | (((b1 ^ 0x80u8) as u32)
                    << 0u32),
                b0 >> 5u8 == 6u8,
                b1 >> 6u8 == 2u8,
        ;
        assert(encode_byte(v, 2, 0) == b0);
        assert(encode_byte(v, 2, 1) == b1);
        assert(encode_scalar(v, 2) =~= bytes);
    } else if len == 3 {
        let b0 = bytes[0];
        let b1 = bytes[1];
        let b2 = bytes[2];
        assert(scalar_prefix(bytes, 0) == 0);
        assert(scalar_prefix(bytes, 1) == 0u32 | (((b0 ^ 0xE0u8) as u32) << 12u32));
        assert(scalar_prefix(bytes, 2) == (0u32 | (((b0 ^ 0xE0u8) as u32) << 12u32)) | (((b1
            ^ 0x80u8) as u32) << 6u32));
        assert(v == ((0u32 | (((b0 ^ 0xE0u8) as u32) << 12u32)) | (((b1 ^ 0x80u8) as u32)
            << 6u32)) | (((b2 ^ 0x80u8) as u32) << 0u32));
        assert((0xE0u8 | (((v >> 12u32) as u8) & 0x0Fu8)) == b0 && (0x80u8 | (((v >> 6u32) as u8)
            & 0x3Fu8)) == b1 && (0x80u8 | (((v >> 0u32) as u8) & 0x3Fu8)) == b2) by (bit_vector)
            requires
                v == ((0u32 | (((b0 ^ 0xE0u8) as u32) << 12u32)) | (((b1 ^ 0x80u8) as u32)
                    << 6u32)) | (((b2 ^ 0x80u8) as u32) << 0u32),
                b0 >> 4u8 == 14u8,
                b1 >> 6u8 == 2u8,
                b2 >> 6u8 == 2u8,
        ;
        assert(encode_byte(v, 3, 0) == b0);
        assert(encode_byte(v, 3, 1) == b1);
        assert(encode_byte(v, 3, 2) == b2);
        assert(encode_scalar(v, 3) =~= bytes);
    } else {
        let b0 = bytes[0];
        let b1 = bytes[1];
        let b2 = bytes[2];
        let b3 = bytes[3];
        assert(scalar_prefix(bytes, 0) == 0);
        assert(scalar_prefix(bytes, 1) == 0u32 | (((b0 ^ 0xF0u8) as u32) << 18u32));
        assert(scalar_prefix(bytes, 2) == (0u32 | (((b0 ^ 0xF0u8) as u32) << 18u32)) | (((b1
            ^ 0x80u8) as u32) << 12u32));
        assert(scalar_prefix(bytes, 3) == ((0u32 | (((b0 ^ 0xF0u8) as u32) << 18u32)) | (((b1
            ^ 0x80u8) as u32) << 12u32)) | (((b2 ^ 0x80u8) as u32) << 6u32));
        assert(v == (((0u32 | (((b0 ^ 0xF0u8) as u32) << 18u32)) | (((b1 ^ 0x80u8) as u32)
            << 12u32)) | (((b2 ^ 0x80u8) as u32) << 6u32)) | (((b3 ^ 0x80u8) as u32) << 0u32));
        assert((0xF0u8 | (((v >> 18u32) as u8) & 0x07u8)) == b0 && (0x80u8 | (((v >> 12u32) as u8)
            & 0x3Fu8)) == b1 && (0x80u8 | (((v >> 6u32) as u8) & 0x3Fu8)) == b2 && (0x80u8 | (((v
            >> 0u32) as u8) & 0x3Fu8)) == b3) by (bit_vector)
            requires
                v == (((0u32 | (((b0 ^ 0xF0u8) as u32) << 18u32)) | (((b1 ^ 0x80u8) as u32)
                    << 12u32)) | (((b2 ^ 0x80u8) as u32) << 6u32)) | (((b3 ^ 0x80u8) as u32)
                    << 0u32),
                b0 >> 3u8 == 30u8,
                b1 >> 6u8 == 2u8,
                b2 >> 6u8 == 2u8,
                b3 >> 6u8 == 2u8,
        ;
        assert(encode_byte(v, 4, 0) == b0);
        assert(encode_byte(v, 4, 1) == b1);
        assert(encode_byte(v, 4, 2) == b2);
        assert(encode_byte(v, 4, 3) == b3);
        assert(encode_scalar(v, 4) =~= bytes);
    }
}

} // verus!

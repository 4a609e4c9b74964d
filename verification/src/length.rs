use vstd::prelude::*;

use crate::error::ProtocolError;

verus! {

/// Width in bytes of a length prefix, classified from the leading byte
/// alone: the high bits of the first byte tag the tier, so a reader never
/// has to guess the width from the total message length. `None` when the
/// leading bit pattern matches no defined tier.
pub open spec fn spec_prefix_width(b0: u8) -> Option<int> {
    if b0 < 0x80 {
        Some(1)
    } else if b0 < 0xc0 {
        Some(2)
    } else if b0 < 0xe0 {
        Some(3)
    } else if b0 < 0xf0 {
        Some(4)
    } else if b0 == 0xf0 {
        Some(5)
    } else {
        None
    }
}

/// The wire form of a word-content length: one of five tiers chosen by the
/// value, the tier tagged in the high bits of the leading byte, and every
/// multi-byte value written most-significant-byte first.
pub open spec fn spec_encode_length(n: u32) -> Seq<u8> {
    if n <= 0x7f {
        seq![n as u8]
    } else if n <= 0x3fff {
        seq![((n >> 8) | 0x80) as u8, (n & 0xff) as u8]
    } else if n <= 0x1fffff {
        seq![((n >> 16) | 0xc0) as u8, ((n >> 8) & 0xff) as u8, (n & 0xff) as u8]
    } else if n <= 0xfffffff {
        seq![
            ((n >> 24) | 0xe0) as u8,
            ((n >> 16) & 0xff) as u8,
            ((n >> 8) & 0xff) as u8,
            (n & 0xff) as u8,
        ]
    } else {
        seq![
            0xf0u8,
            (n >> 24) as u8,
            ((n >> 16) & 0xff) as u8,
            ((n >> 8) & 0xff) as u8,
            (n & 0xff) as u8,
        ]
    }
}

/// The value carried by a full length prefix `b`, where `b` holds exactly
/// the bytes of one prefix (its length equals the width that the leading
/// byte announces): the tier tag bits are stripped from the leading byte and
/// the remaining bytes are read most-significant first.
pub open spec fn spec_prefix_value(b: Seq<u8>) -> u32
    recommends
        b.len() >= 1,
        spec_prefix_width(b[0]) == Some(b.len() as int),
{
    let b0 = b[0];
    if b0 < 0x80 {
        b0 as u32
    } else if b0 < 0xc0 {
        (((b0 & 0x3f) as u32) << 8) | (b[1] as u32)
    } else if b0 < 0xe0 {
        (((b0 & 0x1f) as u32) << 16) | ((b[1] as u32) << 8) | (b[2] as u32)
    } else if b0 < 0xf0 {
        (((b0 & 0x0f) as u32) << 24) | ((b[1] as u32) << 16) | ((b[2] as u32) << 8) | (b[3]
            as u32)
    } else {
        ((b[1] as u32) << 24) | ((b[2] as u32) << 16) | ((b[3] as u32) << 8) | (b[4] as u32)
    }
}

/// Law: the length encoding is injectively decodable. For every value, the
/// encoded prefix announces its own width through its leading byte, and
/// reading the prefix back yields exactly the value that was encoded. The
/// tiers are contiguous and non-overlapping by construction, so every `u32`
/// has exactly one prefix form.
pub proof fn lemma_encode_length_round_trip(n: u32)
    ensures
        1 <= spec_encode_length(n).len() <= 5,
        spec_prefix_width(spec_encode_length(n)[0]) == Some(spec_encode_length(n).len() as int),
        spec_prefix_value(spec_encode_length(n)) == n,
{
    if n <= 0x7f {
        assert((n as u8) < 0x80 && (n as u8) as u32 == n) by (bit_vector)
            requires
                n <= 0x7f,
        ;
    } else if n <= 0x3fff {
        assert({
            let b0 = ((n >> 8) | 0x80) as u8;
            let b1 = (n & 0xff) as u8;
            0x80 <= b0 && b0 < 0xc0 && ((((b0 & 0x3f) as u32) << 8) | (b1 as u32)) == n
        }) by (bit_vector)
            requires
                0x80 <= n && n <= 0x3fff,
        ;
    } else if n <= 0x1fffff {
        assert({
            let b0 = ((n >> 16) | 0xc0) as u8;
            let b1 = ((n >> 8) & 0xff) as u8;
            let b2 = (n & 0xff) as u8;
            &&& 0xc0 <= b0
            &&& b0 < 0xe0
            &&& ((((b0 & 0x1f) as u32) << 16) | ((b1 as u32) << 8) | (b2 as u32)) == n
        }) by (bit_vector)
            requires
                0x3fff < n && n <= 0x1fffff,
        ;
    } else if n <= 0xfffffff {
        assert({
            let b0 = ((n >> 24) | 0xe0) as u8;
            let b1 = ((n >> 16) & 0xff) as u8;
            let b2 = ((n >> 8) & 0xff) as u8;
            let b3 = (n & 0xff) as u8;
            &&& 0xe0 <= b0
            &&& b0 < 0xf0
            &&& ((((b0 & 0x0f) as u32) << 24) | ((b1 as u32) << 16) | ((b2 as u32) << 8) | (b3
                as u32)) == n
        }) by (bit_vector)
            requires
                0x1fffff < n && n <= 0xfffffff,
        ;
    } else {
        assert({
            let b1 = (n >> 24) as u8;
            let b2 = ((n >> 16) & 0xff) as u8;
            let b3 = ((n >> 8) & 0xff) as u8;
            let b4 = (n & 0xff) as u8;
            (((b1 as u32) << 24) | ((b2 as u32) << 16) | ((b3 as u32) << 8) | (b4 as u32)) == n
        }) by (bit_vector);
    }
}

/// Encodes a word-content length as its unique tiered prefix. Total on all
/// of `u32`, the protocol ceiling for word lengths.
pub fn encode_length(n: u32) -> (r: Vec<u8>)
    ensures
        r@ == spec_encode_length(n),
{
    let mut r: Vec<u8> = Vec::new();
    if n <= 0x7f {
        r.push(n as u8);
    } else if n <= 0x3fff {
        r.push(((n >> 8) | 0x80) as u8);
        r.push((n & 0xff) as u8);
    } else if n <= 0x1fffff {
        r.push(((n >> 16) | 0xc0) as u8);
        r.push(((n >> 8) & 0xff) as u8);
        r.push((n & 0xff) as u8);
    } else if n <= 0xfffffff {
        r.push(((n >> 24) | 0xe0) as u8);
        r.push(((n >> 16) & 0xff) as u8);
        r.push(((n >> 8) & 0xff) as u8);
        r.push((n & 0xff) as u8);
    } else {
        r.push(0xf0);
        r.push((n >> 24) as u8);
        r.push(((n >> 16) & 0xff) as u8);
        r.push(((n >> 8) & 0xff) as u8);
        r.push((n & 0xff) as u8);
    }
    proof {
        assert(r@ =~= spec_encode_length(n));
    }
    r
}

/// Width of the prefix that starts with leading byte `b0`, or `None` when
/// the bit pattern matches no defined tier.
pub fn prefix_width(b0: u8) -> (r: Option<usize>)
    ensures
        r is Some <==> spec_prefix_width(b0) is Some,
        r matches Some(w) ==> spec_prefix_width(b0) == Some(w as int),
{
    if b0 < 0x80 {
        Some(1)
    } else if b0 < 0xc0 {
        Some(2)
    } else if b0 < 0xe0 {
        Some(3)
    } else if b0 < 0xf0 {
        Some(4)
    } else if b0 == 0xf0 {
        Some(5)
    } else {
        None
    }
}

/// Reads the value of the full prefix of width `w` standing at `offset`.
pub(crate) fn read_prefix(bytes: &Vec<u8>, offset: usize, w: usize) -> (n: u32)
    requires
        offset < bytes@.len(),
        spec_prefix_width(bytes@[offset as int]) == Some(w as int),
        offset + w <= bytes@.len(),
    ensures
        n == spec_prefix_value(bytes@.subrange(offset as int, offset + w)),
{
    let ghost sub = bytes@.subrange(offset as int, offset + w);
    let blen = bytes.len();
    let b0 = bytes[offset];
    proof {
        assert(offset + w <= blen);
        assert(sub[0] == bytes@[offset as int]);
    }
    if b0 < 0x80 {
        b0 as u32
    } else if b0 < 0xc0 {
        (((b0 & 0x3f) as u32) << 8) | (bytes[offset + 1] as u32)
    } else if b0 < 0xe0 {
        (((b0 & 0x1f) as u32) << 16) | ((bytes[offset + 1] as u32) << 8) | (bytes[offset + 2]
            as u32)
    } else if b0 < 0xf0 {
        (((b0 & 0x0f) as u32) << 24) | ((bytes[offset + 1] as u32) << 16) | ((bytes[offset + 2]
            as u32) << 8) | (bytes[offset + 3] as u32)
    } else {
        ((bytes[offset + 1] as u32) << 24) | ((bytes[offset + 2] as u32) << 16) | ((bytes[offset
            + 3] as u32) << 8) | (bytes[offset + 4] as u32)
    }
}

/// A full length prefix stands at `offset` in `b`: there is a leading byte,
/// it matches a defined tier, and the buffer holds the whole prefix.
pub open spec fn prefix_available(b: Seq<u8>, offset: int) -> bool {
    &&& 0 <= offset < b.len()
    &&& (spec_prefix_width(b[offset]) matches Some(w) && offset + w <= b.len())
}

/// Decodes one length prefix standing at `offset`: classifies the tier from
/// the leading byte alone, then reads exactly the remaining bytes of that
/// tier. Returns the decoded value and the number of bytes consumed. Fails
/// with `MalformedLength` when the leading byte matches no defined tier or
/// the buffer ends before the full prefix is available.
pub fn decode_length(bytes: &Vec<u8>, offset: usize) -> (r: Result<(u32, usize), ProtocolError>)
    requires
        offset <= bytes@.len(),
    ensures
        r is Ok <==> prefix_available(bytes@, offset as int),
        r matches Ok((n, consumed)) ==> {
            &&& spec_prefix_width(bytes@[offset as int]) == Some(consumed as int)
            &&& offset + consumed <= bytes@.len()
            &&& n == spec_prefix_value(bytes@.subrange(offset as int, offset + consumed))
        },
        r matches Err(e) ==> e == ProtocolError::MalformedLength,
{
    if offset == bytes.len() {
        return Err(ProtocolError::MalformedLength);
    }
    let b0 = bytes[offset];
    match prefix_width(b0) {
        None => Err(ProtocolError::MalformedLength),
        Some(w) => {
            if bytes.len() - offset < w {
                Err(ProtocolError::MalformedLength)
            } else {
                let n = read_prefix(bytes, offset, w);
                Ok((n, w))
            }
        },
    }
}

} // verus!

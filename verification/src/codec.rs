//! Canonical byte encodings of the consensus messages.
//!
//! A signed payload is `magic || chain id (4 bytes) || body`; a vote body is
//! the predecessor hash, a tag, the slot, level, round, and the payload hash,
//! all big-endian. The hex form of a signed operation is what the injection
//! endpoint takes.

use vstd::prelude::*;

verus! {

/// The two's-complement value of an `i32`, as an unsigned 32-bit integer.
pub open spec fn u32_bits_of_i32(x: i32) -> int {
    if x >= 0 {
        x as int
    } else {
        x + 0x1_0000_0000
    }
}

/// Big-endian bytes of a 16-bit value.
pub open spec fn be16_of(x: u16) -> Seq<u8> {
    seq![(x / 0x100) as u8, (x % 0x100) as u8]
}

/// Big-endian bytes of an unsigned 32-bit value.
pub open spec fn be32_of(v: int) -> Seq<u8> {
    seq![
        ((v / 0x100_0000) % 0x100) as u8,
        ((v / 0x1_0000) % 0x100) as u8,
        ((v / 0x100) % 0x100) as u8,
        (v % 0x100) as u8,
    ]
}

/// Big-endian bytes of an `i32`, two's complement.
pub open spec fn be32_of_i32(x: i32) -> Seq<u8> {
    be32_of(u32_bits_of_i32(x))
}

/// Big-endian bytes of a `u64`.
pub open spec fn be64_of(x: u64) -> Seq<u8> {
    seq![
        ((x as int / 0x100_0000_0000_0000) % 0x100) as u8,
        ((x as int / 0x1_0000_0000_0000) % 0x100) as u8,
        ((x as int / 0x100_0000_0000) % 0x100) as u8,
        ((x as int / 0x1_0000_0000) % 0x100) as u8,
        ((x as int / 0x100_0000) % 0x100) as u8,
        ((x as int / 0x1_0000) % 0x100) as u8,
        ((x as int / 0x100) % 0x100) as u8,
        (x as int % 0x100) as u8,
    ]
}

/// The unsigned 64-bit value read big-endian from the first eight bytes.
pub open spec fn be_u64_of(s: Seq<u8>) -> int
    recommends
        s.len() >= 8,
{
    ((((((s[0] * 0x100 + s[1]) * 0x100 + s[2]) * 0x100 + s[3]) * 0x100 + s[4]) * 0x100 + s[5])
        * 0x100 + s[6]) * 0x100 + s[7]
}

/// Append the big-endian bytes of a 16-bit value.
pub fn push_be16(out: &mut Vec<u8>, x: u16)
    ensures
        final(out)@ == old(out)@ + be16_of(x),
{
    out.push((x / 0x100) as u8);
    out.push((x % 0x100) as u8);
    proof {
        assert(out@ =~= old(out)@ + be16_of(x));
    }
}

/// Append the big-endian two's-complement bytes of an `i32`.
pub fn push_be32_i32(out: &mut Vec<u8>, x: i32)
    ensures
        final(out)@ == old(out)@ + be32_of_i32(x),
{
    let v: u32 = if x >= 0 {
        x as u32
    } else {
        ((x as i64) + 0x1_0000_0000i64) as u32
    };
    proof {
        assert(v as int == u32_bits_of_i32(x));
    }
    out.push(((v / 0x100_0000) % 0x100) as u8);
    out.push(((v / 0x1_0000) % 0x100) as u8);
    out.push(((v / 0x100) % 0x100) as u8);
    out.push((v % 0x100) as u8);
    proof {
        assert(out@ =~= old(out)@ + be32_of_i32(x));
    }
}

/// Append the big-endian bytes of a `u64`.
pub fn push_be64(out: &mut Vec<u8>, x: u64)
    ensures
        final(out)@ == old(out)@ + be64_of(x),
{
    out.push(((x / 0x100_0000_0000_0000) % 0x100) as u8);
    out.push(((x / 0x1_0000_0000_0000) % 0x100) as u8);
    out.push(((x / 0x100_0000_0000) % 0x100) as u8);
    out.push(((x / 0x1_0000_0000) % 0x100) as u8);
    out.push(((x / 0x100_0000) % 0x100) as u8);
    out.push(((x / 0x1_0000) % 0x100) as u8);
    out.push(((x / 0x100) % 0x100) as u8);
    out.push((x % 0x100) as u8);
    proof {
        assert(out@ =~= old(out)@ + be64_of(x));
    }
}

/// The big-endian value of eight bytes, starting at `from`.
pub fn read_be_u64(bytes: &[u8], from: usize) -> (r: u64)
    requires
        from + 8 <= bytes@.len(),
    ensures
        r as int == be_u64_of(bytes@.skip(from as int)),
{
    let mut r: u64 = bytes[from] as u64;
    r = r * 0x100 + bytes[from + 1] as u64;
    r = r * 0x100 + bytes[from + 2] as u64;
    r = r * 0x100 + bytes[from + 3] as u64;
    r = r * 0x100 + bytes[from + 4] as u64;
    r = r * 0x100 + bytes[from + 5] as u64;
    r = r * 0x100 + bytes[from + 6] as u64;
    r = r * 0x100 + bytes[from + 7] as u64;
    proof {
        let s = bytes@.skip(from as int);
        assert(s[0] == bytes@[from as int]);
        assert(s[1] == bytes@[from as int + 1]);
        assert(s[2] == bytes@[from as int + 2]);
        assert(s[3] == bytes@[from as int + 3]);
        assert(s[4] == bytes@[from as int + 4]);
        assert(s[5] == bytes@[from as int + 5]);
        assert(s[6] == bytes@[from as int + 6]);
        assert(s[7] == bytes@[from as int + 7]);
    }
    r
}

/// The lowercase hex digit of a value below sixteen.
pub open spec fn hex_digit(n: int) -> char {
    if n == 0 {
        '0'
    } else if n == 1 {
        '1'
    } else if n == 2 {
        '2'
    } else if n == 3 {
        '3'
    } else if n == 4 {
        '4'
    } else if n == 5 {
        '5'
    } else if n == 6 {
        '6'
    } else if n == 7 {
        '7'
    } else if n == 8 {
        '8'
    } else if n == 9 {
        '9'
    } else if n == 10 {
        'a'
    } else if n == 11 {
        'b'
    } else if n == 12 {
        'c'
    } else if n == 13 {
        'd'
    } else if n == 14 {
        'e'
    } else {
        'f'
    }
}

/// Lowercase hex of a byte string, high nibble first.
pub open spec fn hex_of(bytes: Seq<u8>) -> Seq<char>
    decreases bytes.len(),
{
    if bytes.len() == 0 {
        Seq::empty()
    } else {
        hex_of(bytes.drop_last()) + seq![
            hex_digit(bytes.last() as int / 0x10),
            hex_digit(bytes.last() as int % 0x10),
        ]
    }
}

/// Relies on `hex::encode`: two lowercase hex digits per byte, high nibble
/// first.
#[verifier::external_body]
pub(crate) fn hex_encode(data: &[u8]) -> (r: String)
    ensures
        r@ == hex_of(data@),
{
    hex::encode(data)
}

/// Wire tag of a preendorsement vote.
pub const PREENDORSEMENT_TAG: u8 = 20;

/// Wire tag of an endorsement vote.
pub const ENDORSEMENT_TAG: u8 = 21;

/// Magic byte under which a block header is signed.
pub const MAGIC_BLOCK: u8 = 0x11;

/// Magic byte under which a preendorsement is signed.
pub const MAGIC_PREENDORSEMENT: u8 = 0x12;

/// Magic byte under which an endorsement is signed.
pub const MAGIC_ENDORSEMENT: u8 = 0x13;

/// Body bytes of a consensus vote: the branch (the predecessor hash), the
/// tag, and the slot, level, round and payload hash it attests.
pub open spec fn vote_body_of(
    tag: u8,
    pred_hash: Seq<u8>,
    slot: u16,
    level: i32,
    round: i32,
    payload_hash: Seq<u8>,
) -> Seq<u8> {
    pred_hash + seq![tag] + be16_of(slot) + be32_of_i32(level) + be32_of_i32(round) + payload_hash
}

/// What is signed: the magic byte, the chain id, and the body.
pub open spec fn signing_input_of(magic: u8, chain_id: Seq<u8>, body: Seq<u8>) -> Seq<u8> {
    seq![magic] + chain_id + body
}

/// Append every byte of a slice.
pub fn push_bytes(out: &mut Vec<u8>, bytes: &[u8])
    ensures
        final(out)@ == old(out)@ + bytes@,
{
    let mut i: usize = 0;
    while i < bytes.len()
        invariant
            0 <= i <= bytes@.len(),
            out@ == old(out)@ + bytes@.take(i as int),
        decreases bytes@.len() - i,
    {
        out.push(bytes[i]);
        proof {
            assert(old(out)@ + bytes@.take(i + 1) =~= (old(out)@ + bytes@.take(i as int)).push(
                bytes@[i as int],
            ));
        }
        i = i + 1;
    }
    proof {
        assert(bytes@.take(bytes@.len() as int) =~= bytes@);
    }
}

/// The body of a consensus vote, ready for signing or injection.
pub fn encode_vote_body(
    tag: u8,
    pred_hash: &[u8; 32],
    slot: u16,
    level: i32,
    round: i32,
    payload_hash: &[u8; 32],
) -> (r: Vec<u8>)
    ensures
        r@ == vote_body_of(tag, pred_hash@, slot, level, round, payload_hash@),
{
    let mut out: Vec<u8> = Vec::new();
    push_bytes(&mut out, pred_hash.as_slice());
    out.push(tag);
    proof {
        assert(out@ =~= pred_hash@ + seq![tag]);
    }
    push_be16(&mut out, slot);
    push_be32_i32(&mut out, level);
    push_be32_i32(&mut out, round);
    push_bytes(&mut out, payload_hash.as_slice());
    proof {
        assert(out@ =~= vote_body_of(tag, pred_hash@, slot, level, round, payload_hash@));
    }
    out
}

/// What the crypto service signs for a vote: magic, chain id, body.
pub fn encode_signing_input(magic: u8, chain_id: &[u8; 4], body: &Vec<u8>) -> (r: Vec<u8>)
    ensures
        r@ == signing_input_of(magic, chain_id@, body@),
{
    let mut out: Vec<u8> = Vec::new();
    out.push(magic);
    push_bytes(&mut out, chain_id.as_slice());
    push_bytes(&mut out, body.as_slice());
    proof {
        assert(out@ =~= signing_input_of(magic, chain_id@, body@));
    }
    out
}

/// The hex body of an injection request: the signed operation (body followed
/// by the signature), lowercase hex encoded.
pub fn injection_hex(body: &Vec<u8>, signature: &[u8]) -> (r: String)
    ensures
        r@ == hex_of(body@ + signature@),
{
    let mut data: Vec<u8> = Vec::new();
    push_bytes(&mut data, body.as_slice());
    push_bytes(&mut data, signature);
    proof {
        assert(data@ =~= body@ + signature@);
    }
    hex_encode(data.as_slice())
}

} // verus!

//! Digests of the consensus: the commitment to a proposal's operations, the
//! payload hash of a self-proposed block, and the proof-of-work stamp of a
//! block header.

use vstd::prelude::*;
use crate::codec::{be_u64_of, be64_of, push_be64, push_bytes, read_be_u64, be32_of};

verus! {

/// What blake2b-256 returns on a byte string; a function of the bytes alone.
pub uninterp spec fn blake2b_of(input: Seq<u8>) -> Seq<u8>;

/// Relies on cryptoxide's `hashing::blake2b_256`: the 32-byte blake2b digest
/// of the input, a function of the input alone.
#[verifier::external_body]
pub(crate) fn blake2b_256(input: &[u8]) -> (r: [u8; 32])
    ensures
        r@ == blake2b_of(input@),
{
    cryptoxide::hashing::blake2b_256(input)
}

/// The Merkle root of a list of leaf digests: a left-heavy balanced binary
/// tree whose inner nodes digest their children side by side. A single leaf
/// is its own root; the empty list commits to the digest of the empty
/// string.
pub open spec fn merkle_root_of(leaves: Seq<Seq<u8>>) -> Seq<u8>
    decreases leaves.len(),
{
    if leaves.len() == 0 {
        blake2b_of(Seq::empty())
    } else if leaves.len() == 1 {
        leaves[0]
    } else {
        let mid = (leaves.len() + 1) as int / 2;
        blake2b_of(merkle_root_of(leaves.take(mid)) + merkle_root_of(leaves.skip(mid)))
    }
}

/// The commitment to an ordered list of operations: the Merkle root over
/// the operations' digests, in list order.
pub open spec fn list_hash_of(ops: Seq<Seq<u8>>) -> Seq<u8> {
    merkle_root_of(ops.map_values(|op: Seq<u8>| blake2b_of(op)))
}

/// The Merkle root of the leaves in `[lo, hi)`.
fn merkle_range(leaves: &Vec<[u8; 32]>, lo: usize, hi: usize) -> (r: [u8; 32])
    requires
        lo < hi <= leaves@.len(),
    ensures
        r@ == merkle_root_of(
            leaves@.map_values(|l: [u8; 32]| l@).subrange(lo as int, hi as int),
        ),
    decreases hi - lo,
{
    let ghost m = leaves@.map_values(|l: [u8; 32]| l@);
    let ghost s = m.subrange(lo as int, hi as int);
    if hi - lo == 1 {
        proof {
            assert(s[0] == m[lo as int]);
            assert(m[lo as int] == leaves@[lo as int]@);
        }
        return leaves[lo];
    }
    let span = hi - lo;
    let mid = lo + span / 2 + span % 2;
    let left = merkle_range(leaves, lo, mid);
    let right = merkle_range(leaves, mid, hi);
    let mut node: Vec<u8> = Vec::new();
    push_bytes(&mut node, left.as_slice());
    push_bytes(&mut node, right.as_slice());
    proof {
        let half = (s.len() + 1) as int / 2;
        assert(s.take(half) =~= m.subrange(lo as int, mid as int));
        assert(s.skip(half) =~= m.subrange(mid as int, hi as int));
        assert(node@ =~= merkle_root_of(s.take(half)) + merkle_root_of(s.skip(half)));
    }
    blake2b_256(node.as_slice())
}

/// The operation-list hash of a list of raw operations.
pub fn operation_list_hash(ops: &Vec<Vec<u8>>) -> (r: [u8; 32])
    ensures
        r@ == list_hash_of(ops@.map_values(|op: Vec<u8>| op@)),
{
    let ghost model = ops@.map_values(|op: Vec<u8>| op@);
    let ghost leaf_model = model.map_values(|op: Seq<u8>| blake2b_of(op));
    let mut leaves: Vec<[u8; 32]> = Vec::new();
    let mut i: usize = 0;
    while i < ops.len()
        invariant
            0 <= i <= ops@.len(),
            model == ops@.map_values(|op: Vec<u8>| op@),
            model.len() == ops@.len(),
            forall|j: int| 0 <= j < ops@.len() ==> #[trigger] model[j] == ops@[j]@,
            leaves@.len() == i,
            forall|j: int| 0 <= j < i ==> (#[trigger] leaves@[j])@ == blake2b_of(model[j]),
        decreases ops@.len() - i,
    {
        let leaf: [u8; 32] = blake2b_256(ops[i].as_slice());
        leaves.push(leaf);
        i = i + 1;
    }
    if leaves.len() == 0 {
        let empty: Vec<u8> = Vec::new();
        let root = blake2b_256(empty.as_slice());
        proof {
            assert(leaf_model.len() == 0);
        }
        root
    } else {
        let len = leaves.len();
        let root = merkle_range(&leaves, 0, len);
        proof {
            assert(leaves@.map_values(|l: [u8; 32]| l@) =~= leaf_model);
            assert(leaves@.map_values(|l: [u8; 32]| l@).subrange(0, len as int) =~= leaf_model);
        }
        root
    }
}

/// The preimage of a derived payload hash: the predecessor hash, the payload
/// round, and the operation-list hash.
pub open spec fn payload_hash_preimage(
    pred_hash: Seq<u8>,
    payload_round: u32,
    op_list_hash: Seq<u8>,
) -> Seq<u8> {
    pred_hash + be32_of(payload_round as int) + op_list_hash
}

/// The payload hash of a self-proposed block whose payload hash was left
/// zero: the digest of the predecessor hash, the payload round and the
/// operation-list hash.
pub fn derive_payload_hash(pred_hash: &[u8; 32], payload_round: u32, op_list_hash: &[u8; 32]) -> (r:
    [u8; 32])
    ensures
        r@ == blake2b_of(payload_hash_preimage(pred_hash@, payload_round, op_list_hash@)),
{
    let mut preimage: Vec<u8> = Vec::new();
    push_bytes(&mut preimage, pred_hash.as_slice());
    preimage.push(((payload_round / 0x100_0000) % 0x100) as u8);
    preimage.push(((payload_round / 0x1_0000) % 0x100) as u8);
    preimage.push(((payload_round / 0x100) % 0x100) as u8);
    preimage.push((payload_round % 0x100) as u8);
    push_bytes(&mut preimage, op_list_hash.as_slice());
    proof {
        assert(preimage@ =~= payload_hash_preimage(pred_hash@, payload_round, op_list_hash@));
    }
    blake2b_256(preimage.as_slice())
}

/// The header bytes with an eight-byte nonce written at `offset`.
pub open spec fn with_nonce(header: Seq<u8>, offset: int, nonce: u64) -> Seq<u8> {
    header.take(offset) + be64_of(nonce) + header.skip(offset + 8)
}

/// The proof-of-work condition: the first eight bytes of the header's digest,
/// read big-endian, are at or below the threshold.
pub open spec fn pow_ok(header: Seq<u8>, threshold: u64) -> bool {
    be_u64_of(blake2b_of(header)) <= threshold
}

/// Whether a finished header meets the proof-of-work condition.
pub fn pow_check(header: &Vec<u8>, threshold: u64) -> (r: bool)
    ensures
        r == pow_ok(header@, threshold),
{
    let digest: [u8; 32] = blake2b_256(header.as_slice());
    let lead = read_be_u64(digest.as_slice(), 0);
    proof {
        assert(digest@.skip(0) =~= digest@);
    }
    lead <= threshold
}

/// The `k`-th nonce the search tries from `start`, wrapping around the
/// 64-bit space.
pub open spec fn nonce_at(start: u64, k: u64) -> u64 {
    vstd::wrapping::u64_specs::wrapping_add(start, k)
}

/// Brute-force an eight-byte nonce for the header such that the stamped
/// header meets the proof-of-work condition. Tries `attempts` nonces from
/// `start` upward (wrapping) and returns the first that qualifies; `None`
/// comes back only when none of those attempts does, so a caller must be
/// prepared for it on an unlucky ceiling.
pub fn guess_proof_of_work(
    header: &Vec<u8>,
    offset: usize,
    threshold: u64,
    start: u64,
    attempts: u64,
) -> (r: Option<u64>)
    requires
        offset + 8 <= header@.len(),
    ensures
        r matches Some(n) ==> pow_ok(with_nonce(header@, offset as int, n), threshold),
        r matches Some(n) ==> (exists|k: u64|
            k < attempts && n == #[trigger] nonce_at(start, k) && (forall|j: u64|
                j < k ==> !pow_ok(
                    with_nonce(header@, offset as int, #[trigger] nonce_at(start, j)),
                    threshold,
                ))),
        r is None ==> forall|k: u64|
            k < attempts ==> !pow_ok(
                with_nonce(header@, offset as int, #[trigger] nonce_at(start, k)),
                threshold,
            ),
{
    let header_len: usize = header.len();
    let mut tried: u64 = 0;
    while tried < attempts
        invariant
            offset + 8 <= header@.len(),
            header@.len() == header_len,
            tried <= attempts,
            forall|j: u64|
                j < tried ==> !pow_ok(
                    with_nonce(header@, offset as int, #[trigger] nonce_at(start, j)),
                    threshold,
                ),
        decreases attempts - tried,
    {
        let nonce = start.wrapping_add(tried);
        let mut candidate: Vec<u8> = Vec::new();
        let mut i: usize = 0;
        while i < offset
            invariant
                0 <= i <= offset,
                offset + 8 <= header@.len(),
                candidate@ == header@.take(i as int),
            decreases offset - i,
        {
            candidate.push(header[i]);
            proof {
                assert(candidate@ =~= header@.take(i + 1));
            }
            i = i + 1;
        }
        push_be64(&mut candidate, nonce);
        let mut j: usize = offset + 8;
        while j < header.len()
            invariant
                offset + 8 <= j <= header@.len(),
                candidate@ == header@.take(offset as int) + be64_of(nonce) + header@.skip(
                    offset + 8,
                ).take(j - offset - 8),
            decreases header@.len() - j,
        {
            candidate.push(header[j]);
            proof {
                assert(header@.skip(offset + 8).take(j + 1 - offset - 8) =~= header@.skip(
                    offset + 8,
                ).take(j - offset - 8).push(header@[j as int]));
                assert(candidate@ =~= header@.take(offset as int) + be64_of(nonce) + header@.skip(
                    offset + 8,
                ).take(j + 1 - offset - 8));
            }
            j = j + 1;
        }
        proof {
            assert(header@.skip(offset + 8).take(header@.len() - offset - 8) =~= header@.skip(
                offset + 8,
            ));
            assert(candidate@ =~= with_nonce(header@, offset as int, nonce));
        }
        if pow_check(&candidate, threshold) {
            proof {
                assert(nonce == nonce_at(start, tried));
                assert(tried < attempts && nonce == nonce_at(start, tried) && (forall|j: u64|
                    j < tried ==> !pow_ok(
                        with_nonce(header@, offset as int, #[trigger] nonce_at(start, j)),
                        threshold,
                    )));
            }
            return Some(nonce);
        }
        proof {
            assert(nonce == nonce_at(start, tried));
        }
        tried = tried + 1;
    }
    None
}

} // verus!

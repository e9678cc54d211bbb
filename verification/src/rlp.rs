//! Hashes and paths in the recursive length prefix encoding.
use alloy_rlp::Encodable;
use vstd::prelude::*;

use crate::primitives::{Nibbles, B256};

verus! {

/// A hash in this encoding: the mark of a string of 32 bytes, and the bytes.
pub open spec fn rlp_hash(hash: Seq<u8>) -> Seq<u8> {
    seq![0xa0u8] + hash
}

/// The head of a list that says it has `len` bytes.
pub open spec fn rlp_list_head(len: nat) -> Seq<u8> {
    if len < 56 {
        seq![(0xc0 + len) as u8]
    } else {
        seq![0xf8u8, len as u8]
    }
}

/// A nibble in this encoding: itself, but the mark of an empty string for zero.
pub open spec fn rlp_nibble(nibble: u8) -> u8 {
    if nibble == 0 {
        0x80
    } else {
        nibble
    }
}

/// A path in this encoding: a list of its nibbles.
pub open spec fn rlp_path(path: Seq<u8>) -> Seq<u8> {
    rlp_list_head(path.len()) + path.map_values(|nibble: u8| rlp_nibble(nibble))
}

/// Encodes a hash, by `<alloy_primitives::B256 as alloy_rlp::Encodable>::encode`.
///
/// Trusted: that it appends the mark of a string of 32 bytes and the bytes.
#[verifier::external_body]
pub(crate) fn encode_hash(hash: &B256, out: &mut Vec<u8>)
    ensures
        final(out)@ == old(out)@ + rlp_hash(hash@),
{
    alloy_primitives::B256::new(*hash).encode(out);
}

/// Encodes a path, by `<nybbles::Nibbles as alloy_rlp::Encodable>::encode`.
///
/// Trusted: that it appends the head of a list with as many bytes as there are nibbles, and
/// each nibble as a number. No path is too long for `nybbles::Nibbles`.
#[verifier::external_body]
pub(crate) fn encode_path(path: &Nibbles, out: &mut Vec<u8>)
    ensures
        final(out)@ == old(out)@ + rlp_path(path@),
{
    nybbles::Nibbles::from_nibbles_unchecked(path.as_slice()).encode(out);
}

/// Different paths are encoded differently.
pub proof fn law_rlp_path_injective(path: Seq<u8>, other: Seq<u8>)
    requires
        crate::primitives::valid_path(path),
        crate::primitives::valid_path(other),
        rlp_path(path) == rlp_path(other),
    ensures
        path == other,
{
    let a = rlp_path(path);
    let head = rlp_list_head(path.len());
    assert(a[0] == head[0]);
    assert(a[0] == rlp_list_head(other.len())[0]);
    assert(a.len() == head.len() + path.len());
    assert(a.len() == rlp_list_head(other.len()).len() + other.len());
    assert(path.len() == other.len());
    assert forall|i: int| 0 <= i < path.len() implies path[i] == other[i] by {
        assert(a[head.len() + i] == rlp_nibble(path[i]));
        assert(a[head.len() + i] == rlp_nibble(other[i]));
    }
    assert(path =~= other);
}

/// The encoding of a hash is one mark and its 32 bytes. That of a path is the head of a list, in
/// one byte below 56 nibbles and in two from there on, and one byte for each nibble: the nibble
/// itself, or 0x80 for zero.
pub proof fn law_rlp_layout(hash: Seq<u8>, path: Seq<u8>)
    requires
        path.len() <= 64,
    ensures
        rlp_hash(hash).len() == 1 + hash.len(),
        rlp_hash(hash)[0] == 0xa0,
        forall|i: int| 0 <= i < hash.len() ==> rlp_hash(hash)[1 + i] == #[trigger] hash[i],
        path.len() < 56 ==> rlp_path(path).len() == 1 + path.len() && rlp_path(path)[0] == 0xc0
            + path.len(),
        path.len() >= 56 ==> rlp_path(path).len() == 2 + path.len() && rlp_path(path)[0] == 0xf8
            && rlp_path(path)[1] == path.len(),
        forall|i: int|
            0 <= i < path.len() ==> rlp_path(path)[rlp_path(path).len() - path.len() + i] == (if (
            #[trigger] path[i]) == 0 {
                0x80u8
            } else {
                path[i]
            }),
{
}

} // verus!

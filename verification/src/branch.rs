//! Branch nodes of a trie and their stored form.
use std::sync::Arc;

use alloy_trie::TrieMask;
use reth_codecs::Compact;
use vstd::prelude::*;

use crate::primitives::B256;

verus! {

/// A branch node: which of its sixteen children there are, which of them are
/// stored and which are known by hash, and the hashes.
#[derive(Debug, PartialEq, Eq)]
pub struct BranchNodeCompact {
    /// Bit `i` is set if there is a child at nibble `i`.
    pub state_mask: u16,
    /// Bit `i` is set if the child at nibble `i` is itself stored.
    pub tree_mask: u16,
    /// Bit `i` is set if the hash of the child at nibble `i` is kept.
    pub hash_mask: u16,
    /// The hashes that are kept, by nibble.
    pub hashes: Vec<B256>,
    /// The hash of the subtrie under this node, where it is known.
    pub root_hash: Option<B256>,
}

/// The contents of a [`BranchNodeCompact`].
#[verifier::ext_equal]
pub struct BranchView {
    pub state_mask: u16,
    pub tree_mask: u16,
    pub hash_mask: u16,
    pub hashes: Seq<Seq<u8>>,
    pub root_hash: Option<Seq<u8>>,
}

impl View for BranchNodeCompact {
    type V = BranchView;

    open spec fn view(&self) -> BranchView {
        BranchView {
            state_mask: self.state_mask,
            tree_mask: self.tree_mask,
            hash_mask: self.hash_mask,
            hashes: crate::primitives::hashes_view(self.hashes@),
            root_hash: crate::primitives::hash_view(self.root_hash),
        }
    }
}

/// The contents of an optional branch.
pub open spec fn branch_view(branch: Option<BranchNodeCompact>) -> Option<BranchView> {
    match branch {
        Some(b) => Some(b@),
        None => None,
    }
}

/// The number of bits that are set in `mask`.
pub open spec fn ones(mask: nat) -> nat
    decreases mask,
{
    if mask == 0 {
        0
    } else {
        mask % 2 + ones(mask / 2)
    }
}

impl BranchView {
    /// Whether the masks and the hashes agree: only children that there are can be
    /// stored or have a hash, and each kept hash has its bit.
    pub open spec fn wf(self) -> bool {
        &&& self.tree_mask & self.state_mask == self.tree_mask
        &&& self.hash_mask & self.state_mask == self.hash_mask
        &&& self.hashes.len() == ones(self.hash_mask as nat)
        &&& forall|i: int| 0 <= i < self.hashes.len() ==> (#[trigger] self.hashes[i]).len() == 32
        &&& self.root_hash is Some ==> self.root_hash->0.len() == 32
    }
}

/// A mask as two bytes, the more significant one first.
pub open spec fn mask_bytes(mask: u16) -> Seq<u8> {
    seq![(mask / 256) as u8, (mask % 256) as u8]
}

/// The mask that the two bytes at `at` make.
pub open spec fn mask_at(bytes: Seq<u8>, at: int) -> u16 {
    (bytes[at] * 256 + bytes[at + 1]) as u16
}

/// The stored form of a branch: its three masks, the root hash if there is one,
/// and the hashes.
pub open spec fn branch_bytes(branch: BranchView) -> Seq<u8> {
    mask_bytes(branch.state_mask) + mask_bytes(branch.tree_mask) + mask_bytes(branch.hash_mask) + (
    match branch.root_hash {
        Some(hash) => hash,
        None => Seq::empty(),
    }) + branch.hashes.flatten()
}

/// How many hashes the stored form `bytes` has room for after its masks.
pub open spec fn hashes_in(bytes: Seq<u8>) -> int {
    (bytes.len() - 6) / 32
}

/// Whether the stored form `bytes` starts its hashes with the root hash: it holds one
/// hash more than the hash mask has bits.
pub open spec fn has_root_hash(bytes: Seq<u8>) -> bool {
    hashes_in(bytes) == ones(mask_at(bytes, 4) as nat) + 1
}

/// Whether `bytes` is the stored form of a branch.
pub open spec fn valid_branch_bytes(bytes: Seq<u8>) -> bool {
    &&& bytes.len() >= 6
    &&& bytes.len() % 32 == 6
    &&& mask_at(bytes, 2) & mask_at(bytes, 0) == mask_at(bytes, 2)
    &&& mask_at(bytes, 4) & mask_at(bytes, 0) == mask_at(bytes, 4)
    &&& hashes_in(bytes) == ones(mask_at(bytes, 4) as nat) || has_root_hash(bytes)
}

/// The branch that `bytes` is the stored form of.
pub open spec fn branch_of(bytes: Seq<u8>) -> BranchView {
    let start: int = if has_root_hash(bytes) {
        38
    } else {
        6
    };
    BranchView {
        state_mask: mask_at(bytes, 0),
        tree_mask: mask_at(bytes, 2),
        hash_mask: mask_at(bytes, 4),
        hashes: Seq::new(
            ones(mask_at(bytes, 4) as nat),
            |i: int| bytes.subrange(start + 32 * i, start + 32 * i + 32),
        ),
        root_hash: if has_root_hash(bytes) {
            Some(bytes.subrange(6, 38))
        } else {
            None
        },
    }
}

/// Writes a branch in its stored form, by `<alloy_trie::BranchNodeCompact as
/// reth_codecs::Compact>::to_compact`.
///
/// Trusted: that it appends the three masks, two big-endian bytes each, the root hash
/// if there is one, and the hashes one after another.
#[verifier::external_body]
pub(crate) fn branch_to_compact(branch: &BranchNodeCompact) -> (r: Vec<u8>)
    ensures
        r@ == branch_bytes(branch@),
{
    let mut out = Vec::new();
    let hashes = branch.hashes.iter().map(|hash| alloy_primitives::B256::new(*hash)).collect();
    let node = alloy_trie::BranchNodeCompact {
        state_mask: TrieMask::new(branch.state_mask),
        tree_mask: TrieMask::new(branch.tree_mask),
        hash_mask: TrieMask::new(branch.hash_mask),
        hashes: Arc::new(hashes),
        root_hash: branch.root_hash.map(alloy_primitives::B256::new),
    };
    node.to_compact(&mut out);
    out
}

/// Reads a branch from its stored form, by `<alloy_trie::BranchNodeCompact as
/// reth_codecs::Compact>::from_compact`, which panics on bytes that no branch has.
///
/// Trusted: that it reads the three masks, then a root hash if there is one hash more
/// than the hash mask has bits, then the hashes.
#[verifier::external_body]
pub(crate) fn branch_from_compact(bytes: &[u8]) -> (r: BranchNodeCompact)
    requires
        valid_branch_bytes(bytes@),
    ensures
        r@ == branch_of(bytes@),
{
    let (node, _) = alloy_trie::BranchNodeCompact::from_compact(bytes, bytes.len());
    BranchNodeCompact {
        state_mask: node.state_mask.get(),
        tree_mask: node.tree_mask.get(),
        hash_mask: node.hash_mask.get(),
        hashes: node.hashes.iter().map(|hash| hash.0).collect(),
        root_hash: node.root_hash.map(|hash| hash.0),
    }
}

/// A number has no more set bits than its value.
proof fn lemma_ones_bound(mask: nat)
    ensures
        ones(mask) <= mask,
    decreases mask,
{
    if mask > 0 {
        lemma_ones_bound(mask / 2);
    }
}

/// The number of bits that are set in `mask`.
pub fn count_ones(mask: u16) -> (r: usize)
    ensures
        r == ones(mask as nat),
{
    proof {
        lemma_ones_bound(mask as nat);
    }
    let mut left: u16 = mask;
    let mut count: usize = 0;
    while left > 0
        invariant
            count + ones(left as nat) == ones(mask as nat),
            ones(mask as nat) <= mask,
        decreases left,
    {
        if left % 2 == 1 {
            count += 1;
        }
        left = left / 2;
    }
    count
}

/// Whether `bytes` is the stored form of a branch.
pub fn is_branch_bytes(bytes: &[u8]) -> (r: bool)
    ensures
        r == valid_branch_bytes(bytes@),
{
    if bytes.len() < 6 || bytes.len() % 32 != 6 {
        return false;
    }
    let state_mask: u16 = read_mask(bytes, 0);
    let tree_mask: u16 = read_mask(bytes, 2);
    let hash_mask: u16 = read_mask(bytes, 4);
    if tree_mask & state_mask != tree_mask || hash_mask & state_mask != hash_mask {
        return false;
    }
    let hashes: usize = (bytes.len() - 6) / 32;
    let kept: usize = count_ones(hash_mask);
    proof {
        lemma_ones_bound(hash_mask as nat);
    }
    hashes == kept || hashes == kept + 1
}

/// The mask that the two bytes at `at` make.
fn read_mask(bytes: &[u8], at: usize) -> (r: u16)
    requires
        at + 1 < bytes@.len(),
    ensures
        r == mask_at(bytes@, at as int),
{
    bytes[at] as u16 * 256 + bytes[at + 1] as u16
}

impl Clone for BranchNodeCompact {
    fn clone(&self) -> (r: Self)
        ensures
            r.state_mask == self.state_mask,
            r.tree_mask == self.tree_mask,
            r.hash_mask == self.hash_mask,
            r.hashes@ == self.hashes@,
            r.root_hash == self.root_hash,
            r@ == self@,
    {
        let mut hashes: Vec<B256> = Vec::new();
        let mut i: usize = 0;
        while i < self.hashes.len()
            invariant
                i <= self.hashes@.len(),
                hashes@ =~= self.hashes@.take(i as int),
            decreases self.hashes@.len() - i,
        {
            hashes.push(self.hashes[i]);
            i += 1;
        }
        assert(hashes@ =~= self.hashes@);
        Self {
            state_mask: self.state_mask,
            tree_mask: self.tree_mask,
            hash_mask: self.hash_mask,
            hashes,
            root_hash: self.root_hash,
        }
    }
}

/// The length of equally long pieces put together, and where each piece stands.
proof fn lemma_flatten_hashes(hashes: Seq<Seq<u8>>)
    requires
        forall|i: int| 0 <= i < hashes.len() ==> (#[trigger] hashes[i]).len() == 32,
    ensures
        hashes.flatten().len() == 32 * hashes.len(),
        forall|i: int|
            0 <= i < hashes.len() ==> #[trigger] hashes[i] == hashes.flatten().subrange(
                32 * i,
                32 * i + 32,
            ),
    decreases hashes.len(),
{
    if hashes.len() > 0 {
        let rest = hashes.drop_first();
        assert forall|i: int| 0 <= i < rest.len() implies (#[trigger] rest[i]).len() == 32 by {
            assert(rest[i] == hashes[i + 1]);
        }
        lemma_flatten_hashes(rest);
        assert(hashes.flatten() == hashes.first() + rest.flatten());
        assert forall|i: int| 0 <= i < hashes.len() implies #[trigger] hashes[i]
            == hashes.flatten().subrange(32 * i, 32 * i + 32) by {
            if i == 0 {
                assert(hashes[0] =~= hashes.flatten().subrange(0, 32));
            } else {
                assert(rest[i - 1] == hashes[i]);
                assert(hashes.flatten().subrange(32 * i, 32 * i + 32) =~= rest.flatten().subrange(
                    32 * (i - 1),
                    32 * (i - 1) + 32,
                ));
            }
        }
    }
}

/// A branch is read back from its stored form as it was written, and its stored form is
/// never empty.
pub proof fn law_branch_roundtrip(branch: BranchView)
    requires
        branch.wf(),
    ensures
        valid_branch_bytes(branch_bytes(branch)),
        branch_of(branch_bytes(branch)) == branch,
        branch_bytes(branch).len() > 0,
{
    let bytes = branch_bytes(branch);
    lemma_flatten_hashes(branch.hashes);
    lemma_ones_bound(branch.hash_mask as nat);
    assert(mask_at(bytes, 0) == branch.state_mask);
    assert(mask_at(bytes, 2) == branch.tree_mask);
    assert(mask_at(bytes, 4) == branch.hash_mask);
    let start: int = if branch.root_hash is Some {
        38
    } else {
        6
    };
    assert(bytes.len() == start + 32 * branch.hashes.len());
    assert(has_root_hash(bytes) == (branch.root_hash is Some));
    assert forall|i: int| 0 <= i < branch.hashes.len() implies branch.hashes[i]
        == branch_of(bytes).hashes[i] by {
        assert(bytes.subrange(start + 32 * i, start + 32 * i + 32) =~= branch.hashes.flatten().subrange(
            32 * i,
            32 * i + 32,
        ));
    }
    assert(branch_of(bytes).hashes =~= branch.hashes);
    if branch.root_hash is Some {
        assert(bytes.subrange(6, 38) =~= branch.root_hash->0);
    }
}

/// What is read from a stored form is a well-formed branch, and that is its stored form.
pub proof fn law_stored_form_is_of_branch(bytes: Seq<u8>)
    requires
        valid_branch_bytes(bytes),
    ensures
        branch_of(bytes).wf(),
        branch_bytes(branch_of(bytes)) == bytes,
{
    let branch = branch_of(bytes);
    let start: int = if has_root_hash(bytes) {
        38
    } else {
        6
    };
    let n = ones(mask_at(bytes, 4) as nat) as int;
    assert(bytes.len() == start + 32 * n);
    assert forall|i: int| 0 <= i < branch.hashes.len() implies (#[trigger] branch.hashes[i]).len()
        == 32 by {
        assert(start + 32 * i + 32 <= bytes.len());
    }
    lemma_flatten_hashes(branch.hashes);
    let again = branch_bytes(branch);
    assert(again.len() == bytes.len());
    assert forall|k: int| 0 <= k < bytes.len() implies again[k] == bytes[k] by {
        if k >= start {
            let i = (k - start) / 32;
            assert(branch.hashes[i] == branch.hashes.flatten().subrange(32 * i, 32 * i + 32));
            assert(again[k] == branch.hashes.flatten()[k - start]);
            assert(branch.hashes[i][k - start - 32 * i] == branch.hashes.flatten()[k - start]);
        }
    }
    assert(again =~= bytes);
}

/// The contents of a branch are its masks, the bytes of each of its hashes in order, and those of
/// its root hash: nothing of it is left out.
pub proof fn law_branch_contents(branch: BranchNodeCompact)
    ensures
        branch@.state_mask == branch.state_mask,
        branch@.tree_mask == branch.tree_mask,
        branch@.hash_mask == branch.hash_mask,
        branch@.hashes.len() == branch.hashes@.len(),
        forall|i: int|
            0 <= i < branch.hashes@.len() ==> #[trigger] branch@.hashes[i] == branch.hashes@[i]@,
        branch.root_hash is Some ==> branch@.root_hash == Some(branch.root_hash->0@),
        branch.root_hash is None ==> branch@.root_hash is None,
        branch_view(Some(branch)) == Some(branch@),
        branch_view(None) is None,
{
}

/// The number of bits of a mask is the sum of its sixteen bits.
pub proof fn law_mask_bits(mask: u16)
    ensures
        ones(mask as nat) == mask % 2 + mask / 2 % 2 + mask / 4 % 2 + mask / 8 % 2 + mask / 16 % 2
            + mask / 32 % 2 + mask / 64 % 2 + mask / 128 % 2 + mask / 256 % 2 + mask / 512 % 2
            + mask / 1024 % 2 + mask / 2048 % 2 + mask / 4096 % 2 + mask / 8192 % 2 + mask / 16384
            % 2 + mask / 32768 % 2,
{
    let m = mask as nat;
    reveal_with_fuel(ones, 17);
    assert(m / 2 / 2 == m / 4);
    assert(m / 4 / 2 == m / 8);
    assert(m / 8 / 2 == m / 16);
    assert(m / 16 / 2 == m / 32);
    assert(m / 32 / 2 == m / 64);
    assert(m / 64 / 2 == m / 128);
    assert(m / 128 / 2 == m / 256);
    assert(m / 256 / 2 == m / 512);
    assert(m / 512 / 2 == m / 1024);
    assert(m / 1024 / 2 == m / 2048);
    assert(m / 2048 / 2 == m / 4096);
    assert(m / 4096 / 2 == m / 8192);
    assert(m / 8192 / 2 == m / 16384);
    assert(m / 16384 / 2 == m / 32768);
    assert(m / 32768 / 2 == 0);
}

/// A branch is well-formed if only children that there are can be stored or have a hash, and there
/// are as many hashes as bits for them.
pub proof fn law_well_formed_branch(branch: BranchView)
    ensures
        branch.wf() <==> branch.tree_mask & branch.state_mask == branch.tree_mask
            && branch.hash_mask & branch.state_mask == branch.hash_mask && branch.hashes.len()
            == ones(branch.hash_mask as nat) && (forall|i: int|
            0 <= i < branch.hashes.len() ==> (#[trigger] branch.hashes[i]).len() == 32) && (
        branch.root_hash is Some ==> branch.root_hash->0.len() == 32),
{
}

/// The stored form of a branch: each mask in two bytes, the more significant one first, then the
/// root hash where there is one, then the hashes. There are no other bytes.
pub proof fn law_stored_form_layout(branch: BranchView)
    requires
        branch.wf(),
    ensures
        ({
            let bytes = branch_bytes(branch);
            let start: int = if branch.root_hash is Some {
                38
            } else {
                6
            };
            &&& bytes.len() == start + 32 * branch.hashes.len()
            &&& bytes[0] * 256 + bytes[1] == branch.state_mask
            &&& bytes[2] * 256 + bytes[3] == branch.tree_mask
            &&& bytes[4] * 256 + bytes[5] == branch.hash_mask
            &&& branch.root_hash is Some ==> bytes.subrange(6, 38) == branch.root_hash->0
            &&& forall|i: int|
                0 <= i < branch.hashes.len() ==> #[trigger] branch.hashes[i] == bytes.subrange(
                    start + 32 * i,
                    start + 32 * i + 32,
                )
        }),
{
    let bytes = branch_bytes(branch);
    lemma_flatten_hashes(branch.hashes);
    let start: int = if branch.root_hash is Some {
        38
    } else {
        6
    };
    assert forall|i: int| 0 <= i < branch.hashes.len() implies #[trigger] branch.hashes[i]
        == bytes.subrange(start + 32 * i, start + 32 * i + 32) by {
        assert(bytes.subrange(start + 32 * i, start + 32 * i + 32)
            =~= branch.hashes.flatten().subrange(32 * i, 32 * i + 32));
    }
    if branch.root_hash is Some {
        assert(bytes.subrange(6, 38) =~= branch.root_hash->0);
    }
}

/// Bytes are the stored form of a branch exactly if some well-formed branch has them as its own.
pub proof fn law_which_bytes_are_branches(bytes: Seq<u8>)
    ensures
        valid_branch_bytes(bytes) <==> exists|branch: BranchView|
            branch.wf() && #[trigger] branch_bytes(branch) == bytes,
{
    if valid_branch_bytes(bytes) {
        law_stored_form_is_of_branch(bytes);
        assert(branch_bytes(branch_of(bytes)) == bytes);
    }
    if exists|branch: BranchView| branch.wf() && #[trigger] branch_bytes(branch) == bytes {
        let branch = choose|branch: BranchView|
            branch.wf() && #[trigger] branch_bytes(branch) == bytes;
        law_branch_roundtrip(branch);
    }
}

} // verus!

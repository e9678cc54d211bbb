//! The keys of the branch table.
use vstd::prelude::*;

use crate::primitives::{append_bytes, hash_from_bytes, Nibbles, B256, MAX_NIBBLES};
use crate::storage::{ExternalStorageError, ExternalStorageResult};
use crate::text::{decimal_text, joined};

verus! {

/// Key codec for branch nodes with proper ordering.
///
/// Format:
/// - If `hashed_address` is `Some(addr)` (account trie): `<0x00> <addr(32)> <path>`
/// - If `hashed_address` is `None` (state trie): `<0x01> <path>`
///
/// The path has one byte for each nibble. This ensures state trie entries (0x01 prefix) are
/// ordered after account trie entries (0x00 prefix).
#[derive(Debug, PartialEq, Eq)]
pub struct BranchNodeKey {
    pub hashed_address: Option<B256>,
    pub path: Nibbles,
}

/// The contents of a [`BranchNodeKey`].
#[verifier::ext_equal]
pub struct KeyView {
    pub hashed_address: Option<Seq<u8>>,
    pub path: Seq<u8>,
}

impl View for BranchNodeKey {
    type V = KeyView;

    open spec fn view(&self) -> KeyView {
        KeyView {
            hashed_address: crate::primitives::hash_view(self.hashed_address),
            path: self.path@,
        }
    }
}

/// What all keys of a trie start with.
pub open spec fn key_prefix(hashed_address: Option<Seq<u8>>) -> Seq<u8> {
    match hashed_address {
        Some(address) => seq![0u8] + address,
        None => seq![1u8],
    }
}

/// The key of a path in a trie.
pub open spec fn key_bytes(hashed_address: Option<Seq<u8>>, path: Seq<u8>) -> Seq<u8> {
    key_prefix(hashed_address) + path
}

/// Whether `bytes` leave room for no path that is too long.
pub open spec fn key_fits(bytes: Seq<u8>) -> bool {
    &&& bytes.len() > 0 && bytes[0] == 0 ==> bytes.len() <= 33 + MAX_NIBBLES
    &&& bytes.len() > 0 && bytes[0] == 1 ==> bytes.len() <= 1 + MAX_NIBBLES
}

/// What is read from the bytes of a key.
pub open spec fn key_of(bytes: Seq<u8>) -> Result<KeyView, crate::storage::ErrorView> {
    if bytes.len() == 0 {
        Err(crate::storage::ErrorView::Storage("key too short"@))
    } else if bytes[0] == 0 {
        if bytes.len() < 33 {
            Err(crate::storage::ErrorView::Storage("account trie key too short"@))
        } else {
            Ok(
                KeyView {
                    hashed_address: Some(bytes.subrange(1, 33)),
                    path: crate::primitives::low_nibbles(bytes.skip(33)),
                },
            )
        }
    } else if bytes[0] == 1 {
        Ok(
            KeyView {
                hashed_address: None,
                path: crate::primitives::low_nibbles(bytes.skip(1)),
            },
        )
    } else {
        Err(
            crate::storage::ErrorView::Storage(
                "invalid key prefix: "@ + crate::text::decimal(bytes[0] as nat),
            ),
        )
    }
}

/// The contents of what is read from the bytes of a key.
pub open spec fn key_read_view(read: ExternalStorageResult<BranchNodeKey>) -> Result<
    KeyView,
    crate::storage::ErrorView,
> {
    match read {
        Ok(key) => Ok(key@),
        Err(error) => Err(error@),
    }
}

impl BranchNodeKey {
    /// The bytes of this key.
    pub fn encode(&self) -> (r: Vec<u8>)
        ensures
            match self.hashed_address {
                Some(address) => r@ == seq![0u8] + address@ + self.path@,
                None => r@ == seq![1u8] + self.path@,
            },
            r@ == key_bytes(self@.hashed_address, self@.path),
    {
        let mut out: Vec<u8> = Vec::new();
        match &self.hashed_address {
            Some(address) => {
                out.push(0u8);
                append_bytes(&mut out, address.as_slice());
                append_bytes(&mut out, self.path.as_slice());
            },
            None => {
                out.push(1u8);
                append_bytes(&mut out, self.path.as_slice());
            },
        }
        assert(out@ =~= key_bytes(self@.hashed_address, self@.path));
        proof {
            match self.hashed_address {
                Some(address) => assert(out@ =~= seq![0u8] + address@ + self.path@),
                None => assert(out@ =~= seq![1u8] + self.path@),
            }
        }
        out
    }

    /// Whether [`BranchNodeKey::decode`] takes these bytes.
    pub fn fits(bytes: &[u8]) -> (r: bool)
        ensures
            r == key_fits(bytes@),
    {
        if bytes.len() == 0 {
            true
        } else if bytes[0] == 0 {
            bytes.len() <= 33 + MAX_NIBBLES
        } else if bytes[0] == 1 {
            bytes.len() <= 1 + MAX_NIBBLES
        } else {
            true
        }
    }

    /// Reads a key from its bytes.
    pub fn decode(bytes: &[u8]) -> (r: ExternalStorageResult<BranchNodeKey>)
        requires
            key_fits(bytes@),
        ensures
            bytes@.len() == 0 ==> r is Err && r->Err_0@ == crate::storage::ErrorView::Storage(
                "key too short"@,
            ),
            bytes@.len() > 0 && bytes@[0] == 0 && bytes@.len() < 33 ==> r is Err && r->Err_0@
                == crate::storage::ErrorView::Storage("account trie key too short"@),
            bytes@.len() >= 33 && bytes@[0] == 0 ==> r is Ok && r->Ok_0.hashed_address is Some
                && r->Ok_0.hashed_address->0@ == bytes@.subrange(1, 33) && r->Ok_0.path@.len()
                == bytes@.len() - 33 && forall|i: int|
                0 <= i < bytes@.len() - 33 ==> #[trigger] r->Ok_0.path@[i] == bytes@[33 + i] % 16,
            bytes@.len() > 0 && bytes@[0] == 1 ==> r is Ok && r->Ok_0.hashed_address is None
                && r->Ok_0.path@.len() == bytes@.len() - 1 && forall|i: int|
                0 <= i < bytes@.len() - 1 ==> #[trigger] r->Ok_0.path@[i] == bytes@[1 + i] % 16,
            bytes@.len() > 0 && bytes@[0] > 1 ==> r is Err && r->Err_0@
                == crate::storage::ErrorView::Storage(
                "invalid key prefix: "@ + crate::text::decimal(bytes@[0] as nat),
            ),
            key_read_view(r) == key_of(bytes@),
    {
        if bytes.len() == 0 {
            return Err(ExternalStorageError::StorageError("key too short".to_owned()));
        }
        let prefix: u8 = bytes[0];
        if prefix == 0 {
            if bytes.len() < 33 {
                return Err(
                    ExternalStorageError::StorageError("account trie key too short".to_owned()),
                );
            }
            let (front, path) = bytes.split_at(33);
            let (_, address) = front.split_at(1);
            assert(address@ =~= bytes@.subrange(1, 33));
            assert(path@ =~= bytes@.skip(33));
            Ok(
                BranchNodeKey {
                    hashed_address: Some(hash_from_bytes(address)),
                    path: Nibbles::from_nibbles_unchecked(path),
                },
            )
        } else if prefix == 1 {
            let (_, path) = bytes.split_at(1);
            assert(path@ =~= bytes@.skip(1));
            Ok(
                BranchNodeKey {
                    hashed_address: None,
                    path: Nibbles::from_nibbles_unchecked(path),
                },
            )
        } else {
            Err(
                ExternalStorageError::StorageError(
                    joined("invalid key prefix: ", decimal_text(prefix as u64).as_str()),
                ),
            )
        }
    }
}

/// A block number as the table keeps it: as a signed 64-bit integer, the largest one where
/// the number does not fit.
pub open spec fn block_int(block_number: u64) -> i64 {
    if block_number <= i64::MAX {
        block_number as i64
    } else {
        i64::MAX
    }
}

/// A block number as the table keeps it.
pub fn to_block_int(block_number: u64) -> (r: i64)
    ensures
        block_number <= 0x7fff_ffff_ffff_ffff ==> r == block_number,
        block_number > 0x7fff_ffff_ffff_ffff ==> r == 0x7fff_ffff_ffff_ffff,
        r == block_int(block_number),
{
    if block_number <= i64::MAX as u64 {
        block_number as i64
    } else {
        i64::MAX
    }
}

/// Whether a trie can have this address: there is none, or it is a hash.
pub open spec fn valid_address(hashed_address: Option<Seq<u8>>) -> bool {
    hashed_address is Some ==> hashed_address->0.len() == 32
}

/// A key is read back from its bytes as it was written.
pub proof fn law_key_roundtrip(hashed_address: Option<Seq<u8>>, path: Seq<u8>)
    requires
        valid_address(hashed_address),
        crate::primitives::valid_path(path),
    ensures
        key_fits(key_bytes(hashed_address, path)),
        key_of(key_bytes(hashed_address, path)) == Ok::<KeyView, crate::storage::ErrorView>(
            KeyView { hashed_address, path },
        ),
{
    let bytes = key_bytes(hashed_address, path);
    match hashed_address {
        Some(address) => {
            assert(bytes.subrange(1, 33) =~= address);
            assert(bytes.skip(33) =~= path);
        },
        None => {
            assert(bytes.skip(1) =~= path);
        },
    }
    assert(crate::primitives::low_nibbles(path) =~= path);
}

/// Different paths or tries have different keys.
pub proof fn law_key_injective(
    hashed_address: Option<Seq<u8>>,
    path: Seq<u8>,
    other_address: Option<Seq<u8>>,
    other_path: Seq<u8>,
)
    requires
        valid_address(hashed_address),
        valid_address(other_address),
        crate::primitives::valid_path(path),
        crate::primitives::valid_path(other_path),
        key_bytes(hashed_address, path) == key_bytes(other_address, other_path),
    ensures
        hashed_address == other_address,
        path == other_path,
{
    law_key_roundtrip(hashed_address, path);
    law_key_roundtrip(other_address, other_path);
}

/// The keys of one trie are in the order of its paths.
pub proof fn law_key_order(hashed_address: Option<Seq<u8>>, path: Seq<u8>, other_path: Seq<u8>)
    ensures
        crate::order::lex_lt(key_bytes(hashed_address, path), key_bytes(hashed_address, other_path))
            == crate::order::lex_lt(path, other_path),
{
    crate::order::lemma_lex_common_prefix(key_prefix(hashed_address), path, other_path);
}

/// All keys of account tries come before all keys of the state trie.
pub proof fn law_account_keys_first(address: Seq<u8>, path: Seq<u8>, state_path: Seq<u8>)
    ensures
        crate::order::lex_lt(key_bytes(Some(address), path), key_bytes(None, state_path)),
{
}

/// The keys of two accounts are in the order of the accounts, whatever the paths.
pub proof fn law_account_key_order(
    address: Seq<u8>,
    path: Seq<u8>,
    other_address: Seq<u8>,
    other_path: Seq<u8>,
)
    requires
        address.len() == 32,
        other_address.len() == 32,
        address != other_address,
    ensures
        crate::order::lex_lt(
            key_bytes(Some(address), path),
            key_bytes(Some(other_address), other_path),
        ) == crate::order::lex_lt(address, other_address),
{
    let p = seq![0u8] + address;
    let q = seq![0u8] + other_address;
    assert(p.skip(1) =~= address);
    assert(q.skip(1) =~= other_address);
    crate::order::lemma_lex_different_prefix(p, q, path, other_path);
    crate::order::lemma_lex_common_prefix(seq![0u8], address, other_address);
}

/// The keys of one trie stand together: between two of them there is no key of another.
pub proof fn law_trie_keys_together(
    hashed_address: Option<Seq<u8>>,
    path: Seq<u8>,
    last_path: Seq<u8>,
    other_address: Option<Seq<u8>>,
    other_path: Seq<u8>,
)
    requires
        valid_address(hashed_address),
        valid_address(other_address),
        crate::order::lex_lt(key_bytes(hashed_address, path), key_bytes(other_address, other_path)),
        crate::order::lex_lt(
            key_bytes(other_address, other_path),
            key_bytes(hashed_address, last_path),
        ),
    ensures
        other_address == hashed_address,
{
    if other_address != hashed_address {
        match (hashed_address, other_address) {
            (Some(a), Some(b)) => {
                law_account_key_order(a, path, b, other_path);
                law_account_key_order(b, other_path, a, last_path);
                crate::order::lemma_lex_total(a, b);
            },
            (Some(a), None) => {
                law_account_keys_first(a, last_path, other_path);
                crate::order::lemma_lex_total(
                    key_bytes(other_address, other_path),
                    key_bytes(hashed_address, last_path),
                );
            },
            (None, Some(b)) => {
                law_account_keys_first(b, other_path, path);
                crate::order::lemma_lex_total(
                    key_bytes(hashed_address, path),
                    key_bytes(other_address, other_path),
                );
            },
            (None, None) => {},
        }
    }
}

impl Clone for BranchNodeKey {
    fn clone(&self) -> (r: Self)
        ensures
            r@ == self@,
    {
        Self { hashed_address: self.hashed_address, path: self.path.clone() }
    }
}

/// The key of a path in the state trie is a one and the nibbles of the path. That of a path in an
/// account's trie is a zero, the 32 bytes of the address and the nibbles.
pub proof fn law_key_layout(address: Seq<u8>, path: Seq<u8>)
    ensures
        key_bytes(None, path) == seq![1u8] + path,
        key_bytes(Some(address), path) == seq![0u8] + address + path,
        key_prefix(None) == seq![1u8],
        key_prefix(Some(address)) == seq![0u8] + address,
        valid_address(Some(address)) <==> address.len() == 32,
        valid_address(None),
{
}

/// Which bytes are the key of something, and of what: those that start with a one, and those that
/// start with a zero and have room for an address. The rest of them is the path.
pub proof fn law_key_reading(bytes: Seq<u8>)
    ensures
        key_of(bytes) is Ok <==> bytes.len() > 0 && (bytes[0] == 1 || bytes[0] == 0 && bytes.len()
            >= 33),
        key_of(bytes) matches Ok(key) ==> key.path.len() == bytes.len() - (if bytes[0] == 0 {
            33
        } else {
            1int
        }) && (key.hashed_address is Some <==> bytes[0] == 0) && (bytes[0] == 0
            ==> key.hashed_address == Some(bytes.subrange(1, 33))) && forall|i: int|
            0 <= i < key.path.len() ==> #[trigger] key.path[i] == bytes[bytes.len()
                - key.path.len() + i] % 16,
        key_fits(bytes) <==> (key_of(bytes) matches Ok(key) ==> key.path.len() <= 64),
        bytes.len() == 0 ==> key_of(bytes) == Err::<KeyView, _>(
            crate::storage::ErrorView::Storage("key too short"@),
        ),
        0 < bytes.len() < 33 && bytes[0] == 0 ==> key_of(bytes) == Err::<KeyView, _>(
            crate::storage::ErrorView::Storage("account trie key too short"@),
        ),
        bytes.len() > 0 && bytes[0] > 1 ==> key_of(bytes) == Err::<KeyView, _>(
            crate::storage::ErrorView::Storage(
                "invalid key prefix: "@ + crate::text::decimal(bytes[0] as nat),
            ),
        ),
{
}

/// A block number is kept as it is as long as it fits, and as the largest that does otherwise: so
/// later blocks are never kept as earlier ones.
pub proof fn law_block_kept(block_number: u64, other: u64)
    ensures
        block_number <= 0x7fff_ffff_ffff_ffff ==> block_int(block_number) == block_number,
        block_number > 0x7fff_ffff_ffff_ffff ==> block_int(block_number) == 0x7fff_ffff_ffff_ffff,
        block_number <= other ==> block_int(block_number) <= block_int(other),
{
}

/// The contents of a key are its account and its path, and those of what reading one gives are
/// those of the key, or of the error.
pub proof fn law_key_contents(key: BranchNodeKey, error: crate::storage::ExternalStorageError)
    ensures
        key@.path == key.path@,
        key.hashed_address is None ==> key@.hashed_address is None,
        key.hashed_address is Some ==> key@.hashed_address == Some(key.hashed_address->0@),
        key_read_view(Ok(key)) == Ok::<_, crate::storage::ErrorView>(key@),
        key_read_view(Err(error)) == Err::<KeyView, _>(error@),
{
}

} // verus!

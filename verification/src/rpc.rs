//! The parts of the proof request that need no node.
use vstd::prelude::*;

use crate::primitives::{B256, U256};

verus! {

/// The key of a storage slot as a request gives it.
#[derive(Debug, Clone, Copy, PartialEq, Eq)]
pub enum JsonStorageKey {
    /// A hash, with all its digits.
    Hash(B256),
    /// A number.
    Number(U256),
}

impl JsonStorageKey {
    /// The 32 bytes of the key: of a number, most significant first.
    pub open spec fn bytes(self) -> Seq<u8> {
        match self {
            JsonStorageKey::Hash(hash) => hash@,
            JsonStorageKey::Number(number) => number@,
        }
    }

    /// The key as 32 bytes.
    pub fn as_b256(&self) -> (r: B256)
        ensures
            match *self {
                JsonStorageKey::Hash(hash) => r@ == hash@,
                JsonStorageKey::Number(number) => r@ == number@,
            },
            r@ == self.bytes(),
    {
        match self {
            JsonStorageKey::Hash(hash) => *hash,
            JsonStorageKey::Number(number) => *number,
        }
    }
}

/// Serves proofs from a store. What the node's own API is and what provides its database are
/// up to the node.
#[derive(Debug)]
pub struct EthApiExt<Eth, P, Provider> {
    pub eth_api: Eth,
    pub preimage_store: P,
    pub provider: Provider,
}

impl<Eth, P, Provider> EthApiExt<Eth, P, Provider> {
    pub fn new(eth_api: Eth, preimage_store: P, provider: Provider) -> (r: Self)
        ensures
            r.eth_api == eth_api,
            r.preimage_store == preimage_store,
            r.provider == provider,
    {
        Self { eth_api, preimage_store, provider }
    }
}

/// The block that a request is about: the default one if it names none.
pub fn requested_block<Id>(block_id: Option<Id>, default_id: Id) -> (r: Id)
    ensures
        r == (match block_id {
            Some(id) => id,
            None => default_id,
        }),
{
    match block_id {
        Some(id) => id,
        None => default_id,
    }
}

/// The number of the block that a request is about, or that block again if the node has no
/// header for it.
pub fn known_block<Id>(block_id: Id, block_number: Option<u64>) -> (r: Result<u64, Id>)
    ensures
        match block_number {
            Some(number) => r == Ok::<u64, Id>(number),
            None => r == Err::<u64, Id>(block_id),
        },
{
    match block_number {
        Some(number) => Ok(number),
        None => Err(block_id),
    }
}

/// The storage keys of a request as 32 bytes each, in order.
pub fn storage_keys(keys: &Vec<JsonStorageKey>) -> (r: Vec<B256>)
    ensures
        r@.len() == keys@.len(),
        forall|i: int|
            0 <= i < keys@.len() ==> match #[trigger] keys@[i] {
                JsonStorageKey::Hash(hash) => r@[i]@ == hash@,
                JsonStorageKey::Number(number) => r@[i]@ == number@,
            },
        crate::primitives::hashes_view(r@) == Seq::new(keys@.len(), |i: int| keys@[i].bytes()),
{
    let mut bytes: Vec<B256> = Vec::new();
    let mut i: usize = 0;
    while i < keys.len()
        invariant
            i <= keys@.len(),
            bytes@.len() == i,
            forall|j: int| 0 <= j < i ==> (#[trigger] bytes@[j])@ == keys@[j].bytes(),
            forall|j: int|
                0 <= j < i ==> match #[trigger] keys@[j] {
                    JsonStorageKey::Hash(hash) => bytes@[j]@ == hash@,
                    JsonStorageKey::Number(number) => bytes@[j]@ == number@,
                },
        decreases keys@.len() - i,
    {
        bytes.push(keys[i].as_b256());
        i += 1;
    }
    assert(crate::primitives::hashes_view(bytes@) =~= Seq::new(
        keys@.len(),
        |i: int| keys@[i].bytes(),
    ));
    bytes
}

/// The key that is proved is the one that was requested, byte by byte, whether it was given as a
/// hash or as a number: so two requests are for the same slot exactly if their bytes are the same.
pub proof fn law_key_as_requested(bytes: B256, other: B256)
    ensures
        JsonStorageKey::Hash(bytes).bytes().len() == 32,
        JsonStorageKey::Number(bytes).bytes().len() == 32,
        forall|i: int|
            0 <= i < 32 ==> #[trigger] JsonStorageKey::Hash(bytes).bytes()[i] == bytes@[i],
        forall|i: int|
            0 <= i < 32 ==> #[trigger] JsonStorageKey::Number(bytes).bytes()[i] == bytes@[i],
        JsonStorageKey::Hash(bytes).bytes() == JsonStorageKey::Number(other).bytes() <==> bytes@
            == other@,
{
}

} // verus!

//! What the DynamoDB store writes to its table and reads from it.
use vstd::prelude::*;

use crate::chunks::split_chunks;
use crate::config::DynamoDbConfig;
use crate::order::bytes_equal;
use crate::primitives::{copy_bytes, hash_from_bytes, Nibbles, B256};
use crate::rlp::{encode_hash, encode_path};
use crate::storage::{ExternalStorageError, ExternalStorageResult};
use crate::text::{decimal_text, hex_text, joined};

verus! {

/// How many items one request can write or delete.
pub const BATCH_SIZE: usize = 25;

/// What an item has to meet for a scan for a block to give it. `:block_number` stands for the
/// block in decimal digits.
pub const BLOCK_FILTER: &'static str = "block_number = :block_number";

/// A preimage by its hash, and where in which trie it stands.
#[derive(Debug, PartialEq, Eq)]
pub struct HashedPreimage {
    pub hash: B256,
    pub preimage: Vec<u8>,
    pub hashed_address: Option<B256>,
    pub path: Nibbles,
}

/// Preimages of one block.
#[derive(Debug, PartialEq, Eq)]
pub struct PreimageBatch {
    pub block_number: u64,
    pub items: Vec<HashedPreimage>,
}

/// An item of the table.
#[derive(Debug, PartialEq, Eq)]
pub struct PutItem {
    pub full_path: Vec<u8>,
    pub hash: Vec<u8>,
    /// The block number in decimal digits.
    pub block_number: String,
    pub data: Vec<u8>,
}

/// The contents of a [`PutItem`].
#[verifier::ext_equal]
pub struct PutView {
    pub full_path: Seq<u8>,
    pub hash: Seq<u8>,
    pub block_number: Seq<char>,
    pub data: Seq<u8>,
}

impl View for PutItem {
    type V = PutView;

    open spec fn view(&self) -> PutView {
        PutView {
            full_path: self.full_path@,
            hash: self.hash@,
            block_number: self.block_number@,
            data: self.data@,
        }
    }
}

/// The path of a node over all tries: the account's hashed address, if it is of a storage
/// trie, and the path, both encoded.
pub open spec fn full_path_bytes(hashed_address: Option<Seq<u8>>, path: Seq<u8>) -> Seq<u8> {
    match hashed_address {
        Some(address) => crate::rlp::rlp_hash(address) + crate::rlp::rlp_path(path),
        None => crate::rlp::rlp_path(path),
    }
}

/// The item that stores a preimage at a block.
pub open spec fn put_of(preimage: HashedPreimage, block_number: u64) -> PutView {
    PutView {
        full_path: full_path_bytes(
            crate::primitives::hash_view(preimage.hashed_address),
            preimage.path@,
        ),
        hash: preimage.hash@,
        block_number: crate::text::decimal(block_number as nat),
        data: preimage.preimage@,
    }
}

/// The items that store a batch, in order, all at the batch's block.
pub open spec fn batch_puts(batch: PreimageBatch) -> Seq<PutView> {
    Seq::new(batch.items@.len(), |i: int| put_of(batch.items@[i], batch.block_number))
}

/// The requests that store a batch: its items in order, as many to a request as one can write.
pub open spec fn batch_requests(batch: PreimageBatch) -> Seq<Seq<PutView>> {
    crate::chunks::chunks(batch_puts(batch), BATCH_SIZE as nat)
}

/// The path of a node over all tries.
pub fn full_path(hashed_address: &Option<B256>, path: &Nibbles) -> (r: Vec<u8>)
    ensures
        *hashed_address is None ==> r@ == crate::rlp::rlp_path(path@),
        *hashed_address is Some ==> r@ == crate::rlp::rlp_hash(hashed_address->0@)
            + crate::rlp::rlp_path(path@),
        r@ == full_path_bytes(crate::primitives::hash_view(*hashed_address), path@),
{
    let mut out: Vec<u8> = Vec::new();
    match hashed_address {
        Some(address) => {
            encode_hash(address, &mut out);
            encode_path(path, &mut out);
        },
        None => {
            encode_path(path, &mut out);
        },
    }
    assert(out@ =~= full_path_bytes(crate::primitives::hash_view(*hashed_address), path@));
    out
}

/// An attribute of an item, as far as it matters: bytes, or something else.
#[derive(Debug, PartialEq, Eq)]
pub enum AttributeValue {
    B(Vec<u8>),
    Other,
}

/// The bytes of an attribute, if it has bytes.
pub open spec fn attribute_bytes(attribute: AttributeValue) -> Option<Seq<u8>> {
    match attribute {
        AttributeValue::B(bytes) => Some(bytes@),
        AttributeValue::Other => None,
    }
}

/// What the store asks of the service.
#[derive(Debug, Clone, Copy, PartialEq, Eq)]
pub enum DynamoDbStep {
    Put,
    BuildPut,
    BatchWrite,
    Get,
    Exists,
    PruneScan,
    BuildDelete,
    BatchDelete,
    Count,
    Hashes,
    Describe,
}

/// The error for a step that failed with `detail`.
pub open spec fn step_error(step: DynamoDbStep, detail: Seq<char>) -> crate::storage::ErrorView {
    match step {
        DynamoDbStep::Put => crate::storage::ErrorView::Storage(
            "Failed to store preimage: "@ + detail,
        ),
        DynamoDbStep::BuildPut => crate::storage::ErrorView::Storage(
            "Failed to build put request: "@ + detail,
        ),
        DynamoDbStep::BatchWrite => crate::storage::ErrorView::Batch(
            "Failed to batch write preimages: "@ + detail,
        ),
        DynamoDbStep::Get => crate::storage::ErrorView::Storage(
            "Failed to get preimage: "@ + detail,
        ),
        DynamoDbStep::Exists => crate::storage::ErrorView::Storage(
            "Failed to check existence: "@ + detail,
        ),
        DynamoDbStep::PruneScan => crate::storage::ErrorView::Storage(
            "Failed to scan for pruning: "@ + detail,
        ),
        DynamoDbStep::BuildDelete => crate::storage::ErrorView::Storage(
            "Failed to build delete request: "@ + detail,
        ),
        DynamoDbStep::BatchDelete => crate::storage::ErrorView::Batch(
            "Failed to batch delete items: "@ + detail,
        ),
        DynamoDbStep::Count => crate::storage::ErrorView::Storage(
            "Failed to count preimages for block: "@ + detail,
        ),
        DynamoDbStep::Hashes => crate::storage::ErrorView::Storage(
            "Failed to get hashes for block: "@ + detail,
        ),
        DynamoDbStep::Describe => crate::storage::ErrorView::Connection(
            "Health check failed: "@ + detail,
        ),
    }
}

/// What a scan finds that a hash stands for: bytes of the right length.
pub open spec fn hash_attribute() -> spec_fn(Option<AttributeValue>) -> Option<Seq<u8>> {
    |attribute: Option<AttributeValue>|
        match attribute {
            Some(AttributeValue::B(bytes)) => if bytes@.len() == 32 {
                Some(bytes@)
            } else {
                None
            },
            _ => None,
        }
}

/// Preimages by hash, each hash once.
#[derive(Debug)]
pub struct FoundPreimages {
    found: Vec<(B256, Vec<u8>)>,
}

/// The preimages in a list, by hash.
pub open spec fn preimage_map(found: Seq<(B256, Vec<u8>)>) -> Map<Seq<u8>, Seq<u8>>
    decreases found.len(),
{
    if found.len() == 0 {
        Map::empty()
    } else {
        preimage_map(found.drop_last()).insert(found.last().0@, found.last().1@)
    }
}

/// Whether no hash is in a list twice.
pub open spec fn distinct_hashes(found: Seq<(B256, Vec<u8>)>) -> bool {
    forall|i: int, j: int|
        0 <= i < j < found.len() ==> (#[trigger] found[i]).0@ != (#[trigger] found[j]).0@
}

/// Without repeated hashes, changing the preimage of a hash in the list changes it in the map.
proof fn lemma_preimage_map_update(found: Seq<(B256, Vec<u8>)>, i: int, preimage: Vec<u8>)
    requires
        distinct_hashes(found),
        0 <= i < found.len(),
    ensures
        preimage_map(found.update(i, (found[i].0, preimage))) == preimage_map(found).insert(
            found[i].0@,
            preimage@,
        ),
    decreases found.len(),
{
    let front = found.drop_last();
    let changed = found.update(i, (found[i].0, preimage));
    if i == found.len() - 1 {
        assert(changed.drop_last() =~= front);
        assert(preimage_map(changed) =~= preimage_map(found).insert(found[i].0@, preimage@));
    } else {
        assert forall|a: int, b: int| 0 <= a < b < front.len() implies (#[trigger] front[a]).0@ != (
        #[trigger] front[b]).0@ by {
            assert(front[a] == found[a]);
            assert(front[b] == found[b]);
        }
        lemma_preimage_map_update(front, i, preimage);
        assert(changed.drop_last() =~= front.update(i, (front[i].0, preimage)));
        assert(found[i].0@ != found[found.len() - 1].0@);
        assert(preimage_map(changed) =~= preimage_map(found).insert(found[i].0@, preimage@));
    }
}

/// Where in a list a hash stands.
fn position(found: &Vec<(B256, Vec<u8>)>, hash: &B256) -> (r: Option<usize>)
    ensures
        match r {
            Some(i) => i < found@.len() && found@[i as int].0@ == hash@,
            None => forall|i: int| 0 <= i < found@.len() ==> (#[trigger] found@[i]).0@ != hash@,
        },
{
    let mut i: usize = 0;
    while i < found.len()
        invariant
            i <= found@.len(),
            forall|j: int| 0 <= j < i ==> (#[trigger] found@[j]).0@ != hash@,
        decreases found@.len() - i,
    {
        if bytes_equal(found[i].0.as_slice(), hash.as_slice()) {
            return Some(i);
        }
        i += 1;
    }
    None
}

impl View for FoundPreimages {
    type V = Map<Seq<u8>, Seq<u8>>;

    closed spec fn view(&self) -> Map<Seq<u8>, Seq<u8>> {
        preimage_map(self.found@)
    }
}

/// What looking for the preimage of a hash adds to those that were found.
pub open spec fn with_found(
    found: Map<Seq<u8>, Seq<u8>>,
    hash: Seq<u8>,
    preimage: Option<Seq<u8>>,
) -> Map<Seq<u8>, Seq<u8>> {
    match preimage {
        Some(bytes) => found.insert(hash, bytes),
        None => found,
    }
}

impl FoundPreimages {
    #[verifier::type_invariant]
    spec fn each_once(self) -> bool {
        distinct_hashes(self.found@)
    }

    /// None was found yet.
    pub fn new() -> (r: Self)
        ensures
            r@ == Map::<Seq<u8>, Seq<u8>>::empty(),
    {
        Self { found: Vec::new() }
    }

    /// The preimages, each hash once.
    pub fn into_vec(self) -> (r: Vec<(B256, Vec<u8>)>)
        ensures
            preimage_map(r@) == self@,
            distinct_hashes(r@),
    {
        proof {
            use_type_invariant(&self);
        }
        self.found
    }

    /// Take what looking for the preimage of a hash came to.
    pub fn get_preimages_batch(
        self,
        hash: &B256,
        looked: ExternalStorageResult<Option<Vec<u8>>>,
    ) -> (r: ExternalStorageResult<FoundPreimages>)
        ensures
            match looked {
                Ok(preimage) => r is Ok && r->Ok_0@ == with_found(
                    self@,
                    hash@,
                    match preimage {
                        Some(bytes) => Some(bytes@),
                        None => None,
                    },
                ),
                Err(error) => r is Err && r->Err_0@ == crate::storage::ErrorView::Batch(
                    "Failed to get preimage for hash "@ + crate::text::hex(hash@) + ": "@
                        + crate::storage::error_text(error@),
                ),
            },
    {
        proof {
            use_type_invariant(&self);
        }
        match looked {
            Err(error) => {
                let mut text = joined(
                    "Failed to get preimage for hash ",
                    hex_text(hash.as_slice()).as_str(),
                );
                text.append(": ");
                text.append(error.message().as_str());
                Err(ExternalStorageError::BatchError(text))
            },
            Ok(None) => Ok(self),
            Ok(Some(bytes)) => {
                let mut found: Vec<(B256, Vec<u8>)> = self.found;
                let ghost before = found@;
                match position(&found, hash) {
                    Some(i) => {
                        proof {
                            lemma_preimage_map_update(before, i as int, bytes);
                            assert(before[i as int].0 =~= *hash);
                        }
                        found.set(i, (*hash, bytes));
                    },
                    None => {
                        found.push((*hash, bytes));
                        assert(found@.drop_last() =~= before);
                    },
                }
                Ok(FoundPreimages { found })
            },
        }
    }
}

/// DynamoDB implementation of the store: what is sent to the service and what is made of its
/// answers.
#[derive(Debug, PartialEq, Eq)]
pub struct DynamoDbPreimageStore {
    table_name: String,
    block_index_name: String,
}

/// The contents of a [`DynamoDbPreimageStore`].
pub struct DynamoDbStoreView {
    pub table_name: Seq<char>,
    pub block_index_name: Seq<char>,
}

impl View for DynamoDbPreimageStore {
    type V = DynamoDbStoreView;

    closed spec fn view(&self) -> DynamoDbStoreView {
        DynamoDbStoreView {
            table_name: self.table_name@,
            block_index_name: self.block_index_name@,
        }
    }
}

/// The preimage in the first item that a query gave, by the `data` attribute of each item.
pub open spec fn first_preimage(items: Option<Seq<Option<AttributeValue>>>) -> Result<
    Option<Seq<u8>>,
    crate::storage::ErrorView,
> {
    if items is Some && items->0.len() > 0 && items->0[0] is Some {
        match attribute_bytes(items->0[0]->0) {
            Some(bytes) => Ok(Some(bytes)),
            None => Err(crate::storage::ErrorView::Serialization("Expected binary attribute"@)),
        }
    } else {
        Ok(None)
    }
}

/// The contents of the attributes that a query gave.
pub open spec fn items_view(items: Option<Vec<Option<AttributeValue>>>) -> Option<
    Seq<Option<AttributeValue>>,
> {
    match items {
        Some(list) => Some(list@),
        None => None,
    }
}

impl DynamoDbPreimageStore {
    /// A new store with the given configuration.
    pub fn new(config: &DynamoDbConfig) -> (r: Self)
        ensures
            r@.table_name == config.branch_table_name@,
            r@.block_index_name == "hash_index"@,
    {
        Self {
            table_name: config.branch_table_name.clone(),
            block_index_name: "hash_index".to_owned(),
        }
    }

    /// The name of the table.
    pub fn table_name(&self) -> (r: &str)
        ensures
            r@ == self@.table_name,
    {
        self.table_name.as_str()
    }

    /// The name of the index by hash.
    pub fn block_index_name(&self) -> (r: &str)
        ensures
            r@ == self@.block_index_name,
    {
        self.block_index_name.as_str()
    }

    /// What the service said to a step, with the error that its failure is reported as.
    pub fn checked<T>(step: DynamoDbStep, outcome: Result<T, String>) -> (r: ExternalStorageResult<
        T,
    >)
        ensures
            match outcome {
                Ok(value) => r is Ok && r->Ok_0 == value,
                Err(detail) => r is Err && r->Err_0@ == step_error(step, detail@),
            },
    {
        match outcome {
            Ok(value) => Ok(value),
            Err(detail) => Err(
                match step {
                    DynamoDbStep::Put => ExternalStorageError::StorageError(
                        joined("Failed to store preimage: ", detail.as_str()),
                    ),
                    DynamoDbStep::BuildPut => ExternalStorageError::StorageError(
                        joined("Failed to build put request: ", detail.as_str()),
                    ),
                    DynamoDbStep::BatchWrite => ExternalStorageError::BatchError(
                        joined("Failed to batch write preimages: ", detail.as_str()),
                    ),
                    DynamoDbStep::Get => ExternalStorageError::StorageError(
                        joined("Failed to get preimage: ", detail.as_str()),
                    ),
                    DynamoDbStep::Exists => ExternalStorageError::StorageError(
                        joined("Failed to check existence: ", detail.as_str()),
                    ),
                    DynamoDbStep::PruneScan => ExternalStorageError::StorageError(
                        joined("Failed to scan for pruning: ", detail.as_str()),
                    ),
                    DynamoDbStep::BuildDelete => ExternalStorageError::StorageError(
                        joined("Failed to build delete request: ", detail.as_str()),
                    ),
                    DynamoDbStep::BatchDelete => ExternalStorageError::BatchError(
                        joined("Failed to batch delete items: ", detail.as_str()),
                    ),
                    DynamoDbStep::Count => ExternalStorageError::StorageError(
                        joined("Failed to count preimages for block: ", detail.as_str()),
                    ),
                    DynamoDbStep::Hashes => ExternalStorageError::StorageError(
                        joined("Failed to get hashes for block: ", detail.as_str()),
                    ),
                    DynamoDbStep::Describe => ExternalStorageError::ConnectionError(
                        joined("Health check failed: ", detail.as_str()),
                    ),
                },
            ),
        }
    }

    /// The bytes of an attribute.
    pub fn attribute_to_bytes(attribute: &AttributeValue) -> (r: ExternalStorageResult<Vec<u8>>)
        ensures
            *attribute matches AttributeValue::B(bytes) ==> r is Ok && r->Ok_0@ == bytes@,
            *attribute is Other ==> r is Err,
            match attribute_bytes(*attribute) {
                Some(bytes) => r is Ok && r->Ok_0@ == bytes,
                None => r is Err && r->Err_0@ == crate::storage::ErrorView::Serialization(
                    "Expected binary attribute"@,
                ),
            },
    {
        match attribute {
            AttributeValue::B(bytes) => Ok(copy_bytes(bytes.as_slice())),
            AttributeValue::Other => Err(
                ExternalStorageError::SerializationError("Expected binary attribute".to_owned()),
            ),
        }
    }

    /// The item that stores a preimage at a block.
    pub fn store_preimage(preimage: &HashedPreimage, block_number: u64) -> (r: PutItem)
        ensures
            r.data@ == preimage.preimage@,
            r.hash@ == preimage.hash@,
            r.block_number@ == crate::text::decimal(block_number as nat),
            preimage.hashed_address is None ==> r.full_path@ == crate::rlp::rlp_path(
                preimage.path@,
            ),
            preimage.hashed_address is Some ==> r.full_path@ == crate::rlp::rlp_hash(
                preimage.hashed_address->0@,
            ) + crate::rlp::rlp_path(preimage.path@),
            r@ == put_of(*preimage, block_number),
    {
        PutItem {
            full_path: full_path(&preimage.hashed_address, &preimage.path),
            hash: copy_bytes(preimage.hash.as_slice()),
            block_number: decimal_text(block_number),
            data: copy_bytes(preimage.preimage.as_slice()),
        }
    }

    /// The requests that store a batch: its items in order, as many to a request as one can
    /// write. An empty batch takes no request.
    pub fn store_preimages_batch(batch: &PreimageBatch) -> (r: Vec<Vec<PutItem>>)
        ensures
            requests_view(r@) == batch_requests(*batch),
    {
        let mut items: Vec<PutItem> = Vec::new();
        let mut i: usize = 0;
        while i < batch.items.len()
            invariant
                i <= batch.items@.len(),
                items@.len() == i,
                forall|j: int|
                    0 <= j < i ==> (#[trigger] items@[j])@ == put_of(
                        batch.items@[j],
                        batch.block_number,
                    ),
            decreases batch.items@.len() - i,
        {
            items.push(Self::store_preimage(&batch.items[i], batch.block_number));
            i += 1;
        }
        let ghost puts = items@;
        let requests = split_chunks(items, BATCH_SIZE);
        proof {
            lemma_chunks_map(puts, BATCH_SIZE as nat);
            assert(put_views(puts) =~= batch_puts(*batch));
            assert(requests_view(requests@) =~= crate::chunks::chunks(
                puts,
                BATCH_SIZE as nat,
            ).map_values(|piece: Seq<PutItem>| put_views(piece))) by {
                assert(crate::chunks::lists_view(requests@) == crate::chunks::chunks(
                    puts,
                    BATCH_SIZE as nat,
                ));
                assert forall|i: int| 0 <= i < requests@.len() implies put_views(requests@[i]@)
                    =~= put_views(crate::chunks::chunks(puts, BATCH_SIZE as nat)[i]) by {
                    assert(crate::chunks::lists_view(requests@)[i] == requests@[i]@);
                }
            }
        }
        requests
    }

    /// The preimage of a hash, from the `data` attributes of the items that a query for the
    /// hash gave.
    pub fn get_preimage(items: &Option<Vec<Option<AttributeValue>>>) -> (r: ExternalStorageResult<
        Option<Vec<u8>>,
    >)
        ensures
            *items is Some && items->0@.len() > 0 ==> match items->0@[0] {
                Some(AttributeValue::B(bytes)) => r matches Ok(Some(found)) && found@ == bytes@,
                Some(AttributeValue::Other) => r is Err && r->Err_0@
                    == crate::storage::ErrorView::Serialization("Expected binary attribute"@),
                None => r is Ok && r->Ok_0 is None,
            },
            *items is None || items->0@.len() == 0 ==> r is Ok && r->Ok_0 is None,
            match first_preimage(items_view(*items)) {
                Ok(Some(bytes)) => r is Ok && r->Ok_0 is Some && r->Ok_0->0@ == bytes,
                Ok(None) => r is Ok && r->Ok_0 is None,
                Err(error) => r is Err && r->Err_0@ == error,
            },
    {
        match items {
            Some(list) => {
                if list.len() > 0 {
                    match &list[0] {
                        Some(attribute) => match Self::attribute_to_bytes(attribute) {
                            Ok(bytes) => Ok(Some(bytes)),
                            Err(error) => Err(error),
                        },
                        None => Ok(None),
                    }
                } else {
                    Ok(None)
                }
            },
            None => Ok(None),
        }
    }

    /// Whether there is an item, by how many a query gave.
    pub fn preimage_exists(count: i32) -> (r: bool)
        ensures
            r == (count > 0),
    {
        count > 0
    }

    /// Puts the hashes that a page gave, by the `hash` attribute of each item, behind those of
    /// earlier pages. What is not bytes of the length of a hash is passed over.
    pub fn add_page_hashes(hashes: &mut Vec<B256>, page: &Vec<Option<AttributeValue>>)
        ensures
            crate::primitives::hashes_view(final(hashes)@) == crate::primitives::hashes_view(
                old(hashes)@,
            ) + page@.filter_map(hash_attribute()),
    {
        let ghost start = crate::primitives::hashes_view(hashes@);
        let ghost f = hash_attribute();
        let mut i: usize = 0;
        assert(page@.take(0).filter_map(f) =~= Seq::empty());
        while i < page.len()
            invariant
                i <= page@.len(),
                f == hash_attribute(),
                crate::primitives::hashes_view(hashes@) =~= start + page@.take(
                    i as int,
                ).filter_map(f),
            decreases page@.len() - i,
        {
            proof {
                page@.lemma_filter_map_take_succ(f, i as int);
            }
            let ghost before = crate::primitives::hashes_view(hashes@);
            if let Some(AttributeValue::B(bytes)) = &page[i] {
                if bytes.len() == 32 {
                    let hash = hash_from_bytes(bytes.as_slice());
                    hashes.push(hash);
                    assert(crate::primitives::hashes_view(hashes@) =~= before.push(bytes@));
                }
            }
            i += 1;
        }
        assert(page@.take(page@.len() as int) =~= page@);
    }

    /// Whether the table is well: whether there is one, and it is active.
    pub fn health_check(described: Result<Option<bool>, String>) -> (r: ExternalStorageResult<()>)
        ensures
            match described {
                Ok(Some(active)) => if active {
                    r is Ok
                } else {
                    r is Err && r->Err_0@ == crate::storage::ErrorView::Connection(
                        "Table is not active"@,
                    )
                },
                Ok(None) => r is Err && r->Err_0@ == crate::storage::ErrorView::Connection(
                    "Table not found"@,
                ),
                Err(detail) => r is Err && r->Err_0@ == step_error(DynamoDbStep::Describe, detail@),
            },
    {
        match Self::checked(DynamoDbStep::Describe, described) {
            Ok(Some(active)) => {
                if active {
                    Ok(())
                } else {
                    Err(ExternalStorageError::ConnectionError("Table is not active".to_owned()))
                }
            },
            Ok(None) => Err(ExternalStorageError::ConnectionError("Table not found".to_owned())),
            Err(error) => Err(error),
        }
    }
}

/// The contents of a list of items.
pub open spec fn put_views(items: Seq<PutItem>) -> Seq<PutView> {
    Seq::new(items.len(), |i: int| items[i]@)
}

/// The contents of a list of requests.
pub open spec fn requests_view(requests: Seq<Vec<PutItem>>) -> Seq<Seq<PutView>> {
    Seq::new(requests.len(), |i: int| put_views(requests[i]@))
}

/// The storing of a batch, request by request. A request that fails ends it.
#[derive(Debug)]
pub struct BatchWriteRun {
    requests: Vec<Vec<PutItem>>,
}

impl View for BatchWriteRun {
    type V = Seq<Seq<PutView>>;

    /// The requests that are not sent yet, in order.
    closed spec fn view(&self) -> Seq<Seq<PutView>> {
        requests_view(self.requests@)
    }
}

impl BatchWriteRun {
    /// Nothing was sent yet.
    pub fn start(batch: &PreimageBatch) -> (r: Self)
        ensures
            r@ == batch_requests(*batch),
    {
        Self { requests: DynamoDbPreimageStore::store_preimages_batch(batch) }
    }

    /// The request to send next, if any is left.
    pub fn request(&self) -> (r: Option<&Vec<PutItem>>)
        ensures
            r is None <==> self@.len() == 0,
            r is Some ==> put_views(r->0@) == self@[0],
    {
        if self.requests.len() > 0 {
            Some(&self.requests[0])
        } else {
            None
        }
    }

    /// The error for a request that could not be built. Nothing is sent after that.
    pub fn build_failed(self, detail: String) -> (r: ExternalStorageError)
        ensures
            r@ == step_error(DynamoDbStep::BuildPut, detail@),
    {
        ExternalStorageError::StorageError(joined("Failed to build put request: ", detail.as_str()))
    }

    /// Go on after the request was answered. If it failed, nothing is sent after it.
    pub fn sent(self, outcome: Result<(), String>) -> (r: ExternalStorageResult<Self>)
        requires
            self@.len() > 0,
        ensures
            match outcome {
                Ok(_) => r is Ok && r->Ok_0@ == self@.skip(1),
                Err(detail) => r is Err && r->Err_0@ == step_error(
                    DynamoDbStep::BatchWrite,
                    detail@,
                ),
            },
    {
        match DynamoDbPreimageStore::checked(DynamoDbStep::BatchWrite, outcome) {
            Ok(_) => {
                let mut requests = self.requests;
                let ghost before = requests@;
                requests.remove(0);
                assert(requests_view(requests@) =~= requests_view(before).skip(1));
                Ok(Self { requests })
            },
            Err(error) => Err(error),
        }
    }
}

/// The number of pieces of a list that is cut for requests.
proof fn lemma_request_count<T>(items: Seq<T>)
    ensures
        crate::chunks::chunks(items, BATCH_SIZE as nat).len() == (items.len() + BATCH_SIZE - 1)
            / BATCH_SIZE as int,
    decreases items.len(),
{
    if items.len() > BATCH_SIZE {
        lemma_request_count(items.skip(BATCH_SIZE as int));
    }
}

/// Storing a batch sends its requests in order and ends at the first that fails: if none fails,
/// all are sent, else those before it and it, and none after it. All requests together hold every
/// item of the batch once, in order, at the batch's block. None is empty and none is larger than
/// one can be, so that there are as many as it takes, and none for an empty batch.
pub proof fn law_batch_write_ends_at_failure(
    batch: PreimageBatch,
    outcomes: Seq<Option<Seq<char>>>,
)
    requires
        outcomes.len() >= batch_requests(batch).len(),
    ensures
        crate::steps::ends_at_failure(
            batch_requests(batch),
            outcomes,
            crate::steps::until_failure(batch_requests(batch), outcomes),
        ),
        batch_requests(batch).flatten() == batch_puts(batch),
        batch_requests(batch).len() == (batch.items@.len() + BATCH_SIZE - 1) / BATCH_SIZE as int,
        forall|i: int|
            0 <= i < batch_requests(batch).len() ==> 0 < (#[trigger] batch_requests(
                batch,
            )[i]).len() <= BATCH_SIZE,
{
    crate::steps::law_until_failure(batch_requests(batch), outcomes);
    crate::chunks::law_chunks(batch_puts(batch), BATCH_SIZE as nat);
    lemma_request_count(batch_puts(batch));
}

/// Cutting in pieces does not look at the items.
proof fn lemma_chunks_map(items: Seq<PutItem>, size: nat)
    requires
        size > 0,
    ensures
        crate::chunks::chunks(put_views(items), size) == crate::chunks::chunks(items, size).map_values(
            |piece: Seq<PutItem>| put_views(piece),
        ),
    decreases items.len(),
{
    let f = |piece: Seq<PutItem>| put_views(piece);
    if items.len() == 0 {
        assert(crate::chunks::chunks(put_views(items), size) =~= crate::chunks::chunks(items, size).map_values(f));
    } else if items.len() <= size {
        assert(crate::chunks::chunks(put_views(items), size) =~= crate::chunks::chunks(items, size).map_values(f));
    } else {
        lemma_chunks_map(items.skip(size as int), size);
        assert(put_views(items).skip(size as int) =~= put_views(items.skip(size as int)));
        assert(put_views(items).take(size as int) =~= put_views(items.take(size as int)));
        assert(crate::chunks::chunks(put_views(items), size) =~= crate::chunks::chunks(items, size).map_values(f));
    }
}

/// What a run over the pages of a scan does next. `K` is what the service has for where a page
/// ended.
#[derive(Debug)]
pub enum ScanStep<K, R> {
    /// Scan the next page, from where the last one ended, or from the start.
    Scan(Option<K>),
    /// The scan is over, with this result.
    Done(R),
}

/// The step after a page: the next one, if it did not end the scan.
pub open spec fn after_page<K, R>(last_evaluated_key: Option<K>, result: R) -> ScanStep<K, R> {
    match last_evaluated_key {
        Some(key) => ScanStep::Scan(Some(key)),
        None => ScanStep::Done(result),
    }
}

/// The count of a block's items, page by page.
#[derive(Debug)]
pub struct CountRun {
    block_number: u64,
    count: u64,
}

/// The contents of a [`CountRun`].
pub struct CountView {
    /// The block whose items are counted.
    pub block_number: u64,
    /// How many items were counted.
    pub count: u64,
}

impl View for CountRun {
    type V = CountView;

    closed spec fn view(&self) -> CountView {
        CountView { block_number: self.block_number, count: self.count }
    }
}

impl CountView {
    /// The run when a page was counted.
    pub open spec fn with_page(self, count: i32) -> CountView {
        CountView { count: (self.count + count) as u64, ..self }
    }
}

impl CountRun {
    /// Start the count of the items of a block. Nothing was counted yet.
    pub fn count_preimages_for_block(block_number: u64) -> (r: Self)
        ensures
            r@ == (CountView { block_number, count: 0 }),
    {
        Self { block_number, count: 0 }
    }

    /// What stands for `:block_number` in [`BLOCK_FILTER`]: the block in decimal digits.
    pub fn block_filter(&self) -> (r: String)
        ensures
            r@ == crate::text::decimal(self@.block_number as nat),
    {
        decimal_text(self.block_number)
    }

    /// How many items were counted.
    pub fn count(&self) -> (r: u64)
        ensures
            r == self@.count,
    {
        self.count
    }

    /// Go on after a page was counted, with its count and where it ended.
    pub fn counted<K>(self, page: Result<(i32, Option<K>), String>) -> (r: ExternalStorageResult<
        (Self, ScanStep<K, u64>),
    >)
        requires
            page matches Ok((count, _)) ==> count >= 0 && self@.count + count <= u64::MAX,
        ensures
            match page {
                Ok((count, last_evaluated_key)) => r is Ok && r->Ok_0.0@ == self@.with_page(count)
                    && r->Ok_0.1 == after_page(last_evaluated_key, self@.with_page(count).count),
                Err(detail) => r is Err && r->Err_0@ == step_error(DynamoDbStep::Count, detail@),
            },
    {
        match DynamoDbPreimageStore::checked(DynamoDbStep::Count, page) {
            Ok((count, last_evaluated_key)) => {
                let total: u64 = self.count + count as u64;
                let step = match last_evaluated_key {
                    Some(key) => ScanStep::Scan(Some(key)),
                    None => ScanStep::Done(total),
                };
                Ok((Self { block_number: self.block_number, count: total }, step))
            },
            Err(error) => Err(error),
        }
    }
}

/// The hashes of a block's items, page by page.
#[derive(Debug)]
pub struct HashesRun {
    block_number: u64,
    hashes: Vec<B256>,
}

/// The contents of a [`HashesRun`].
#[verifier::ext_equal]
pub struct HashesView {
    /// The block whose items are scanned for.
    pub block_number: u64,
    /// The hashes that were found, in order.
    pub hashes: Seq<Seq<u8>>,
}

impl View for HashesRun {
    type V = HashesView;

    closed spec fn view(&self) -> HashesView {
        HashesView {
            block_number: self.block_number,
            hashes: crate::primitives::hashes_view(self.hashes@),
        }
    }
}

impl HashesView {
    /// The run when a page was scanned.
    pub open spec fn with_page(self, attributes: Seq<Option<AttributeValue>>) -> HashesView {
        HashesView { hashes: self.hashes + attributes.filter_map(hash_attribute()), ..self }
    }
}

impl HashesRun {
    /// Start the scan for the items of a block. None was found yet.
    pub fn get_hashes_for_block(block_number: u64) -> (r: Self)
        ensures
            r@ == (HashesView { block_number, hashes: Seq::empty() }),
    {
        assert(crate::primitives::hashes_view(Seq::empty()) =~= Seq::empty());
        Self { block_number, hashes: Vec::new() }
    }

    /// What stands for `:block_number` in [`BLOCK_FILTER`]: the block in decimal digits.
    pub fn block_filter(&self) -> (r: String)
        ensures
            r@ == crate::text::decimal(self@.block_number as nat),
    {
        decimal_text(self.block_number)
    }

    /// The hashes, in the order in which they were found.
    pub fn into_hashes(self) -> (r: Vec<B256>)
        ensures
            crate::primitives::hashes_view(r@) == self@.hashes,
    {
        self.hashes
    }

    /// Go on after a page was scanned, with the `hash` attribute of each item and where it
    /// ended. What is not bytes of the length of a hash is passed over.
    pub fn scanned<K>(
        self,
        page: Result<(Vec<Option<AttributeValue>>, Option<K>), String>,
    ) -> (r: ExternalStorageResult<(Self, ScanStep<K, ()>)>)
        ensures
            match page {
                Ok((attributes, last_evaluated_key)) => r is Ok && r->Ok_0.0@ == self@.with_page(
                    attributes@,
                ) && r->Ok_0.1 == after_page(last_evaluated_key, ()),
                Err(detail) => r is Err && r->Err_0@ == step_error(DynamoDbStep::Hashes, detail@),
            },
    {
        match DynamoDbPreimageStore::checked(DynamoDbStep::Hashes, page) {
            Ok((attributes, last_evaluated_key)) => {
                let mut hashes = self.hashes;
                DynamoDbPreimageStore::add_page_hashes(&mut hashes, &attributes);
                let step = match last_evaluated_key {
                    Some(key) => ScanStep::Scan(Some(key)),
                    None => ScanStep::Done(()),
                };
                Ok((Self { block_number: self.block_number, hashes }, step))
            },
            Err(error) => Err(error),
        }
    }
}

/// The sum of the counts of pages.
pub open spec fn page_sum(counts: Seq<i32>) -> int
    decreases counts.len(),
{
    if counts.len() == 0 {
        0
    } else {
        page_sum(counts.drop_last()) + counts.last()
    }
}

/// A count after pages.
pub open spec fn counted_over(run: CountView, counts: Seq<i32>) -> CountView
    decreases counts.len(),
{
    if counts.len() == 0 {
        run
    } else {
        counted_over(run, counts.drop_last()).with_page(counts.last())
    }
}

/// Over all pages the count of a block is the sum of what the pages count.
pub proof fn law_count_is_the_sum(block_number: u64, counts: Seq<i32>)
    requires
        forall|i: int| 0 <= i < counts.len() ==> #[trigger] counts[i] >= 0,
        page_sum(counts) <= u64::MAX,
    ensures
        counted_over(CountView { block_number, count: 0 }, counts) == (CountView {
            block_number,
            count: page_sum(counts) as u64,
        }),
        page_sum(counts) >= 0,
    decreases counts.len(),
{
    if counts.len() > 0 {
        let front = counts.drop_last();
        assert(counts.last() == counts[counts.len() - 1]);
        assert forall|i: int| 0 <= i < front.len() implies #[trigger] front[i] >= 0 by {
            assert(front[i] == counts[i]);
        }
        law_count_is_the_sum(block_number, front);
    }
}

/// The hashes found after pages.
pub open spec fn found_over(
    run: HashesView,
    pages: Seq<Seq<Option<AttributeValue>>>,
) -> HashesView
    decreases pages.len(),
{
    if pages.len() == 0 {
        run
    } else {
        found_over(run, pages.drop_last()).with_page(pages.last())
    }
}

/// Over all pages the hashes of a block are those of all items, in order, without what is no
/// hash.
pub proof fn law_hashes_of_all_pages(
    block_number: u64,
    pages: Seq<Seq<Option<AttributeValue>>>,
)
    ensures
        found_over(HashesView { block_number, hashes: Seq::empty() }, pages) == (HashesView {
            block_number,
            hashes: pages.flatten().filter_map(hash_attribute()),
        }),
    decreases pages.len(),
{
    let f = hash_attribute();
    if pages.len() == 0 {
        assert(pages.flatten() =~= Seq::empty());
        assert(pages.flatten().filter_map(f) =~= Seq::empty());
    } else {
        let front = pages.drop_last();
        law_hashes_of_all_pages(block_number, front);
        assert(pages =~= front.push(pages.last()));
        front.lemma_flatten_push(pages.last());
        crate::prune::lemma_filter_map_add(front.flatten(), pages.last(), f);
    }
}

/// Different paths or tries have different full paths.
pub proof fn law_full_path_injective(
    hashed_address: Option<Seq<u8>>,
    path: Seq<u8>,
    other_address: Option<Seq<u8>>,
    other_path: Seq<u8>,
)
    requires
        crate::key::valid_address(hashed_address),
        crate::key::valid_address(other_address),
        crate::primitives::valid_path(path),
        crate::primitives::valid_path(other_path),
        full_path_bytes(hashed_address, path) == full_path_bytes(other_address, other_path),
    ensures
        hashed_address == other_address,
        path == other_path,
{
    let bytes = full_path_bytes(hashed_address, path);
    assert(crate::rlp::rlp_path(path)[0] >= 0xc0);
    assert(crate::rlp::rlp_path(other_path)[0] >= 0xc0);
    match (hashed_address, other_address) {
        (Some(a), Some(b)) => {
            assert(bytes.subrange(1, 33) =~= a);
            assert(bytes.subrange(1, 33) =~= b);
            assert(bytes.skip(33) =~= crate::rlp::rlp_path(path));
            assert(bytes.skip(33) =~= crate::rlp::rlp_path(other_path));
        },
        (Some(a), None) => {
            assert(bytes[0] == 0xa0);
        },
        (None, Some(b)) => {
            assert(bytes[0] == 0xa0);
        },
        (None, None) => {},
    }
    crate::rlp::law_rlp_path_injective(path, other_path);
}

impl Clone for DynamoDbPreimageStore {
    fn clone(&self) -> (r: Self)
        ensures
            r@ == self@,
    {
        Self {
            table_name: self.table_name.clone(),
            block_index_name: self.block_index_name.clone(),
        }
    }
}

/// An item holds what was given to store: all bytes of the preimage, its hash, its block and where
/// it stands.
pub proof fn law_item_holds_preimage(preimage: HashedPreimage, block_number: u64, item: PutItem)
    requires
        item@ == put_of(preimage, block_number),
    ensures
        item.data@ == preimage.preimage@,
        item.hash@ == preimage.hash@,
        item.block_number@ == crate::text::decimal(block_number as nat),
        item.full_path@ == (match preimage.hashed_address {
            Some(address) => crate::rlp::rlp_hash(address@) + crate::rlp::rlp_path(
                preimage.path@,
            ),
            None => crate::rlp::rlp_path(preimage.path@),
        }),
{
}

/// A preimage that was stored is read back as it was stored: if the first item that a query gives
/// has the data of the item that stores a preimage, reading gives the preimage, all of it.
pub proof fn law_stored_preimage_is_read(
    preimage: HashedPreimage,
    block_number: u64,
    item: PutItem,
    items: Vec<Option<AttributeValue>>,
)
    requires
        item@ == put_of(preimage, block_number),
        items@.len() > 0,
        items@[0] == Some(AttributeValue::B(item.data)),
    ensures
        first_preimage(items_view(Some(items))) == Ok::<_, crate::storage::ErrorView>(
            Some(preimage.preimage@),
        ),
{
}

/// What a query gave for a hash is read by the first item: its bytes, nothing if it has no data,
/// and an error if its data is something else. Without an item there is nothing.
pub proof fn law_first_item_is_read(items: Vec<Option<AttributeValue>>, bytes: Vec<u8>)
    ensures
        first_preimage(items_view(None)) == Ok::<Option<Seq<u8>>, crate::storage::ErrorView>(None),
        items@.len() == 0 ==> first_preimage(items_view(Some(items))) == Ok::<
            Option<Seq<u8>>,
            crate::storage::ErrorView,
        >(None),
        items@.len() > 0 && items@[0] is None ==> first_preimage(items_view(Some(items))) == Ok::<
            Option<Seq<u8>>,
            crate::storage::ErrorView,
        >(None),
        items@.len() > 0 && items@[0] == Some(AttributeValue::Other) ==> first_preimage(
            items_view(Some(items)),
        ) == Err::<Option<Seq<u8>>, crate::storage::ErrorView>(
            crate::storage::ErrorView::Serialization("Expected binary attribute"@),
        ),
        items@.len() > 0 && items@[0] == Some(AttributeValue::B(bytes)) ==> first_preimage(
            items_view(Some(items)),
        ) == Ok::<_, crate::storage::ErrorView>(Some(bytes@)),
        attribute_bytes(AttributeValue::B(bytes)) == Some(bytes@),
        attribute_bytes(AttributeValue::Other) is None,
{
}

/// The items of a batch hold what was given to store, each at its place, all at the batch's block.
/// They are sent in requests of twenty-five, the last of which may be shorter.
pub proof fn law_batch_items_hold_preimages(batch: PreimageBatch)
    ensures
        batch_puts(batch).len() == batch.items@.len(),
        forall|i: int|
            #![trigger batch_puts(batch)[i]]
            0 <= i < batch.items@.len() ==> {
                &&& batch_puts(batch)[i].data == batch.items@[i].preimage@
                &&& batch_puts(batch)[i].hash == batch.items@[i].hash@
                &&& batch_puts(batch)[i].block_number == crate::text::decimal(
                    batch.block_number as nat,
                )
                &&& batch_puts(batch)[i].full_path == (match batch.items@[i].hashed_address {
                    Some(address) => crate::rlp::rlp_hash(address@) + crate::rlp::rlp_path(
                        batch.items@[i].path@,
                    ),
                    None => crate::rlp::rlp_path(batch.items@[i].path@),
                })
            },
        batch_requests(batch).flatten() == batch_puts(batch),
        forall|i: int|
            0 <= i < batch_requests(batch).len() - 1 ==> (#[trigger] batch_requests(
                batch,
            )[i]).len() == 25,
        batch_requests(batch).len() > 0 ==> 0 < batch_requests(batch).last().len() <= 25,
{
    crate::chunks::law_chunks(batch_puts(batch), BATCH_SIZE as nat);
}

/// The contents of requests are those of their items, in order.
pub proof fn law_request_contents(item: PutItem, requests: Seq<Vec<PutItem>>)
    ensures
        item@.data == item.data@,
        item@.hash == item.hash@,
        item@.full_path == item.full_path@,
        item@.block_number == item.block_number@,
        requests_view(requests).len() == requests.len(),
        forall|i: int|
            #![trigger requests_view(requests)[i]]
            0 <= i < requests.len() ==> requests_view(requests)[i].len() == requests[i]@.len(),
        forall|i: int, j: int|
            #![trigger requests_view(requests)[i][j]]
            0 <= i < requests.len() && 0 <= j < requests[i]@.len() ==> requests_view(
                requests,
            )[i][j] == requests[i]@[j]@,
{
}

/// A scan takes bytes of the length of a hash for one, and nothing else.
pub proof fn law_which_attributes_are_hashes(bytes: Vec<u8>)
    ensures
        bytes@.len() == 32 ==> hash_attribute()(Some(AttributeValue::B(bytes))) == Some(bytes@),
        bytes@.len() != 32 ==> hash_attribute()(Some(AttributeValue::B(bytes))) is None,
        hash_attribute()(Some(AttributeValue::Other)) is None,
        hash_attribute()(None) is None,
{
}

/// What is found for a hash is kept for it, in the place of what was, and changes nothing for
/// other hashes. What is not found changes nothing.
pub proof fn law_found_is_kept(
    found: Map<Seq<u8>, Seq<u8>>,
    hash: Seq<u8>,
    bytes: Seq<u8>,
    other: Seq<u8>,
)
    ensures
        with_found(found, hash, None) == found,
        with_found(found, hash, Some(bytes)).contains_key(hash),
        with_found(found, hash, Some(bytes))[hash] == bytes,
        other != hash ==> with_found(found, hash, Some(bytes)).contains_key(other)
            == found.contains_key(other),
        other != hash && found.contains_key(other) ==> with_found(found, hash, Some(bytes))[other]
            == found[other],
{
}

/// The preimages in a list without repeated hashes are those that it holds, each by its hash.
pub proof fn law_found_by_hash(found: Seq<(B256, Vec<u8>)>, hash: Seq<u8>)
    requires
        forall|i: int, j: int|
            0 <= i < j < found.len() ==> (#[trigger] found[i]).0@ != (#[trigger] found[j]).0@,
    ensures
        distinct_hashes(found),
        preimage_map(found).contains_key(hash) <==> exists|i: int|
            0 <= i < found.len() && (#[trigger] found[i]).0@ == hash,
        forall|i: int|
            0 <= i < found.len() && (#[trigger] found[i]).0@ == hash ==> preimage_map(found)[hash]
                == found[i].1@,
    decreases found.len(),
{
    if found.len() > 0 {
        let front = found.drop_last();
        let last = found.len() - 1;
        assert(found[last] == found.last());
        assert forall|i: int, j: int| 0 <= i < j < front.len() implies (#[trigger] front[i]).0@ != (
        #[trigger] front[j]).0@ by {
            assert(front[i] == found[i] && front[j] == found[j]);
        }
        law_found_by_hash(front, hash);
        if preimage_map(front).contains_key(hash) {
            let i = choose|i: int| 0 <= i < front.len() && (#[trigger] front[i]).0@ == hash;
            assert(found[i] == front[i]);
        }
        assert forall|i: int| 0 <= i < found.len() && (#[trigger] found[i]).0@ == hash implies {
            &&& preimage_map(found)[hash] == found[i].1@
            &&& preimage_map(found).contains_key(hash)
        } by {
            if i < last {
                assert(front[i] == found[i]);
                assert(found[i].0@ != found[last].0@);
            }
        }
    }
}

/// After a page a scan goes on where the page ended, or is over if it ended nowhere. A count grows
/// by what the page counts, and the hashes by those of the page, behind the others.
pub proof fn law_after_a_page<K, R>(
    key: K,
    result: R,
    run: CountView,
    count: i32,
    hashes: HashesView,
    attributes: Seq<Option<AttributeValue>>,
)
    requires
        0 <= run.count + count <= u64::MAX,
    ensures
        after_page(Some(key), result) == ScanStep::<K, R>::Scan(Some(key)),
        after_page(None::<K>, result) == ScanStep::<K, R>::Done(result),
        run.with_page(count).count == run.count + count,
        run.with_page(count).block_number == run.block_number,
        hashes.with_page(attributes).block_number == hashes.block_number,
        hashes.with_page(attributes).hashes.len() >= hashes.hashes.len(),
        hashes.with_page(attributes).hashes.take(hashes.hashes.len() as int) == hashes.hashes,
        hashes.with_page(attributes).hashes.skip(hashes.hashes.len() as int)
            == attributes.filter_map(hash_attribute()),
{
}

/// The counts of pages are added up.
pub proof fn law_page_counts_add_up(counts: Seq<i32>, count: i32)
    ensures
        page_sum(Seq::empty()) == 0,
        page_sum(counts.push(count)) == page_sum(counts) + count,
{
    assert(counts.push(count).drop_last() =~= counts);
}

/// What is said of a step that failed, and what a scan for a block asks for.
pub proof fn law_service_texts(detail: Seq<char>)
    ensures
        crate::storage::error_text(step_error(DynamoDbStep::Put, detail)) == "Storage operation failed: "@ + ("Failed to store preimage: "@
            + detail),
        crate::storage::error_text(step_error(DynamoDbStep::BuildPut, detail)) == "Storage operation failed: "@ + ("Failed to build put request: "@
            + detail),
        crate::storage::error_text(step_error(DynamoDbStep::BatchWrite, detail)) == "Batch operation failed: "@ + ("Failed to batch write preimages: "@
            + detail),
        crate::storage::error_text(step_error(DynamoDbStep::Get, detail)) == "Storage operation failed: "@ + ("Failed to get preimage: "@
            + detail),
        crate::storage::error_text(step_error(DynamoDbStep::Exists, detail)) == "Storage operation failed: "@ + ("Failed to check existence: "@
            + detail),
        crate::storage::error_text(step_error(DynamoDbStep::PruneScan, detail)) == "Storage operation failed: "@ + ("Failed to scan for pruning: "@
            + detail),
        crate::storage::error_text(step_error(DynamoDbStep::BuildDelete, detail)) == "Storage operation failed: "@ + ("Failed to build delete request: "@
            + detail),
        crate::storage::error_text(step_error(DynamoDbStep::BatchDelete, detail)) == "Batch operation failed: "@ + ("Failed to batch delete items: "@
            + detail),
        crate::storage::error_text(step_error(DynamoDbStep::Count, detail)) == "Storage operation failed: "@ + ("Failed to count preimages for block: "@
            + detail),
        crate::storage::error_text(step_error(DynamoDbStep::Hashes, detail)) == "Storage operation failed: "@ + ("Failed to get hashes for block: "@
            + detail),
        crate::storage::error_text(step_error(DynamoDbStep::Describe, detail)) == "Connection error: "@ + ("Health check failed: "@
            + detail),
        BLOCK_FILTER@ == "block_number = :block_number"@,
        BATCH_SIZE == 25,
{
}

} // verus!

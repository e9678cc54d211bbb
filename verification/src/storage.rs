//! What is stored, how storing can fail, and what a store offers.
use vstd::prelude::*;

use crate::branch::BranchNodeCompact;
use crate::primitives::{Nibbles, B256, U256};
use crate::text::{joined, shown_hash_text};

verus! {

/// One branch of a trie at one block, or the mark that it was deleted there.
#[derive(Debug, PartialEq, Eq)]
pub struct PreimageEntry {
    pub block_number: u64,
    pub path: Nibbles,
    /// The account whose storage trie this is of, or `None` for the state trie.
    pub hashed_address: Option<B256>,
    /// The branch, or `None` if it was deleted.
    pub branch: Option<BranchNodeCompact>,
}

/// The contents of a [`PreimageEntry`].
#[verifier::ext_equal]
pub struct EntryView {
    pub block_number: u64,
    pub path: Seq<u8>,
    pub hashed_address: Option<Seq<u8>>,
    pub branch: Option<crate::branch::BranchView>,
}

impl View for PreimageEntry {
    type V = EntryView;

    open spec fn view(&self) -> EntryView {
        EntryView {
            block_number: self.block_number,
            path: self.path@,
            hashed_address: crate::primitives::hash_view(self.hashed_address),
            branch: crate::branch::branch_view(self.branch),
        }
    }
}

/// The contents of a list of entries.
pub open spec fn entries_view(items: Seq<PreimageEntry>) -> Seq<EntryView> {
    Seq::new(items.len(), |i: int| items[i]@)
}

/// Batch of preimages to be stored together.
#[derive(Debug, PartialEq, Eq)]
pub struct TrieBranchesBatch {
    /// Block number for all items in this batch.
    pub block_number: u64,
    /// The branches, in the order in which they are stored.
    pub items: Vec<PreimageEntry>,
}

impl TrieBranchesBatch {
    /// Create a new empty batch for a specific block.
    pub fn new(block_number: u64) -> (r: Self)
        ensures
            r.block_number == block_number,
            r.items@ == Seq::<PreimageEntry>::empty(),
    {
        Self { block_number, items: Vec::new() }
    }

    /// Whether each item is of the batch's own block.
    pub open spec fn wf(self) -> bool {
        forall|i: int|
            0 <= i < self.items@.len() ==> (#[trigger] self.items@[i]).block_number
                == self.block_number
    }
}

/// What a batch stores: its items in order, all at the batch's block.
pub open spec fn batch_entries(batch: TrieBranchesBatch) -> Seq<EntryView> {
    Seq::new(
        batch.items@.len(),
        |i: int| EntryView { block_number: batch.block_number, ..batch.items@[i]@ },
    )
}

/// A batch whose items are of its own block stores the items as they are.
pub proof fn law_batch_entries(batch: TrieBranchesBatch)
    requires
        batch.wf(),
    ensures
        batch_entries(batch) == entries_view(batch.items@),
{
    assert(batch_entries(batch) =~= entries_view(batch.items@));
}

/// Error types for preimage storage operations.
#[derive(Debug, PartialEq, Eq)]
pub enum ExternalStorageError {
    StorageError(String),
    SerializationError(String),
    NotFound(B256),
    BatchError(String),
    ConnectionError(String),
    TableCreationError(String),
}

/// The contents of an [`ExternalStorageError`].
pub enum ErrorView {
    Storage(Seq<char>),
    Serialization(Seq<char>),
    NotFound(Seq<u8>),
    Batch(Seq<char>),
    Connection(Seq<char>),
    TableCreation(Seq<char>),
}

impl View for ExternalStorageError {
    type V = ErrorView;

    open spec fn view(&self) -> ErrorView {
        match *self {
            ExternalStorageError::StorageError(detail) => ErrorView::Storage(detail@),
            ExternalStorageError::SerializationError(detail) => ErrorView::Serialization(detail@),
            ExternalStorageError::NotFound(hash) => ErrorView::NotFound(hash@),
            ExternalStorageError::BatchError(detail) => ErrorView::Batch(detail@),
            ExternalStorageError::ConnectionError(detail) => ErrorView::Connection(detail@),
            ExternalStorageError::TableCreationError(detail) => ErrorView::TableCreation(detail@),
        }
    }
}

/// The text of an error.
pub open spec fn error_text(error: ErrorView) -> Seq<char> {
    match error {
        ErrorView::Storage(detail) => "Storage operation failed: "@ + detail,
        ErrorView::Serialization(detail) => "Serialization error: "@ + detail,
        ErrorView::NotFound(hash) => "Preimage not found: "@ + crate::text::shown_hash(hash),
        ErrorView::Batch(detail) => "Batch operation failed: "@ + detail,
        ErrorView::Connection(detail) => "Connection error: "@ + detail,
        ErrorView::TableCreation(detail) => "Table creation error: "@ + detail,
    }
}

/// An error of the database that proofs are computed over.
#[derive(Debug, PartialEq, Eq)]
pub enum DatabaseError {
    Other(String),
}

impl View for DatabaseError {
    type V = Seq<char>;

    open spec fn view(&self) -> Seq<char> {
        match *self {
            DatabaseError::Other(text) => text@,
        }
    }
}

impl ExternalStorageError {
    /// The text of this error.
    pub fn message(&self) -> (r: String)
        ensures
            match *self {
                ExternalStorageError::StorageError(detail) => r@ == "Storage operation failed: "@
                    + detail@,
                ExternalStorageError::SerializationError(detail) => r@ == "Serialization error: "@
                    + detail@,
                ExternalStorageError::NotFound(hash) => r@ == "Preimage not found: "@ + "0x"@
                    + crate::text::hex(hash@),
                ExternalStorageError::BatchError(detail) => r@ == "Batch operation failed: "@
                    + detail@,
                ExternalStorageError::ConnectionError(detail) => r@ == "Connection error: "@
                    + detail@,
                ExternalStorageError::TableCreationError(detail) => r@ == "Table creation error: "@
                    + detail@,
            },
            r@ == error_text(self@),
    {
        match self {
            ExternalStorageError::StorageError(detail) => joined(
                "Storage operation failed: ",
                detail.as_str(),
            ),
            ExternalStorageError::SerializationError(detail) => joined(
                "Serialization error: ",
                detail.as_str(),
            ),
            ExternalStorageError::NotFound(hash) => joined(
                "Preimage not found: ",
                shown_hash_text(hash.as_slice()).as_str(),
            ),
            ExternalStorageError::BatchError(detail) => joined(
                "Batch operation failed: ",
                detail.as_str(),
            ),
            ExternalStorageError::ConnectionError(detail) => joined(
                "Connection error: ",
                detail.as_str(),
            ),
            ExternalStorageError::TableCreationError(detail) => joined(
                "Table creation error: ",
                detail.as_str(),
            ),
        }
    }

    /// This error as one of the database: its text.
    pub fn into(self) -> (r: DatabaseError)
        ensures
            match self {
                ExternalStorageError::StorageError(detail) => r@ == "Storage operation failed: "@
                    + detail@,
                ExternalStorageError::SerializationError(detail) => r@ == "Serialization error: "@
                    + detail@,
                ExternalStorageError::NotFound(hash) => r@ == "Preimage not found: "@ + "0x"@
                    + crate::text::hex(hash@),
                ExternalStorageError::BatchError(detail) => r@ == "Batch operation failed: "@
                    + detail@,
                ExternalStorageError::ConnectionError(detail) => r@ == "Connection error: "@
                    + detail@,
                ExternalStorageError::TableCreationError(detail) => r@ == "Table creation error: "@
                    + detail@,
            },
            r@ == error_text(self@),
    {
        DatabaseError::Other(self.message())
    }
}

/// Result type for storage operations.
pub type ExternalStorageResult<T> = Result<T, ExternalStorageError>;

/// What a read of a branch gives: a path and the branch there, nothing, or an error.
pub type BranchRead = ExternalStorageResult<Option<(Nibbles, BranchNodeCompact)>>;

/// The contents of a [`BranchRead`].
pub type ReadView = Result<Option<(Seq<u8>, crate::branch::BranchView)>, ErrorView>;

/// The contents of a path with its branch.
pub open spec fn found_view(found: Option<(Nibbles, BranchNodeCompact)>) -> Option<
    (Seq<u8>, crate::branch::BranchView),
> {
    match found {
        Some((path, branch)) => Some((path@, branch@)),
        None => None,
    }
}

/// The contents of what a read of a branch gives.
pub open spec fn read_view(read: BranchRead) -> ReadView {
    match read {
        Ok(found) => Ok(found_view(found)),
        Err(error) => Err(error@),
    }
}

/// The state of an account.
#[derive(Debug, Clone, Copy, PartialEq, Eq)]
pub struct Account {
    pub nonce: u64,
    pub balance: U256,
    pub bytecode_hash: Option<B256>,
}

/// A slot of an account's storage, by hashed key.
#[derive(Debug, Clone, Copy, PartialEq, Eq)]
pub struct StorageEntry {
    pub key: B256,
    pub value: U256,
}

/// A cursor over one trie. What it reads is up to the store: each `_outcome` is the
/// relation between the cursor before a call, what was asked, the cursor after it and
/// what came back. A store that says nothing of it may give anything back.
pub trait ExternalTrieCursor: Sized {
    open spec fn seek_exact_outcome(before: Self, path: Seq<u8>, after: Self, read: BranchRead) -> bool {
        true
    }

    open spec fn seek_outcome(before: Self, path: Seq<u8>, after: Self, read: BranchRead) -> bool {
        true
    }

    open spec fn next_outcome(before: Self, after: Self, read: BranchRead) -> bool {
        true
    }

    open spec fn current_outcome(
        before: Self,
        after: Self,
        read: ExternalStorageResult<Option<Nibbles>>,
    ) -> bool {
        true
    }

    /// Read the branch at exactly this path.
    fn seek_exact(&mut self, path: Nibbles) -> (r: BranchRead)
        ensures
            Self::seek_exact_outcome(*old(self), path@, *final(self), r),
    ;

    /// Read the first branch at this path or after it.
    fn seek(&mut self, path: Nibbles) -> (r: BranchRead)
        ensures
            Self::seek_outcome(*old(self), path@, *final(self), r),
    ;

    /// Read the first branch after the current path.
    fn next(&mut self) -> (r: BranchRead)
        ensures
            Self::next_outcome(*old(self), *final(self), r),
    ;

    /// The path of the branch that was read last.
    fn current(&mut self) -> (r: ExternalStorageResult<Option<Nibbles>>)
        ensures
            Self::current_outcome(*old(self), *final(self), r),
    ;
}

/// Whether `found` is the first of `entries` after `key`, or at it if `inclusive`: no entry is
/// between, and there is nothing where there is none.
pub open spec fn is_first_from<Value>(
    entries: Map<Seq<u8>, Value>,
    key: Seq<u8>,
    inclusive: bool,
    found: Option<(B256, Value)>,
) -> bool {
    match found {
        Some((at, value)) => {
            &&& entries.contains_key(at@)
            &&& entries[at@] == value
            &&& crate::table::beyond(key, inclusive, at@)
            &&& forall|other: Seq<u8>| #[trigger]
                entries.contains_key(other) && crate::table::beyond(key, inclusive, other)
                    ==> crate::order::lex_le(at@, other)
        },
        None => forall|other: Seq<u8>| #[trigger]
            entries.contains_key(other) ==> !crate::table::beyond(key, inclusive, other),
    }
}

/// A cursor over leaves by hashed key. A read that succeeds goes by the leaves that the cursor is
/// over, and leaves them as they are. What else there is to a read, as when it fails, is up to the
/// store: each `_outcome` is as in [`ExternalTrieCursor`].
pub trait ExternalHashedCursor: Sized {
    /// Value returned by the cursor.
    type Value;

    /// The leaves that the cursor is over.
    open spec fn entries(self) -> Map<Seq<u8>, Self::Value> {
        arbitrary()
    }

    /// The key at which the cursor is, if it is at one.
    open spec fn position(self) -> Option<Seq<u8>> {
        arbitrary()
    }

    open spec fn seek_outcome(
        before: Self,
        key: Seq<u8>,
        after: Self,
        read: ExternalStorageResult<Option<(B256, Self::Value)>>,
    ) -> bool {
        true
    }

    open spec fn next_outcome(
        before: Self,
        after: Self,
        read: ExternalStorageResult<Option<(B256, Self::Value)>>,
    ) -> bool {
        true
    }

    open spec fn is_storage_empty_outcome(
        before: Self,
        after: Self,
        read: ExternalStorageResult<bool>,
    ) -> bool {
        true
    }

    /// Seek an entry greater or equal to the given key and position the cursor there.
    /// Returns the first entry with the key greater or equal to the sought key.
    fn seek(&mut self, key: B256) -> (r: ExternalStorageResult<Option<(B256, Self::Value)>>)
        ensures
            Self::seek_outcome(*old(self), key@, *final(self), r),
            final(self).entries() == old(self).entries(),
            r matches Ok(found) ==> is_first_from(old(self).entries(), key@, true, found),
            r matches Ok(Some((at, _))) ==> final(self).position() == Some(at@),
    ;

    /// Move the cursor to the next entry and return it.
    fn next(&mut self) -> (r: ExternalStorageResult<Option<(B256, Self::Value)>>)
        ensures
            Self::next_outcome(*old(self), *final(self), r),
            final(self).entries() == old(self).entries(),
            r is Ok && old(self).position() is Some ==> is_first_from(
                old(self).entries(),
                old(self).position()->0,
                false,
                r->Ok_0,
            ),
            r matches Ok(Some((at, _))) ==> final(self).position() == Some(at@),
    ;

    /// Whether there are no leaves at all.
    fn is_storage_empty(&mut self) -> (r: ExternalStorageResult<bool>)
        ensures
            Self::is_storage_empty_outcome(*old(self), *final(self), r),
            final(self).entries() == old(self).entries(),
            r matches Ok(empty) ==> empty == (old(self).entries().dom() == Set::<Seq<u8>>::empty()),
    ;
}

/// Trait for storing and retrieving preimage data.
///
/// This trait provides an abstraction over different storage backends and supports batch
/// operations for efficient storage of preimages with block-based indexing.
pub trait ExternalStateStore: Sized {
    type TrieCursor: ExternalTrieCursor;

    type StorageCursor: ExternalHashedCursor<Value = U256>;

    type AccountHashedCursor: ExternalHashedCursor<Value = Account>;

    open spec fn trie_cursor_outcome(
        self,
        hashed_address: Option<Seq<u8>>,
        max_block_number: u64,
        made: ExternalStorageResult<Self::TrieCursor>,
    ) -> bool {
        true
    }

    open spec fn storage_hashed_cursor_outcome(
        self,
        hashed_address: Seq<u8>,
        max_block_number: u64,
        made: ExternalStorageResult<Self::StorageCursor>,
    ) -> bool {
        true
    }

    open spec fn account_hashed_cursor_outcome(
        self,
        max_block_number: u64,
        made: ExternalStorageResult<Self::AccountHashedCursor>,
    ) -> bool {
        true
    }

    /// Store a single preimage. Storing `None` marks that it was deleted at that block.
    fn store_trie_branch(
        &self,
        block_number: u64,
        path: Nibbles,
        hashed_address: Option<B256>,
        branch: Option<BranchNodeCompact>,
    ) -> ExternalStorageResult<()>;

    /// Store multiple preimages in a batch operation.
    fn store_trie_branches(&self, batch: TrieBranchesBatch) -> ExternalStorageResult<()>;

    /// Store account leaves. `None` marks that the account was deleted at that block.
    fn store_hashed_accounts(
        &self,
        accounts: Vec<(B256, Option<Account>)>,
        block_number: u64,
    ) -> ExternalStorageResult<()>;

    /// Store storage leaves, each with the hashed address of its account.
    fn store_hashed_storages(
        &self,
        storages: Vec<(B256, StorageEntry)>,
        block_number: u64,
    ) -> ExternalStorageResult<()>;

    /// Get the earliest block number and hash that has been stored.
    ///
    /// This is used to determine the block number of trie nodes with block number 0.
    /// All earliest block numbers are stored in 0 to reduce updates required to prune trie
    /// nodes.
    fn get_earliest_block_number(&self) -> ExternalStorageResult<Option<(u64, B256)>>;

    /// Set the earliest block number and hash that has been stored.
    fn set_earliest_block_number(&self, block_number: u64, hash: B256) -> ExternalStorageResult<()>;

    /// Health check for the storage backend.
    fn health_check(&self) -> ExternalStorageResult<()>;

    /// Get a cursor over the state trie, or over the storage trie of an account.
    fn trie_cursor(&self, hashed_address: Option<B256>, max_block_number: u64) -> (r:
        ExternalStorageResult<Self::TrieCursor>)
        ensures
            self.trie_cursor_outcome(
                crate::primitives::hash_view(hashed_address),
                max_block_number,
                r,
            ),
    ;

    /// Get a cursor over the storage leaves of an account.
    fn storage_hashed_cursor(&self, hashed_address: B256, max_block_number: u64) -> (r:
        ExternalStorageResult<Self::StorageCursor>)
        ensures
            self.storage_hashed_cursor_outcome(hashed_address@, max_block_number, r),
    ;

    /// Get a cursor over the account leaves.
    fn account_hashed_cursor(&self, max_block_number: u64) -> (r: ExternalStorageResult<
        Self::AccountHashedCursor,
    >)
        ensures
            self.account_hashed_cursor_outcome(max_block_number, r),
    ;
}

impl Clone for PreimageEntry {
    fn clone(&self) -> (r: Self)
        ensures
            r.block_number == self.block_number,
            r.path@ == self.path@,
            r.hashed_address == self.hashed_address,
            r.branch is Some == self.branch is Some,
            r.branch is Some ==> r.branch->0@ == self.branch->0@,
            r@ == self@,
    {
        Self {
            block_number: self.block_number,
            path: self.path.clone(),
            hashed_address: self.hashed_address,
            branch: match &self.branch {
                Some(branch) => Some(branch.clone()),
                None => None,
            },
        }
    }
}

impl Clone for TrieBranchesBatch {
    fn clone(&self) -> (r: Self)
        ensures
            r.block_number == self.block_number,
            entries_view(r.items@) == entries_view(self.items@),
    {
        let mut items: Vec<PreimageEntry> = Vec::new();
        let mut i: usize = 0;
        while i < self.items.len()
            invariant
                i <= self.items@.len(),
                items@.len() == i,
                forall|j: int| 0 <= j < i ==> (#[trigger] items@[j])@ == self.items@[j]@,
            decreases self.items@.len() - i,
        {
            items.push(self.items[i].clone());
            i += 1;
        }
        assert(entries_view(items@) =~= entries_view(self.items@));
        Self { block_number: self.block_number, items }
    }
}

/// The contents of an entry are its block, its path, its account and its branch, and those of a
/// list of entries are those of each, in order.
pub proof fn law_entry_contents(entry: PreimageEntry, items: Seq<PreimageEntry>)
    ensures
        entry@.block_number == entry.block_number,
        entry@.path == entry.path@,
        entry.hashed_address is Some ==> entry@.hashed_address == Some(entry.hashed_address->0@),
        entry.hashed_address is None ==> entry@.hashed_address is None,
        entry.branch is Some ==> entry@.branch == Some(entry.branch->0@),
        entry.branch is None ==> entry@.branch is None,
        entries_view(items).len() == items.len(),
        forall|i: int| 0 <= i < items.len() ==> #[trigger] entries_view(items)[i] == items[i]@,
{
}

/// Every item of a batch is stored, in order, at the batch's block, with its own path, account and
/// branch.
pub proof fn law_batch_stores_all(batch: TrieBranchesBatch)
    ensures
        batch_entries(batch).len() == batch.items@.len(),
        forall|i: int|
            0 <= i < batch.items@.len() ==> (#[trigger] batch_entries(batch)[i]).block_number
                == batch.block_number && batch_entries(batch)[i].path == batch.items@[i].path@
                && batch_entries(batch)[i].hashed_address == (match batch.items@[i].hashed_address {
                Some(address) => Some(address@),
                None => None,
            }) && batch_entries(batch)[i].branch == (match batch.items@[i].branch {
                Some(branch) => Some(branch@),
                None => None,
            }),
        batch.wf() <==> forall|i: int|
            0 <= i < batch.items@.len() ==> (#[trigger] batch.items@[i]).block_number
                == batch.block_number,
{
}

/// The text of an error says its kind and its detail.
pub proof fn law_error_texts(detail: Seq<char>, hash: Seq<u8>)
    ensures
        error_text(ErrorView::Storage(detail)) == "Storage operation failed: "@ + detail,
        error_text(ErrorView::Serialization(detail)) == "Serialization error: "@ + detail,
        error_text(ErrorView::NotFound(hash)) == "Preimage not found: 0x"@ + crate::text::hex(hash),
        error_text(ErrorView::Batch(detail)) == "Batch operation failed: "@ + detail,
        error_text(ErrorView::Connection(detail)) == "Connection error: "@ + detail,
        error_text(ErrorView::TableCreation(detail)) == "Table creation error: "@ + detail,
{
    reveal_strlit("Preimage not found: ");
    reveal_strlit("0x");
    reveal_strlit("Preimage not found: 0x");
    assert("Preimage not found: "@ + ("0x"@ + crate::text::hex(hash))
        =~= "Preimage not found: 0x"@ + crate::text::hex(hash));
}

/// The contents of an error are its kind and its detail.
pub proof fn law_error_contents(error: ExternalStorageError)
    ensures
        match error {
            ExternalStorageError::StorageError(detail) => error@ == ErrorView::Storage(detail@),
            ExternalStorageError::SerializationError(detail) => error@ == ErrorView::Serialization(
                detail@,
            ),
            ExternalStorageError::NotFound(hash) => error@ == ErrorView::NotFound(hash@),
            ExternalStorageError::BatchError(detail) => error@ == ErrorView::Batch(detail@),
            ExternalStorageError::ConnectionError(detail) => error@ == ErrorView::Connection(
                detail@,
            ),
            ExternalStorageError::TableCreationError(detail) => error@ == ErrorView::TableCreation(
                detail@,
            ),
        },
{
}

/// The first entry from a key on is unique: no other is one, and there is one or there is none.
pub proof fn law_first_from_is_unique<Value>(
    entries: Map<Seq<u8>, Value>,
    key: Seq<u8>,
    inclusive: bool,
    found: Option<(B256, Value)>,
    other: Option<(B256, Value)>,
)
    requires
        is_first_from(entries, key, inclusive, found),
        is_first_from(entries, key, inclusive, other),
    ensures
        match (found, other) {
            (Some((at, value)), Some((also_at, same))) => at@ == also_at@ && value == same,
            (None, None) => true,
            _ => false,
        },
        found matches Some((at, value)) ==> entries.contains_key(at@) && entries[at@] == value && (
        crate::order::lex_lt(key, at@) || inclusive && at@ == key),
        found is None ==> forall|k: Seq<u8>| #[trigger]
            entries.contains_key(k) ==> !crate::order::lex_lt(key, k) && !(inclusive && k == key),
        found matches Some((at, value)) ==> forall|k: Seq<u8>| #[trigger]
            entries.contains_key(k) && (crate::order::lex_lt(key, k) || inclusive && k == key)
                ==> k == at@ || crate::order::lex_lt(at@, k),
{
    match (found, other) {
        (Some((a, _)), Some((b, _))) => {
            crate::order::lemma_lex_total(a@, b@);
        },
        (Some((a, _)), None) => {
            assert(entries.contains_key(a@));
        },
        (None, Some((b, _))) => {
            assert(entries.contains_key(b@));
        },
        (None, None) => {},
    }
}

/// The contents of what a read gives are the path and the branch, nothing, or the error.
pub proof fn law_read_contents(path: Nibbles, branch: BranchNodeCompact, error: ExternalStorageError)
    ensures
        read_view(Ok(Some((path, branch)))) == Ok::<_, ErrorView>(Some((path@, branch@))),
        read_view(Ok(None)) == Ok::<Option<(Seq<u8>, crate::branch::BranchView)>, ErrorView>(None),
        read_view(Err(error)) == Err::<Option<(Seq<u8>, crate::branch::BranchView)>, _>(error@),
{
}

} // verus!

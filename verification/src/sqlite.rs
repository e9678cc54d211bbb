//! What the SQLite store writes to its database and reads from it.
use vstd::prelude::*;

use crate::branch::{branch_to_compact, BranchNodeCompact};
use crate::cursor::SqlitePreimageStoreCursor;
use crate::key::{to_block_int, BranchNodeKey};
use crate::primitives::{copy_bytes, hash_from_bytes, Nibbles, B256};
use crate::storage::{
    ExternalStorageError, ExternalStorageResult, PreimageEntry, TrieBranchesBatch,
};
use crate::text::joined;

verus! {

/// A row of the branch table. The table holds at most one row for a key and a block.
#[derive(Debug, PartialEq, Eq)]
pub struct BranchRow {
    pub key: Vec<u8>,
    pub hashed_address: Option<Vec<u8>>,
    pub path: Vec<u8>,
    pub block_number: i64,
    /// The branch's stored form, or nothing if the branch was deleted.
    pub branch: Vec<u8>,
}

/// The contents of a [`BranchRow`].
#[verifier::ext_equal]
pub struct RowView {
    pub key: Seq<u8>,
    pub hashed_address: Option<Seq<u8>>,
    pub path: Seq<u8>,
    pub block_number: i64,
    pub branch: Seq<u8>,
}

impl View for BranchRow {
    type V = RowView;

    open spec fn view(&self) -> RowView {
        RowView {
            key: self.key@,
            hashed_address: match self.hashed_address {
                Some(address) => Some(address@),
                None => None,
            },
            path: self.path@,
            block_number: self.block_number,
            branch: self.branch@,
        }
    }
}

/// The contents of a list of rows.
pub open spec fn rows_view(rows: Seq<BranchRow>) -> Seq<RowView> {
    Seq::new(rows.len(), |i: int| rows[i]@)
}

/// The row that an entry is stored as.
pub open spec fn row_of(entry: crate::storage::EntryView) -> RowView {
    RowView {
        key: crate::key::key_bytes(entry.hashed_address, entry.path),
        hashed_address: entry.hashed_address,
        path: entry.path,
        block_number: crate::key::block_int(entry.block_number),
        branch: match entry.branch {
            Some(branch) => crate::branch::branch_bytes(branch),
            None => Seq::empty(),
        },
    }
}

/// The rows that entries are stored as, in order.
pub open spec fn rows_of(entries: Seq<crate::storage::EntryView>) -> Seq<RowView> {
    Seq::new(entries.len(), |i: int| row_of(entries[i]))
}

/// What the store asks of the database.
#[derive(Debug, Clone, Copy, PartialEq, Eq)]
pub enum SqliteStep {
    /// Open the database.
    Open,
    /// Make sure that the tables are there.
    Schema,
    /// Begin a transaction.
    Begin,
    /// Insert one row.
    Insert,
    /// Commit one row.
    Commit,
    /// Insert a row of a batch.
    BatchInsert,
    /// Commit a batch.
    BatchCommit,
    /// Ask a question of a cursor.
    Lookup,
    /// Read the earliest block.
    ReadEarliest,
    /// Write the earliest block.
    WriteEarliest,
    /// See that the database answers.
    HealthCheck,
}

/// The error for a step that the database failed with `detail`.
pub open spec fn step_error(step: SqliteStep, detail: Seq<char>) -> crate::storage::ErrorView {
    match step {
        SqliteStep::Open => crate::storage::ErrorView::Connection(
            "Failed to open sqlite: "@ + detail,
        ),
        SqliteStep::Schema => crate::storage::ErrorView::TableCreation(
            "Failed to create schema: "@ + detail,
        ),
        SqliteStep::Begin => crate::storage::ErrorView::Storage("Begin tx failed: "@ + detail),
        SqliteStep::Insert => crate::storage::ErrorView::Storage("insert failed: "@ + detail),
        SqliteStep::Commit => crate::storage::ErrorView::Storage("commit failed: "@ + detail),
        SqliteStep::BatchInsert => crate::storage::ErrorView::Batch(
            "batch insert failed: "@ + detail,
        ),
        SqliteStep::BatchCommit => crate::storage::ErrorView::Batch("commit failed: "@ + detail),
        SqliteStep::Lookup => crate::storage::ErrorView::Storage(detail),
        SqliteStep::ReadEarliest => crate::storage::ErrorView::Storage(
            "query failed: "@ + detail,
        ),
        SqliteStep::WriteEarliest => crate::storage::ErrorView::Storage(
            "upsert earliest_block failed: "@ + detail,
        ),
        SqliteStep::HealthCheck => crate::storage::ErrorView::Connection(
            "sqlite healthcheck failed: "@ + detail,
        ),
    }
}

/// SQLite implementation of the store: what is written to and read from the database.
#[derive(Debug, PartialEq, Eq)]
pub struct SqlitePreimageStore {
    /// Connection string or filename.
    db_path: String,
}

impl View for SqlitePreimageStore {
    type V = Seq<char>;

    closed spec fn view(&self) -> Seq<char> {
        self.db_path@
    }
}

impl SqlitePreimageStore {
    /// The tables of the store.
    pub const SCHEMA: &'static str = "
            PRAGMA journal_mode=WAL;
            PRAGMA synchronous=NORMAL;

            CREATE TABLE IF NOT EXISTS branch_nodes (
                key BLOB,
                hashed_address BLOB NULL,
                path BLOB NOT NULL,
                block_number INTEGER NOT NULL,
                branch BLOB NOT NULL,
                PRIMARY KEY (key, block_number)
            );

            CREATE INDEX IF NOT EXISTS idx_branch_nodes_block
            ON branch_nodes(block_number);

            CREATE TABLE IF NOT EXISTS earliest_block (
                id INTEGER PRIMARY KEY CHECK (id = 1),
                block_number INTEGER NOT NULL,
                hash BLOB NOT NULL
            );
            ";

    /// The latest row of a key up to a block.
    pub const SELECT_LATEST: &'static str = "SELECT key, branch FROM branch_nodes WHERE key = ? AND block_number <= ? ORDER BY block_number DESC LIMIT 1";

    /// The first key after a key.
    pub const SELECT_NEXT_KEY: &'static str = "SELECT key FROM branch_nodes WHERE key > ? ORDER BY key LIMIT 1";

    /// Puts a row in the place of any other of its key and block.
    pub const INSERT_BRANCH: &'static str = "INSERT OR REPLACE INTO branch_nodes (key, hashed_address, path, block_number, branch) VALUES (?1, ?2, ?3, ?4, ?5)";

    /// The earliest block.
    pub const SELECT_EARLIEST: &'static str = "SELECT block_number, hash FROM earliest_block WHERE id = 1";

    /// The greatest block with a row, or nothing if there are no rows.
    pub const SELECT_GREATEST_BLOCK: &'static str = "SELECT MAX(block_number) FROM branch_nodes";

    /// Sets the earliest block.
    pub const UPSERT_EARLIEST: &'static str = "INSERT INTO earliest_block (id, block_number, hash) VALUES (1, ?1, ?2) ON CONFLICT(id) DO UPDATE SET block_number=excluded.block_number, hash=excluded.hash";

    /// A question that any database answers.
    pub const SELECT_HEALTH: &'static str = "SELECT 1";

    /// The store in the database at `db_path`, once its tables are there.
    pub fn new(db_path: String, schema: ExternalStorageResult<()>) -> (r: ExternalStorageResult<Self>)
        ensures
            match schema {
                Ok(_) => r is Ok && r->Ok_0@ == db_path@,
                Err(error) => r is Err && r->Err_0 == error,
            },
    {
        match schema {
            Ok(_) => Ok(Self { db_path }),
            Err(error) => Err(error),
        }
    }

    /// Where the database is.
    pub fn db_path(&self) -> (r: &str)
        ensures
            r@ == self@,
    {
        self.db_path.as_str()
    }

    /// What the database said to a step, with the error that its failure is reported as.
    pub fn checked<T>(step: SqliteStep, outcome: Result<T, String>) -> (r: ExternalStorageResult<T>)
        ensures
            match outcome {
                Ok(value) => r is Ok && r->Ok_0 == value,
                Err(detail) => r is Err && r->Err_0@ == step_error(step, detail@),
            },
    {
        match outcome {
            Ok(value) => Ok(value),
            Err(detail) => Err(
                match step {
                    SqliteStep::Open => ExternalStorageError::ConnectionError(
                        joined("Failed to open sqlite: ", detail.as_str()),
                    ),
                    SqliteStep::Schema => ExternalStorageError::TableCreationError(
                        joined("Failed to create schema: ", detail.as_str()),
                    ),
                    SqliteStep::Begin => ExternalStorageError::StorageError(
                        joined("Begin tx failed: ", detail.as_str()),
                    ),
                    SqliteStep::Insert => ExternalStorageError::StorageError(
                        joined("insert failed: ", detail.as_str()),
                    ),
                    SqliteStep::Commit => ExternalStorageError::StorageError(
                        joined("commit failed: ", detail.as_str()),
                    ),
                    SqliteStep::BatchInsert => ExternalStorageError::BatchError(
                        joined("batch insert failed: ", detail.as_str()),
                    ),
                    SqliteStep::BatchCommit => ExternalStorageError::BatchError(
                        joined("commit failed: ", detail.as_str()),
                    ),
                    SqliteStep::Lookup => ExternalStorageError::StorageError(detail),
                    SqliteStep::ReadEarliest => ExternalStorageError::StorageError(
                        joined("query failed: ", detail.as_str()),
                    ),
                    SqliteStep::WriteEarliest => ExternalStorageError::StorageError(
                        joined("upsert earliest_block failed: ", detail.as_str()),
                    ),
                    SqliteStep::HealthCheck => ExternalStorageError::ConnectionError(
                        joined("sqlite healthcheck failed: ", detail.as_str()),
                    ),
                },
            ),
        }
    }

    /// What came of making the tables: the database has to be opened first.
    pub fn ensure_schema(opened: Result<(), String>, ran: Result<(), String>) -> (r:
        ExternalStorageResult<()>)
        ensures
            match (opened, ran) {
                (Err(detail), _) => r is Err && r->Err_0@ == step_error(SqliteStep::Open, detail@),
                (Ok(_), Err(detail)) => r is Err && r->Err_0@ == step_error(
                    SqliteStep::Schema,
                    detail@,
                ),
                (Ok(_), Ok(_)) => r is Ok,
            },
    {
        match Self::checked(SqliteStep::Open, opened) {
            Ok(_) => Self::checked(SqliteStep::Schema, ran),
            Err(error) => Err(error),
        }
    }

    /// The stored form of a branch.
    pub fn encode_branch(branch: &BranchNodeCompact) -> (r: ExternalStorageResult<Vec<u8>>)
        ensures
            r is Ok,
            r->Ok_0@ == crate::branch::branch_bytes(branch@),
    {
        Ok(branch_to_compact(branch))
    }

    /// The row that stores a branch, or the mark that it was deleted, at a block.
    pub fn store_preimage(
        block_number: u64,
        path: Nibbles,
        hashed_address: Option<B256>,
        branch: Option<BranchNodeCompact>,
    ) -> (r: ExternalStorageResult<BranchRow>)
        ensures
            r is Ok,
            r->Ok_0.key@ == crate::key::key_bytes(
                match hashed_address {
                    Some(address) => Some(address@),
                    None => None,
                },
                path@,
            ),
            r->Ok_0.path@ == path@,
            r->Ok_0.hashed_address is Some == hashed_address is Some,
            hashed_address is Some ==> r->Ok_0.hashed_address->0@ == hashed_address->0@,
            r->Ok_0.block_number == crate::key::block_int(block_number),
            branch is Some ==> r->Ok_0.branch@ == crate::branch::branch_bytes(branch->0@),
            branch is None ==> r->Ok_0.branch@.len() == 0,
            r->Ok_0@ == row_of(
                crate::storage::EntryView {
                    block_number,
                    path: path@,
                    hashed_address: crate::primitives::hash_view(hashed_address),
                    branch: crate::branch::branch_view(branch),
                },
            ),
    {
        let branch_bytes = match &branch {
            Some(node) => match Self::encode_branch(node) {
                Ok(bytes) => bytes,
                Err(error) => return Err(error),
            },
            None => Vec::new(),
        };
        let key = BranchNodeKey { hashed_address, path };
        Ok(
            BranchRow {
                key: key.encode(),
                hashed_address: match &hashed_address {
                    Some(address) => Some(copy_bytes(address.as_slice())),
                    None => None,
                },
                path: key.path.to_vec(),
                block_number: to_block_int(block_number),
                branch: branch_bytes,
            },
        )
    }

    /// The rows that store a batch, in order. Each item is stored at the batch's block.
    pub fn store_preimages_batch(batch: &TrieBranchesBatch) -> (r: ExternalStorageResult<
        Vec<BranchRow>,
    >)
        ensures
            r is Ok,
            rows_view(r->Ok_0@) == rows_of(crate::storage::batch_entries(*batch)),
    {
        let mut rows: Vec<BranchRow> = Vec::new();
        let ghost entries = crate::storage::batch_entries(*batch);
        let mut i: usize = 0;
        while i < batch.items.len()
            invariant
                i <= batch.items@.len(),
                entries == crate::storage::batch_entries(*batch),
                rows_view(rows@) =~= rows_of(entries).take(i as int),
            decreases batch.items@.len() - i,
        {
            let item: &PreimageEntry = &batch.items[i];
            let branch = match &item.branch {
                Some(node) => Some(node.clone()),
                None => None,
            };
            let ghost before = rows@;
            match Self::store_preimage(
                batch.block_number,
                item.path.clone(),
                item.hashed_address,
                branch,
            ) {
                Ok(row) => {
                    rows.push(row);
                    assert(rows_view(rows@) =~= rows_view(before).push(row@));
                    assert(row@ == row_of(entries[i as int]));
                },
                Err(error) => return Err(error),
            }
            i += 1;
        }
        assert(rows_of(entries).take(entries.len() as int) =~= rows_of(entries));
        Ok(rows)
    }

    /// The earliest block, from its row: the hash is filled up with zeros or cut at 32 bytes.
    pub fn get_earliest_block_number(row: &Option<(i64, Vec<u8>)>) -> (r: Option<(u64, B256)>)
        ensures
            match (*row, r) {
                (Some((block_int, hash_bytes)), Some((block_number, hash))) => block_number
                    == block_int as u64 && hash@ == crate::primitives::padded_hash(hash_bytes@),
                (None, None) => true,
                _ => false,
            },
    {
        match row {
            Some((block_number, hash)) => Some(
                (*block_number as u64, hash_from_bytes(hash.as_slice())),
            ),
            None => None,
        }
    }

    /// The row of the earliest block.
    pub fn set_earliest_block_number(block_number: u64, hash: &B256) -> (r: (i64, Vec<u8>))
        ensures
            r.0 == block_number as i64,
            r.1@ == hash@,
    {
        (block_number as i64, copy_bytes(hash.as_slice()))
    }

    /// The latest block of which the state is stored: the greatest block with a row, or the
    /// earliest block if that is later. There is none as long as there is no earliest block.
    pub fn get_latest_block_number(
        earliest: &Option<(u64, B256)>,
        greatest: Option<i64>,
    ) -> (r: Option<u64>)
        ensures
            match *earliest {
                Some((first, _)) => r == Some(
                    match greatest {
                        Some(block) => if block > first {
                            block as u64
                        } else {
                            first
                        },
                        None => first,
                    },
                ),
                None => r is None,
            },
    {
        match earliest {
            Some((first, _)) => match greatest {
                Some(block) => if block > 0 && block as u64 > *first {
                    Some(block as u64)
                } else {
                    Some(*first)
                },
                None => Some(*first),
            },
            None => None,
        }
    }

    /// Whether the database is well: what it said to [`SqlitePreimageStore::SELECT_HEALTH`].
    pub fn health_check(answered: Result<i64, String>) -> (r: ExternalStorageResult<()>)
        ensures
            match answered {
                Ok(_) => r is Ok,
                Err(detail) => r is Err && r->Err_0@ == step_error(SqliteStep::HealthCheck, detail@),
            },
    {
        match Self::checked(SqliteStep::HealthCheck, answered) {
            Ok(_) => Ok(()),
            Err(error) => Err(error),
        }
    }

    /// A cursor over a trie at a block, once the database is open.
    pub fn cursor(
        opened: Result<(), String>,
        hashed_address: Option<B256>,
        max_block_number: u64,
    ) -> (r: ExternalStorageResult<SqlitePreimageStoreCursor>)
        ensures
            match opened {
                Ok(_) => r is Ok && r->Ok_0@ == crate::cursor::CursorView::fresh(
                    crate::primitives::hash_view(hashed_address),
                    max_block_number,
                ),
                Err(detail) => r is Err && r->Err_0@ == step_error(SqliteStep::Open, detail@),
            },
    {
        match Self::checked(SqliteStep::Open, opened) {
            Ok(_) => Ok(SqlitePreimageStoreCursor::new(hashed_address, max_block_number)),
            Err(error) => Err(error),
        }
    }
}

/// The earliest block is read back as it was written.
pub proof fn law_earliest_block_roundtrip(block_number: u64, hash: Seq<u8>)
    requires
        hash.len() == 32,
    ensures
        (block_number as i64) as u64 == block_number,
        crate::primitives::padded_hash(hash) == hash,
{
    assert((block_number as i64) as u64 == block_number) by (bit_vector);
    assert(crate::primitives::padded_hash(hash) =~= hash);
}

impl Clone for SqlitePreimageStore {
    fn clone(&self) -> (r: Self)
        ensures
            r@ == self@,
    {
        Self { db_path: self.db_path.clone() }
    }
}

/// A row holds what was given to store: the key and the path, the account, the block, and the
/// branch's stored form, or nothing for a branch that was deleted.
pub proof fn law_row_holds_entry(entry: crate::storage::EntryView)
    ensures
        row_of(entry).key == crate::key::key_bytes(entry.hashed_address, entry.path),
        row_of(entry).path == entry.path,
        row_of(entry).hashed_address == entry.hashed_address,
        row_of(entry).block_number == crate::key::block_int(entry.block_number),
        entry.branch is None ==> row_of(entry).branch.len() == 0,
        entry.branch is Some ==> row_of(entry).branch == crate::branch::branch_bytes(
            entry.branch->0,
        ),
        entry.branch is Some ==> row_of(entry).branch.len() > 0,
{
}

/// Every entry is stored as its row, in order. The contents of rows are those of each.
pub proof fn law_rows_of_entries(
    entries: Seq<crate::storage::EntryView>,
    rows: Seq<BranchRow>,
    row: BranchRow,
)
    ensures
        rows_of(entries).len() == entries.len(),
        forall|i: int| 0 <= i < entries.len() ==> #[trigger] rows_of(entries)[i] == row_of(entries[i]),
        rows_view(rows).len() == rows.len(),
        forall|i: int| 0 <= i < rows.len() ==> #[trigger] rows_view(rows)[i] == rows[i]@,
        row@.key == row.key@,
        row@.path == row.path@,
        row@.block_number == row.block_number,
        row@.branch == row.branch@,
        row.hashed_address is None ==> row@.hashed_address is None,
        row.hashed_address is Some ==> row@.hashed_address == Some(row.hashed_address->0@),
{
}

/// What is said of a step that failed.
pub proof fn law_database_texts(detail: Seq<char>)
    ensures
        crate::storage::error_text(step_error(SqliteStep::Open, detail)) == "Connection error: "@ + ("Failed to open sqlite: "@ + detail),
        crate::storage::error_text(step_error(SqliteStep::Schema, detail)) == "Table creation error: "@ + ("Failed to create schema: "@ + detail),
        crate::storage::error_text(step_error(SqliteStep::Begin, detail)) == "Storage operation failed: "@ + ("Begin tx failed: "@ + detail),
        crate::storage::error_text(step_error(SqliteStep::Insert, detail)) == "Storage operation failed: "@ + ("insert failed: "@ + detail),
        crate::storage::error_text(step_error(SqliteStep::Commit, detail)) == "Storage operation failed: "@ + ("commit failed: "@ + detail),
        crate::storage::error_text(step_error(SqliteStep::BatchInsert, detail)) == "Batch operation failed: "@ + ("batch insert failed: "@ + detail),
        crate::storage::error_text(step_error(SqliteStep::BatchCommit, detail)) == "Batch operation failed: "@ + ("commit failed: "@ + detail),
        crate::storage::error_text(step_error(SqliteStep::ReadEarliest, detail)) == "Storage operation failed: "@ + ("query failed: "@ + detail),
        crate::storage::error_text(step_error(SqliteStep::WriteEarliest, detail)) == "Storage operation failed: "@ + ("upsert earliest_block failed: "@ + detail),
        crate::storage::error_text(step_error(SqliteStep::HealthCheck, detail)) == "Connection error: "@ + ("sqlite healthcheck failed: "@ + detail),
        crate::storage::error_text(step_error(SqliteStep::Lookup, detail))
            == "Storage operation failed: "@ + detail,
{
}

/// What is asked of the database.
pub proof fn law_statements()
    ensures
        SqlitePreimageStore::SELECT_LATEST@ == "SELECT key, branch FROM branch_nodes WHERE key = ? AND block_number <= ? ORDER BY block_number DESC LIMIT 1"@,
        SqlitePreimageStore::SELECT_NEXT_KEY@ == "SELECT key FROM branch_nodes WHERE key > ? ORDER BY key LIMIT 1"@,
        SqlitePreimageStore::INSERT_BRANCH@ == "INSERT OR REPLACE INTO branch_nodes (key, hashed_address, path, block_number, branch) VALUES (?1, ?2, ?3, ?4, ?5)"@,
        SqlitePreimageStore::SELECT_EARLIEST@ == "SELECT block_number, hash FROM earliest_block WHERE id = 1"@,
        SqlitePreimageStore::SELECT_GREATEST_BLOCK@ == "SELECT MAX(block_number) FROM branch_nodes"@,
        SqlitePreimageStore::UPSERT_EARLIEST@ == "INSERT INTO earliest_block (id, block_number, hash) VALUES (1, ?1, ?2) ON CONFLICT(id) DO UPDATE SET block_number=excluded.block_number, hash=excluded.hash"@,
        SqlitePreimageStore::SELECT_HEALTH@ == "SELECT 1"@,
{
}

} // verus!

//! How a cursor walks the branch table.
use vstd::prelude::*;

use crate::branch::{branch_from_compact, is_branch_bytes, BranchNodeCompact};
use crate::key::{to_block_int, BranchNodeKey};
use crate::order::bytes_equal;
use crate::primitives::{Nibbles, B256};
use crate::sqlite::SqliteStep;
use crate::storage::{BranchRead, ExternalStorageError, ExternalStorageResult};

verus! {

/// A row's key and branch.
pub type LatestRow = Option<(Vec<u8>, Vec<u8>)>;

/// The contents of a [`LatestRow`].
pub open spec fn latest_row_view(row: LatestRow) -> Option<(Seq<u8>, Seq<u8>)> {
    match row {
        Some((key, branch)) => Some((key@, branch@)),
        None => None,
    }
}

/// Whether a row can be read: its key holds no path that is too long, and its branch, if
/// there is one, is one.
pub open spec fn readable_row(row: Option<(Seq<u8>, Seq<u8>)>) -> bool {
    match row {
        Some((key, branch)) => branch.len() > 0 ==> crate::key::key_fits(key) && (crate::key::key_of(key) is Ok
            ==> crate::branch::valid_branch_bytes(branch)),
        None => true,
    }
}

/// What the latest row of a path says: nothing if there is no row or it marks a deletion,
/// else the path in the row's key with the branch.
pub open spec fn latest_read(row: Option<(Seq<u8>, Seq<u8>)>) -> crate::storage::ReadView {
    match row {
        Some((key, branch)) => if branch.len() == 0 {
            Ok(None)
        } else {
            match crate::key::key_of(key) {
                Ok(k) => Ok(Some((k.path, crate::branch::branch_of(branch)))),
                Err(error) => Err(error),
            }
        },
        None => Ok(None),
    }
}

/// Whether [`SqlitePreimageStoreCursor::answer_latest`] takes this row.
pub fn is_readable_row(row: &LatestRow) -> (r: bool)
    ensures
        r == readable_row(latest_row_view(*row)),
{
    match row {
        Some((key, branch)) => {
            if branch.len() == 0 {
                true
            } else if !BranchNodeKey::fits(key.as_slice()) {
                false
            } else {
                match BranchNodeKey::decode(key.as_slice()) {
                    Ok(_) => is_branch_bytes(branch.as_slice()),
                    Err(_) => true,
                }
            }
        },
        None => true,
    }
}

/// The question for the latest row of a key: the one with the greatest block number up to
/// `max_block_number`.
#[derive(Debug)]
pub struct LatestLookup {
    key: Vec<u8>,
    max_block_number: i64,
    path: Nibbles,
    exact: bool,
}

/// The question for the first key of the table that comes after `key`.
#[derive(Debug)]
pub struct NextKeyLookup {
    key: Vec<u8>,
}

/// What a cursor needs next, or what it has found.
#[derive(Debug)]
pub enum CursorStep {
    /// The latest row of a key.
    Latest(LatestLookup),
    /// The first key after a key.
    NextKey(NextKeyLookup),
    /// Nothing more: this is what was read.
    Finished(BranchRead),
}

/// The contents of a [`CursorStep`].
pub enum StepView {
    /// The latest row of `key` up to block `max_block_number` is asked for, for the sake of
    /// `path`: of no other path if `exact`, else as the first candidate of a walk.
    Latest { key: Seq<u8>, max_block_number: i64, path: Seq<u8>, exact: bool },
    /// The first key after `key` is asked for, to go on with a walk.
    NextKey { key: Seq<u8> },
    Finished(crate::storage::ReadView),
}

impl LatestLookup {
    pub closed spec fn key_view(self) -> Seq<u8> {
        self.key@
    }

    pub closed spec fn max_view(self) -> i64 {
        self.max_block_number
    }

    pub closed spec fn path_view(self) -> Seq<u8> {
        self.path@
    }

    pub closed spec fn is_exact(self) -> bool {
        self.exact
    }

    /// The key to look for.
    pub fn key(&self) -> (r: &[u8])
        ensures
            r@ == self.key_view(),
    {
        self.key.as_slice()
    }

    /// The greatest block number to look at.
    pub fn max_block_number(&self) -> (r: i64)
        ensures
            r == self.max_view(),
    {
        self.max_block_number
    }
}

impl NextKeyLookup {
    pub closed spec fn key_view(self) -> Seq<u8> {
        self.key@
    }

    /// The key to look behind.
    pub fn key(&self) -> (r: &[u8])
        ensures
            r@ == self.key_view(),
    {
        self.key.as_slice()
    }
}

impl View for CursorStep {
    type V = StepView;

    open spec fn view(&self) -> StepView {
        match *self {
            CursorStep::Latest(lookup) => StepView::Latest {
                key: lookup.key_view(),
                max_block_number: lookup.max_view(),
                path: lookup.path_view(),
                exact: lookup.is_exact(),
            },
            CursorStep::NextKey(lookup) => StepView::NextKey { key: lookup.key_view() },
            CursorStep::Finished(read) => StepView::Finished(crate::storage::read_view(read)),
        }
    }
}

/// Cursor over an account or storage trie at a certain block number.
///
/// A cursor asks questions of the branch table and is told the answers: each operation
/// gives a [`CursorStep`], and what the table says to it goes to
/// [`SqlitePreimageStoreCursor::answer_latest`] or
/// [`SqlitePreimageStoreCursor::answer_next_key`], or to
/// [`SqlitePreimageStoreCursor::lookup_failed`] if it said nothing, until the step is `Finished`.
#[derive(Debug)]
pub struct SqlitePreimageStoreCursor {
    hashed_address: Option<B256>,
    max_block_number: u64,
    last_seeked: Option<Nibbles>,
}

/// The contents of a [`SqlitePreimageStoreCursor`].
#[verifier::ext_equal]
pub struct CursorView {
    /// The account whose storage trie is walked, or `None` for the state trie.
    pub hashed_address: Option<Seq<u8>>,
    /// The block that is looked at.
    pub max_block_number: u64,
    /// The path that was found last.
    pub last_seeked: Option<Seq<u8>>,
}

impl View for SqlitePreimageStoreCursor {
    type V = CursorView;

    closed spec fn view(&self) -> CursorView {
        CursorView {
            hashed_address: crate::primitives::hash_view(self.hashed_address),
            max_block_number: self.max_block_number,
            last_seeked: match self.last_seeked {
                Some(path) => Some(path@),
                None => None,
            },
        }
    }
}

impl CursorView {
    /// A cursor that has found nothing yet.
    pub open spec fn fresh(hashed_address: Option<Seq<u8>>, max_block_number: u64) -> CursorView {
        CursorView { hashed_address, max_block_number, last_seeked: None }
    }

    /// This cursor at another path.
    pub open spec fn at(self, path: Seq<u8>) -> CursorView {
        CursorView { last_seeked: Some(path), ..self }
    }

    /// The question for the latest row of a path.
    pub open spec fn latest_step(self, path: Seq<u8>, exact: bool) -> StepView {
        StepView::Latest {
            key: crate::key::key_bytes(self.hashed_address, path),
            max_block_number: crate::key::block_int(self.max_block_number),
            path,
            exact,
        }
    }

    /// The question for the first key after that of a path.
    pub open spec fn next_key_step(self, path: Seq<u8>) -> StepView {
        StepView::NextKey { key: crate::key::key_bytes(self.hashed_address, path) }
    }

    /// How the search for the first branch at a path or after it (`inclusive`), or only
    /// after it, starts.
    pub open spec fn seek_step(self, path: Seq<u8>, inclusive: bool) -> StepView {
        if inclusive {
            self.latest_step(path, false)
        } else {
            self.next_key_step(path)
        }
    }

    /// How the search for the next branch starts: after the path that was found last, or
    /// at the root.
    pub open spec fn next_step(self) -> StepView {
        match self.last_seeked {
            Some(path) => self.seek_step(path, false),
            None => self.seek_step(Seq::empty(), true),
        }
    }

    /// The cursor and its step after the latest row of `path` is known.
    pub open spec fn after_latest(
        self,
        path: Seq<u8>,
        exact: bool,
        row: Option<(Seq<u8>, Seq<u8>)>,
    ) -> (CursorView, StepView) {
        match latest_read(row) {
            Ok(Some((found, branch))) => (
                self.at(found),
                StepView::Finished(
                    Ok(
                        Some(
                            (
                                if exact {
                                    path
                                } else {
                                    found
                                },
                                branch,
                            ),
                        ),
                    ),
                ),
            ),
            Ok(None) => (
                self,
                if exact {
                    StepView::Finished(Ok(None))
                } else {
                    self.next_key_step(path)
                },
            ),
            Err(error) => (self, StepView::Finished(Err(error))),
        }
    }

    /// The step after the first key behind is known, if there is one.
    pub open spec fn after_next_key(self, row: Option<Seq<u8>>) -> StepView {
        match row {
            Some(key) => match crate::key::key_of(key) {
                Ok(k) => if k.hashed_address == self.hashed_address {
                    self.latest_step(k.path, false)
                } else {
                    StepView::Finished(Ok(None))
                },
                Err(error) => StepView::Finished(Err(error)),
            },
            None => StepView::Finished(Ok(None)),
        }
    }
}

/// Whether two optional hashes are the same.
fn same_hash(a: &Option<B256>, b: &Option<B256>) -> (r: bool)
    ensures
        r == (crate::primitives::hash_view(*a) == crate::primitives::hash_view(*b)),
{
    match (a, b) {
        (Some(x), Some(y)) => bytes_equal(x.as_slice(), y.as_slice()),
        (None, None) => true,
        _ => false,
    }
}

impl SqlitePreimageStoreCursor {
    /// Create a new cursor.
    pub fn new(hashed_address: Option<B256>, max_block_number: u64) -> (r: Self)
        ensures
            r@ == CursorView::fresh(crate::primitives::hash_view(hashed_address), max_block_number),
    {
        Self { hashed_address, max_block_number, last_seeked: None }
    }

    /// Convert a branch node from a byte vector to a [`BranchNodeCompact`].
    pub fn row_to_branch(branch: &Vec<u8>) -> (r: ExternalStorageResult<BranchNodeCompact>)
        requires
            crate::branch::valid_branch_bytes(branch@),
        ensures
            r is Ok,
            r->Ok_0@ == crate::branch::branch_of(branch@),
    {
        Ok(branch_from_compact(branch.as_slice()))
    }

    /// What the latest row of a path says.
    pub fn read_latest(row: &LatestRow) -> (r: BranchRead)
        requires
            readable_row(latest_row_view(*row)),
        ensures
            crate::storage::read_view(r) == latest_read(latest_row_view(*row)),
    {
        match row {
            // no branch node was ever at this path up to the block
            None => Ok(None),
            Some((key, branch)) => {
                // the branch node was deleted
                if branch.len() == 0 {
                    return Ok(None);
                }
                match BranchNodeKey::decode(key.as_slice()) {
                    Ok(decoded) => match Self::row_to_branch(branch) {
                        Ok(node) => Ok(Some((decoded.path, node))),
                        Err(error) => Err(error),
                    },
                    Err(error) => Err(error),
                }
            },
        }
    }

    /// Ask for the latest value of the branch node at the given path.
    fn get_latest_branch(&self, path: Nibbles, exact: bool) -> (r: CursorStep)
        ensures
            r@ == self@.latest_step(path@, exact),
    {
        let key = BranchNodeKey { hashed_address: self.hashed_address, path };
        let bytes = key.encode();
        CursorStep::Latest(
            LatestLookup {
                key: bytes,
                max_block_number: to_block_int(self.max_block_number),
                path: key.path,
                exact,
            },
        )
    }

    /// Ask for the next path that has a branch node at any block.
    fn get_next_latest_branch(&self, path: Nibbles) -> (r: CursorStep)
        ensures
            r@ == self@.next_key_step(path@),
    {
        let key = BranchNodeKey { hashed_address: self.hashed_address, path };
        CursorStep::NextKey(NextKeyLookup { key: key.encode() })
    }

    /// Start the search for the first branch node after a path, or at it if `inclusive`.
    pub fn seek_first_non_empty_path_after(&self, path: Nibbles, inclusive: bool) -> (r: CursorStep)
        ensures
            r@ == self@.seek_step(path@, inclusive),
    {
        if inclusive {
            self.get_latest_branch(path, false)
        } else {
            self.get_next_latest_branch(path)
        }
    }

    /// Read the branch node at exactly this path.
    pub fn seek_exact(&self, path: Nibbles) -> (r: CursorStep)
        ensures
            r@ == self@.latest_step(path@, true),
    {
        self.get_latest_branch(path, true)
    }

    /// Read the first branch node at this path or after it.
    pub fn seek(&self, path: Nibbles) -> (r: CursorStep)
        ensures
            r@ == self@.seek_step(path@, true),
    {
        self.seek_first_non_empty_path_after(path, true)
    }

    /// Read the first branch node after the one that was found last, or the first of all.
    pub fn next(&self) -> (r: CursorStep)
        ensures
            r@ == self@.next_step(),
    {
        match &self.last_seeked {
            Some(path) => self.seek_first_non_empty_path_after(path.clone(), false),
            None => self.seek_first_non_empty_path_after(Nibbles::new(), true),
        }
    }

    /// The path that was found last.
    pub fn current(&self) -> (r: ExternalStorageResult<Option<Nibbles>>)
        ensures
            r is Ok,
            r->Ok_0 is Some == self@.last_seeked is Some,
            r->Ok_0 is Some ==> r->Ok_0->0@ == self@.last_seeked->0,
    {
        Ok(
            match &self.last_seeked {
                Some(path) => Some(path.clone()),
                None => None,
            },
        )
    }

    /// Go on after the latest row that a [`LatestLookup`] asked for is known.
    pub fn answer_latest(&mut self, lookup: LatestLookup, row: LatestRow) -> (r: CursorStep)
        requires
            readable_row(latest_row_view(row)),
        ensures
            (final(self)@, r@) == old(self)@.after_latest(
                lookup.path_view(),
                lookup.is_exact(),
                latest_row_view(row),
            ),
    {
        match Self::read_latest(&row) {
            Ok(Some((found, branch))) => {
                self.last_seeked = Some(found.clone());
                if lookup.exact {
                    CursorStep::Finished(Ok(Some((lookup.path, branch))))
                } else {
                    CursorStep::Finished(Ok(Some((found, branch))))
                }
            },
            Ok(None) => {
                if lookup.exact {
                    CursorStep::Finished(Ok(None))
                } else {
                    self.get_next_latest_branch(lookup.path)
                }
            },
            Err(error) => CursorStep::Finished(Err(error)),
        }
    }

    /// Go on after the key that a [`NextKeyLookup`] asked for is known.
    pub fn answer_next_key(&self, row: Option<Vec<u8>>) -> (r: CursorStep)
        requires
            row is Some ==> crate::key::key_fits(row->0@),
        ensures
            r@ == self@.after_next_key(
                match row {
                    Some(key) => Some(key@),
                    None => None,
                },
            ),
    {
        match row {
            // there is no next path: the end of the trie
            None => CursorStep::Finished(Ok(None)),
            Some(key) => match BranchNodeKey::decode(key.as_slice()) {
                Ok(next) => {
                    if same_hash(&next.hashed_address, &self.hashed_address) {
                        self.get_latest_branch(next.path, false)
                    } else {
                        // that was the last path of this trie
                        CursorStep::Finished(Ok(None))
                    }
                },
                Err(error) => CursorStep::Finished(Err(error)),
            },
        }
    }

    /// End the search after the table could not be asked. The cursor stays where it is.
    pub fn lookup_failed(&self, detail: String) -> (r: CursorStep)
        ensures
            r@ == StepView::Finished(
                Err(crate::sqlite::step_error(SqliteStep::Lookup, detail@)),
            ),
    {
        CursorStep::Finished(Err(ExternalStorageError::StorageError(detail)))
    }
}

/// A cursor starts at no path. It keeps its trie and its block whatever it finds.
pub proof fn law_cursor_moves(
    hashed_address: Option<Seq<u8>>,
    max_block_number: u64,
    cursor: CursorView,
    path: Seq<u8>,
)
    ensures
        CursorView::fresh(hashed_address, max_block_number).hashed_address == hashed_address,
        CursorView::fresh(hashed_address, max_block_number).max_block_number == max_block_number,
        CursorView::fresh(hashed_address, max_block_number).last_seeked is None,
        cursor.at(path).hashed_address == cursor.hashed_address,
        cursor.at(path).max_block_number == cursor.max_block_number,
        cursor.at(path).last_seeked == Some(path),
{
}

/// What a cursor asks: for the latest row of the path in its own trie up to its own block, where
/// the path itself counts, and else for the first key after that of the path in its own trie. The
/// next branch is sought after the path that was found last, or from the root on.
pub proof fn law_cursor_questions(cursor: CursorView, path: Seq<u8>, exact: bool)
    ensures
        cursor.latest_step(path, exact) matches StepView::Latest {
            key,
            max_block_number,
            path: of,
            exact: only,
        } && key == crate::key::key_bytes(cursor.hashed_address, path) && max_block_number
            == crate::key::block_int(cursor.max_block_number) && of == path && only == exact,
        cursor.next_key_step(path) == (StepView::NextKey {
            key: crate::key::key_bytes(cursor.hashed_address, path),
        }),
        cursor.seek_step(path, true) == cursor.latest_step(path, false),
        cursor.seek_step(path, false) == cursor.next_key_step(path),
        cursor.last_seeked == Some(path) ==> cursor.next_step() == cursor.next_key_step(path),
        cursor.last_seeked is None ==> cursor.next_step() == cursor.latest_step(Seq::empty(), false),
{
}

/// What a cursor makes of the latest row of a path. A branch is read and the cursor is then at its
/// path. Without a row, or with one that marks a deletion, an exact search is over, and any other
/// goes on with the next key. A key that is none ends the search with its error. But for a branch
/// the cursor stays.
pub proof fn law_latest_row_is_known(
    cursor: CursorView,
    path: Seq<u8>,
    exact: bool,
    key: Seq<u8>,
    branch: Seq<u8>,
)
    ensures
        cursor.after_latest(path, true, None) == (
            cursor,
            StepView::Finished(
                Ok::<Option<(Seq<u8>, crate::branch::BranchView)>, crate::storage::ErrorView>(None),
            ),
        ),
        cursor.after_latest(path, false, None) == (cursor, cursor.next_key_step(path)),
        branch.len() == 0 ==> cursor.after_latest(path, exact, Some((key, branch)))
            == cursor.after_latest(path, exact, None),
        branch.len() > 0 ==> match crate::key::key_of(key) {
            Ok(k) => cursor.after_latest(path, exact, Some((key, branch))) == (
                cursor.at(k.path),
                StepView::Finished(
                    Ok::<_, crate::storage::ErrorView>(
                        Some(
                            (
                                if exact {
                                    path
                                } else {
                                    k.path
                                },
                                crate::branch::branch_of(branch),
                            ),
                        ),
                    ),
                ),
            ),
            Err(error) => cursor.after_latest(path, exact, Some((key, branch))) == (
                cursor,
                StepView::Finished(
                    Err::<Option<(Seq<u8>, crate::branch::BranchView)>, _>(error),
                ),
            ),
        },
{
}

/// What a cursor makes of the first key after a path: if it is of the cursor's own trie, the latest
/// row of its path is asked for. Any other, or none, is the end of the trie. A key that is none
/// ends the search with its error.
pub proof fn law_next_key_is_known(cursor: CursorView, key: Seq<u8>)
    ensures
        cursor.after_next_key(None) == StepView::Finished(
            Ok::<Option<(Seq<u8>, crate::branch::BranchView)>, crate::storage::ErrorView>(None),
        ),
        match crate::key::key_of(key) {
            Ok(k) => if k.hashed_address == cursor.hashed_address {
                cursor.after_next_key(Some(key)) == cursor.latest_step(k.path, false)
            } else {
                cursor.after_next_key(Some(key)) == cursor.after_next_key(None)
            },
            Err(error) => cursor.after_next_key(Some(key)) == StepView::Finished(
                Err::<Option<(Seq<u8>, crate::branch::BranchView)>, _>(error),
            ),
        },
{
}

/// The contents of a row are its key and its branch. It can be read if it has no branch, or if its
/// key is not too long and its branch is one, or its key is none.
pub proof fn law_which_rows_are_readable(key: Vec<u8>, branch: Vec<u8>)
    ensures
        latest_row_view(None) is None,
        latest_row_view(Some((key, branch))) == Some((key@, branch@)),
        readable_row(None),
        branch@.len() == 0 ==> readable_row(Some((key@, branch@))),
        branch@.len() > 0 ==> (readable_row(Some((key@, branch@))) <==> crate::key::key_fits(key@)
            && (crate::branch::valid_branch_bytes(branch@) || crate::key::key_of(key@) is Err)),
{
}

/// The contents of a step are what is asked, or what was read.
pub proof fn law_step_contents(step: CursorStep)
    ensures
        match step {
            CursorStep::Latest(lookup) => step@ matches StepView::Latest {
                key,
                max_block_number,
                path,
                exact,
            } && key == lookup.key_view() && max_block_number == lookup.max_view() && path
                == lookup.path_view() && exact == lookup.is_exact(),
            CursorStep::NextKey(lookup) => step@ == (StepView::NextKey { key: lookup.key_view() }),
            CursorStep::Finished(read) => step@ == StepView::Finished(
                crate::storage::read_view(read),
            ),
        },
{
}

} // verus!

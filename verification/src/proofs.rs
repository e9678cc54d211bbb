//! Cursors over a store at a block, as proofs are computed over them.
use vstd::prelude::*;

use crate::branch::BranchNodeCompact;
use crate::primitives::{Address, Nibbles, B256, U256};
use crate::storage::{
    Account, BranchRead, DatabaseError, ExternalHashedCursor, ExternalStateStore,
    ExternalStorageResult, ExternalTrieCursor as ExternalDBTrieCursor,
};

verus! {

/// Whether `handed` is `read` with its error, if it is one, as one of the database.
pub open spec fn handed_on<T>(read: ExternalStorageResult<T>, handed: Result<T, DatabaseError>) -> bool {
    match read {
        Ok(value) => handed is Ok && handed->Ok_0 == value,
        Err(error) => handed is Err && handed->Err_0@ == crate::storage::error_text(error@),
    }
}

/// Hands on what a store said.
pub fn hand_on<T>(read: ExternalStorageResult<T>) -> (r: Result<T, DatabaseError>)
    ensures
        handed_on(read, r),
{
    match read {
        Ok(value) => Ok(value),
        Err(error) => Err(error.into()),
    }
}

/// A cursor over a trie.
#[derive(Debug)]
pub struct ExternalTrieCursor<C>(pub C);

impl<C> ExternalTrieCursor<C> {
    pub fn new(preimage_cursor: C) -> (r: Self)
        ensures
            r.0 == preimage_cursor,
    {
        Self(preimage_cursor)
    }
}

impl<C: ExternalDBTrieCursor> ExternalTrieCursor<C> {
    /// Read the branch at exactly this path.
    pub fn seek_exact(&mut self, key: Nibbles) -> (r: Result<
        Option<(Nibbles, BranchNodeCompact)>,
        DatabaseError,
    >)
        ensures
            exists|read: BranchRead|
                #![trigger C::seek_exact_outcome(old(self).0, key@, final(self).0, read)]
                C::seek_exact_outcome(old(self).0, key@, final(self).0, read) && handed_on(read, r),
    {
        let read = self.0.seek_exact(key);
        let ghost said = read;
        let r = hand_on(read);
        assert(C::seek_exact_outcome(old(self).0, key@, self.0, said) && handed_on(said, r));
        r
    }

    /// Read the first branch at this path or after it.
    pub fn seek(&mut self, key: Nibbles) -> (r: Result<
        Option<(Nibbles, BranchNodeCompact)>,
        DatabaseError,
    >)
        ensures
            exists|read: BranchRead|
                #![trigger C::seek_outcome(old(self).0, key@, final(self).0, read)]
                C::seek_outcome(old(self).0, key@, final(self).0, read) && handed_on(read, r),
    {
        let read = self.0.seek(key);
        let ghost said = read;
        let r = hand_on(read);
        assert(C::seek_outcome(old(self).0, key@, self.0, said) && handed_on(said, r));
        r
    }

    /// Read the first branch after the current path.
    pub fn next(&mut self) -> (r: Result<Option<(Nibbles, BranchNodeCompact)>, DatabaseError>)
        ensures
            exists|read: BranchRead|
                #![trigger C::next_outcome(old(self).0, final(self).0, read)]
                C::next_outcome(old(self).0, final(self).0, read) && handed_on(read, r),
    {
        let read = self.0.next();
        let ghost said = read;
        let r = hand_on(read);
        assert(C::next_outcome(old(self).0, self.0, said) && handed_on(said, r));
        r
    }

    /// The path of the branch that was read last.
    pub fn current(&mut self) -> (r: Result<Option<Nibbles>, DatabaseError>)
        ensures
            exists|read: ExternalStorageResult<Option<Nibbles>>|
                #![trigger C::current_outcome(old(self).0, final(self).0, read)]
                C::current_outcome(old(self).0, final(self).0, read) && handed_on(read, r),
    {
        let read = self.0.current();
        let ghost said = read;
        let r = hand_on(read);
        assert(C::current_outcome(old(self).0, self.0, said) && handed_on(said, r));
        r
    }
}

/// Makes cursors over the tries of a store at a block.
#[derive(Debug, Clone)]
pub struct ExternalTrieCursorFactory<P> {
    pub preimage_store: P,
    pub block_number: u64,
}

impl<P> ExternalTrieCursorFactory<P> {
    pub fn new(preimage_store: P, block_number: u64) -> (r: Self)
        ensures
            r.preimage_store == preimage_store,
            r.block_number == block_number,
    {
        Self { preimage_store, block_number }
    }
}

impl<P: ExternalStateStore> ExternalTrieCursorFactory<P> {
    /// A cursor over the state trie.
    pub fn account_trie_cursor(&self) -> (r: Result<
        ExternalTrieCursor<P::TrieCursor>,
        DatabaseError,
    >)
        ensures
            exists|made: ExternalStorageResult<P::TrieCursor>|
                #![trigger self.preimage_store.trie_cursor_outcome(None, self.block_number, made)]
                self.preimage_store.trie_cursor_outcome(None, self.block_number, made) && (
                match made {
                    Ok(cursor) => r is Ok && r->Ok_0.0 == cursor,
                    Err(error) => r is Err && r->Err_0@ == crate::storage::error_text(error@),
                }),
    {
        let made = self.preimage_store.trie_cursor(None, self.block_number);
        assert(self.preimage_store.trie_cursor_outcome(None, self.block_number, made));
        match made {
            Ok(cursor) => Ok(ExternalTrieCursor::new(cursor)),
            Err(error) => Err(error.into()),
        }
    }

    /// A cursor over the storage trie of an account.
    pub fn storage_trie_cursor(&self, hashed_address: B256) -> (r: Result<
        ExternalTrieCursor<P::TrieCursor>,
        DatabaseError,
    >)
        ensures
            exists|made: ExternalStorageResult<P::TrieCursor>|
                #![trigger self.preimage_store.trie_cursor_outcome(Some(hashed_address@), self.block_number, made)]
                self.preimage_store.trie_cursor_outcome(
                    Some(hashed_address@),
                    self.block_number,
                    made,
                ) && (match made {
                    Ok(cursor) => r is Ok && r->Ok_0.0 == cursor,
                    Err(error) => r is Err && r->Err_0@ == crate::storage::error_text(error@),
                }),
    {
        let made = self.preimage_store.trie_cursor(Some(hashed_address), self.block_number);
        assert(self.preimage_store.trie_cursor_outcome(
            Some(hashed_address@),
            self.block_number,
            made,
        ));
        match made {
            Ok(cursor) => Ok(ExternalTrieCursor::new(cursor)),
            Err(error) => Err(error.into()),
        }
    }
}

/// A cursor over account leaves.
#[derive(Debug, Clone)]
pub struct ExternalHashedAccountCursor<C>(pub C);

impl<C> ExternalHashedAccountCursor<C> {
    pub fn new(cursor: C) -> (r: Self)
        ensures
            r.0 == cursor,
    {
        Self(cursor)
    }
}

impl<C: ExternalHashedCursor<Value = Account>> ExternalHashedAccountCursor<C> {
    /// Read the first account at this key or after it.
    pub fn seek(&mut self, key: B256) -> (r: Result<Option<(B256, Account)>, DatabaseError>)
        ensures
            final(self).0.entries() == old(self).0.entries(),
            r matches Ok(found) ==> crate::storage::is_first_from(
                old(self).0.entries(),
                key@,
                true,
                found,
            ),
            r matches Ok(Some((at, _))) ==> final(self).0.position() == Some(at@),
            exists|read: ExternalStorageResult<Option<(B256, Account)>>|
                #![trigger C::seek_outcome(old(self).0, key@, final(self).0, read)]
                C::seek_outcome(old(self).0, key@, final(self).0, read) && handed_on(read, r),
    {
        let read = self.0.seek(key);
        let ghost said = read;
        let r = hand_on(read);
        assert(C::seek_outcome(old(self).0, key@, self.0, said) && handed_on(said, r));
        r
    }

    /// Read the next account.
    pub fn next(&mut self) -> (r: Result<Option<(B256, Account)>, DatabaseError>)
        ensures
            final(self).0.entries() == old(self).0.entries(),
            r is Ok && old(self).0.position() is Some ==> crate::storage::is_first_from(
                old(self).0.entries(),
                old(self).0.position()->0,
                false,
                r->Ok_0,
            ),
            r matches Ok(Some((at, _))) ==> final(self).0.position() == Some(at@),
            exists|read: ExternalStorageResult<Option<(B256, Account)>>|
                #![trigger C::next_outcome(old(self).0, final(self).0, read)]
                C::next_outcome(old(self).0, final(self).0, read) && handed_on(read, r),
    {
        let read = self.0.next();
        let ghost said = read;
        let r = hand_on(read);
        assert(C::next_outcome(old(self).0, self.0, said) && handed_on(said, r));
        r
    }
}

/// A cursor over storage leaves.
#[derive(Debug, Clone)]
pub struct ExternalHashedStorageCursor<C>(pub C);

impl<C> ExternalHashedStorageCursor<C> {
    pub fn new(cursor: C) -> (r: Self)
        ensures
            r.0 == cursor,
    {
        Self(cursor)
    }
}

impl<C: ExternalHashedCursor<Value = U256>> ExternalHashedStorageCursor<C> {
    /// Read the first slot at this key or after it.
    pub fn seek(&mut self, key: B256) -> (r: Result<Option<(B256, U256)>, DatabaseError>)
        ensures
            final(self).0.entries() == old(self).0.entries(),
            r matches Ok(found) ==> crate::storage::is_first_from(
                old(self).0.entries(),
                key@,
                true,
                found,
            ),
            r matches Ok(Some((at, _))) ==> final(self).0.position() == Some(at@),
            exists|read: ExternalStorageResult<Option<(B256, U256)>>|
                #![trigger C::seek_outcome(old(self).0, key@, final(self).0, read)]
                C::seek_outcome(old(self).0, key@, final(self).0, read) && handed_on(read, r),
    {
        let read = self.0.seek(key);
        let ghost said = read;
        let r = hand_on(read);
        assert(C::seek_outcome(old(self).0, key@, self.0, said) && handed_on(said, r));
        r
    }

    /// Read the next slot.
    pub fn next(&mut self) -> (r: Result<Option<(B256, U256)>, DatabaseError>)
        ensures
            final(self).0.entries() == old(self).0.entries(),
            r is Ok && old(self).0.position() is Some ==> crate::storage::is_first_from(
                old(self).0.entries(),
                old(self).0.position()->0,
                false,
                r->Ok_0,
            ),
            r matches Ok(Some((at, _))) ==> final(self).0.position() == Some(at@),
            exists|read: ExternalStorageResult<Option<(B256, U256)>>|
                #![trigger C::next_outcome(old(self).0, final(self).0, read)]
                C::next_outcome(old(self).0, final(self).0, read) && handed_on(read, r),
    {
        let read = self.0.next();
        let ghost said = read;
        let r = hand_on(read);
        assert(C::next_outcome(old(self).0, self.0, said) && handed_on(said, r));
        r
    }

    /// Whether there are no slots at all.
    pub fn is_storage_empty(&mut self) -> (r: Result<bool, DatabaseError>)
        ensures
            final(self).0.entries() == old(self).0.entries(),
            r matches Ok(empty) ==> empty == (old(self).0.entries().dom() == Set::<
                Seq<u8>,
            >::empty()),
            exists|read: ExternalStorageResult<bool>|
                #![trigger C::is_storage_empty_outcome(old(self).0, final(self).0, read)]
                C::is_storage_empty_outcome(old(self).0, final(self).0, read) && handed_on(read, r),
    {
        let read = self.0.is_storage_empty();
        let ghost said = read;
        let r = hand_on(read);
        assert(C::is_storage_empty_outcome(old(self).0, self.0, said) && handed_on(said, r));
        r
    }
}

/// Makes cursors over the leaves of a store at a block.
#[derive(Debug, Clone)]
pub struct ExternalHashedAccountCursorFactory<P> {
    pub preimage_store: P,
    pub block_number: u64,
}

impl<P> ExternalHashedAccountCursorFactory<P> {
    pub fn new(preimage_store: P, block_number: u64) -> (r: Self)
        ensures
            r.preimage_store == preimage_store,
            r.block_number == block_number,
    {
        Self { preimage_store, block_number }
    }
}

impl<P: ExternalStateStore> ExternalHashedAccountCursorFactory<P> {
    /// A cursor over the account leaves.
    pub fn hashed_account_cursor(&self) -> (r: Result<
        ExternalHashedAccountCursor<P::AccountHashedCursor>,
        DatabaseError,
    >)
        ensures
            exists|made: ExternalStorageResult<P::AccountHashedCursor>|
                #![trigger self.preimage_store.account_hashed_cursor_outcome(self.block_number, made)]
                self.preimage_store.account_hashed_cursor_outcome(self.block_number, made) && (
                match made {
                    Ok(cursor) => r is Ok && r->Ok_0.0 == cursor,
                    Err(error) => r is Err && r->Err_0@ == crate::storage::error_text(error@),
                }),
    {
        let made = self.preimage_store.account_hashed_cursor(self.block_number);
        assert(self.preimage_store.account_hashed_cursor_outcome(self.block_number, made));
        match made {
            Ok(cursor) => Ok(ExternalHashedAccountCursor::new(cursor)),
            Err(error) => Err(error.into()),
        }
    }

    /// A cursor over the storage leaves of an account.
    pub fn hashed_storage_cursor(&self, hashed_address: B256) -> (r: Result<
        ExternalHashedStorageCursor<P::StorageCursor>,
        DatabaseError,
    >)
        ensures
            exists|made: ExternalStorageResult<P::StorageCursor>|
                #![trigger self.preimage_store.storage_hashed_cursor_outcome(hashed_address@, self.block_number, made)]
                self.preimage_store.storage_hashed_cursor_outcome(
                    hashed_address@,
                    self.block_number,
                    made,
                ) && (match made {
                    Ok(cursor) => r is Ok && r->Ok_0.0 == cursor,
                    Err(error) => r is Err && r->Err_0@ == crate::storage::error_text(error@),
                }),
    {
        let made = self.preimage_store.storage_hashed_cursor(hashed_address, self.block_number);
        assert(self.preimage_store.storage_hashed_cursor_outcome(
            hashed_address@,
            self.block_number,
            made,
        ));
        match made {
            Ok(cursor) => Ok(ExternalHashedStorageCursor::new(cursor)),
            Err(error) => Err(error.into()),
        }
    }
}

/// The Keccak-256 hash of some bytes.
pub uninterp spec fn keccak256_of(bytes: Seq<u8>) -> Seq<u8>;

/// Hashes bytes, by `alloy_primitives::keccak256`.
///
/// Trusted: that the hash depends on the bytes alone.
#[verifier::external_body]
pub(crate) fn keccak256(bytes: &[u8]) -> (r: B256)
    ensures
        r@ == keccak256_of(bytes@),
{
    alloy_primitives::keccak256(bytes).0
}

/// The hash under which the state of an account is found.
pub fn hashed_address(address: &Address) -> (r: B256)
    ensures
        r@ == keccak256_of(address@),
{
    keccak256(address.as_slice())
}

/// The hashes under which slots of an account's storage are found, in order.
pub fn hashed_slots(slots: &[B256]) -> (r: Vec<B256>)
    ensures
        crate::primitives::hashes_view(r@) == Seq::new(
            slots@.len(),
            |i: int| keccak256_of(slots@[i]@),
        ),
{
    let mut hashed: Vec<B256> = Vec::new();
    let mut i: usize = 0;
    while i < slots.len()
        invariant
            i <= slots@.len(),
            hashed@.len() == i,
            forall|j: int| 0 <= j < i ==> (#[trigger] hashed@[j])@ == keccak256_of(slots@[j]@),
        decreases slots@.len() - i,
    {
        hashed.push(keccak256(slots[i].as_slice()));
        i += 1;
    }
    assert(crate::primitives::hashes_view(hashed@) =~= Seq::new(
        slots@.len(),
        |i: int| keccak256_of(slots@[i]@),
    ));
    hashed
}

/// What a store said is handed on as it is: a value as that value, and an error as its text.
pub proof fn law_handed_on<T>(read: ExternalStorageResult<T>, handed: Result<T, DatabaseError>)
    ensures
        handed_on(read, handed) <==> match (read, handed) {
            (Ok(value), Ok(given)) => given == value,
            (Err(error), Err(DatabaseError::Other(text))) => text@ == crate::storage::error_text(
                error@,
            ),
            _ => false,
        },
{
}

} // verus!

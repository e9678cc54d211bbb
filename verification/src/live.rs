//! What is stored of a block that was executed.
use vstd::prelude::*;

use crate::branch::{BranchNodeCompact, BranchView};
use crate::order::{bytes_before, bytes_equal};
use crate::primitives::{Nibbles, B256, U256};
use crate::storage::{Account, EntryView, PreimageEntry, StorageEntry, TrieBranchesBatch};
use crate::text::{decimal_text, joined, shown_hash_text};

verus! {

/// The changes to the storage trie of one account.
#[derive(Debug)]
pub struct StorageTrieUpdates {
    /// Whether the trie was deleted as a whole.
    pub is_deleted: bool,
    /// The branches that have a new value, each path once.
    pub storage_nodes: Vec<(Nibbles, BranchNodeCompact)>,
    /// The paths that have no branch any more, unless they have a new value.
    pub removed_nodes: Vec<Nibbles>,
}

/// The changes to the state trie and the storage tries.
#[derive(Debug)]
pub struct TrieUpdates {
    /// The branches of the state trie that have a new value, each path once.
    pub account_nodes: Vec<(Nibbles, BranchNodeCompact)>,
    /// The paths of the state trie that have no branch any more, unless they have a new
    /// value.
    pub removed_nodes: Vec<Nibbles>,
    /// The changes to storage tries, by hashed address.
    pub storage_tries: Vec<(B256, StorageTrieUpdates)>,
}

/// The paths and branches of a list of nodes.
pub open spec fn nodes_view(nodes: Seq<(Nibbles, BranchNodeCompact)>) -> Seq<(Seq<u8>, BranchView)> {
    Seq::new(nodes.len(), |i: int| (nodes[i].0@, nodes[i].1@))
}

/// The paths of a list.
pub open spec fn paths_view(paths: Seq<Nibbles>) -> Seq<Seq<u8>> {
    Seq::new(paths.len(), |i: int| paths[i]@)
}

/// Whether a path has a new value.
pub open spec fn has_node(nodes: Seq<(Seq<u8>, BranchView)>, path: Seq<u8>) -> bool {
    exists|i: int| 0 <= i < nodes.len() && (#[trigger] nodes[i]).0 == path
}

/// The entry for a path without a branch.
pub open spec fn removal(block_number: u64, hashed_address: Option<Seq<u8>>, path: Seq<u8>) -> EntryView {
    EntryView { block_number, path, hashed_address, branch: None }
}

/// The entry for a new value.
pub open spec fn update(
    block_number: u64,
    hashed_address: Option<Seq<u8>>,
    node: (Seq<u8>, BranchView),
) -> EntryView {
    EntryView { block_number, path: node.0, hashed_address, branch: Some(node.1) }
}

/// What is stored for a path of the state trie that was removed: nothing if it has a new
/// value, which takes precedence.
pub open spec fn account_removal(
    block_number: u64,
    nodes: Seq<(Seq<u8>, BranchView)>,
) -> spec_fn(Seq<u8>) -> Option<EntryView> {
    |path: Seq<u8>|
        if has_node(nodes, path) {
            None
        } else {
            Some(removal(block_number, None, path))
        }
}

/// What is stored for a new value in the state trie: nothing at the root.
pub open spec fn account_update(block_number: u64) -> spec_fn((Seq<u8>, BranchView)) -> Option<
    EntryView,
> {
    |node: (Seq<u8>, BranchView)|
        if node.0.len() == 0 {
            None
        } else {
            Some(update(block_number, None, node))
        }
}

/// What is stored of the state trie, in no particular order.
pub open spec fn account_entries(
    block_number: u64,
    removed: Seq<Seq<u8>>,
    nodes: Seq<(Seq<u8>, BranchView)>,
) -> Seq<EntryView> {
    removed.filter_map(account_removal(block_number, nodes)) + nodes.filter_map(
        account_update(block_number),
    )
}

/// What is stored for a path of a storage trie that was removed: nothing at the root or if
/// it has a new value, which takes precedence.
pub open spec fn storage_removal(
    block_number: u64,
    hashed_address: Seq<u8>,
    nodes: Seq<(Seq<u8>, BranchView)>,
) -> spec_fn(Seq<u8>) -> Option<EntryView> {
    |path: Seq<u8>|
        if path.len() == 0 || has_node(nodes, path) {
            None
        } else {
            Some(removal(block_number, Some(hashed_address), path))
        }
}

/// What is stored for a new value in a storage trie: nothing at the root.
pub open spec fn storage_update(
    block_number: u64,
    hashed_address: Seq<u8>,
) -> spec_fn((Seq<u8>, BranchView)) -> Option<EntryView> {
    |node: (Seq<u8>, BranchView)|
        if node.0.len() == 0 {
            None
        } else {
            Some(update(block_number, Some(hashed_address), node))
        }
}

/// What is stored of the storage trie of one account: what was removed, then what has a new
/// value.
pub open spec fn storage_entries(
    block_number: u64,
    hashed_address: Seq<u8>,
    updates: StorageTrieUpdates,
) -> Seq<EntryView> {
    let nodes = nodes_view(updates.storage_nodes@);
    paths_view(updates.removed_nodes@).filter_map(
        storage_removal(block_number, hashed_address, nodes),
    ) + nodes.filter_map(storage_update(block_number, hashed_address))
}

/// What is stored of the storage tries, account by account.
pub open spec fn all_storage_entries(
    block_number: u64,
    tries: Seq<(B256, StorageTrieUpdates)>,
) -> Seq<EntryView>
    decreases tries.len(),
{
    if tries.len() == 0 {
        Seq::empty()
    } else {
        all_storage_entries(block_number, tries.drop_last()) + storage_entries(
            block_number,
            tries.last().0@,
            tries.last().1,
        )
    }
}

/// Whether no path is in a list of nodes twice.
pub open spec fn distinct_nodes(nodes: Seq<(Seq<u8>, BranchView)>) -> bool {
    forall|i: int, j: int|
        0 <= i < j < nodes.len() ==> (#[trigger] nodes[i]).0 != (#[trigger] nodes[j]).0
}

/// Whether no path is in a list twice.
pub open spec fn distinct_paths(paths: Seq<Seq<u8>>) -> bool {
    forall|i: int, j: int| 0 <= i < j < paths.len() ==> #[trigger] paths[i] != #[trigger] paths[j]
}

impl StorageTrieUpdates {
    /// Whether a path occurs once among the new values, and once among the removals.
    pub open spec fn wf(self) -> bool {
        &&& distinct_nodes(nodes_view(self.storage_nodes@))
        &&& distinct_paths(paths_view(self.removed_nodes@))
    }
}

impl TrieUpdates {
    /// Whether a path of a trie occurs once among the new values, and once among the removals,
    /// and an account once among the storage tries.
    pub open spec fn wf(self) -> bool {
        &&& distinct_nodes(nodes_view(self.account_nodes@))
        &&& distinct_paths(paths_view(self.removed_nodes@))
        &&& forall|s: int, t: int|
            0 <= s < t < self.storage_tries@.len() ==> (#[trigger] self.storage_tries@[s]).0@ != (
            #[trigger] self.storage_tries@[t]).0@
        &&& forall|t: int|
            0 <= t < self.storage_tries@.len() ==> (#[trigger] self.storage_tries@[t]).1.wf()
    }
}

/// Whether entries are in the order of their paths, with no path twice.
pub open spec fn strictly_by_path(entries: Seq<EntryView>) -> bool {
    forall|i: int, j: int|
        0 <= i < j < entries.len() ==> crate::order::lex_lt(
            (#[trigger] entries[i]).path,
            (#[trigger] entries[j]).path,
        )
}

/// Whether no path of a trie has two entries.
pub open spec fn distinct_places(entries: Seq<EntryView>) -> bool {
    forall|i: int, j: int|
        0 <= i < j < entries.len() ==> ((#[trigger] entries[i]).hashed_address, entries[i].path)
            != ((#[trigger] entries[j]).hashed_address, entries[j].path)
}

/// Whether entries are in the order of their paths.
pub open spec fn sorted_by_path(entries: Seq<EntryView>) -> bool {
    forall|i: int, j: int|
        0 <= i < j < entries.len() ==> crate::order::lex_le(
            (#[trigger] entries[i]).path,
            (#[trigger] entries[j]).path,
        )
}

/// Whether a path has a new value.
fn contains_path(nodes: &Vec<(Nibbles, BranchNodeCompact)>, path: &Nibbles) -> (r: bool)
    ensures
        r <==> exists|i: int| 0 <= i < nodes@.len() && (#[trigger] nodes@[i]).0@ == path@,
        r == has_node(nodes_view(nodes@), path@),
{
    let mut i: usize = 0;
    while i < nodes.len()
        invariant
            i <= nodes@.len(),
            forall|j: int| 0 <= j < i ==> (#[trigger] nodes@[j]).0@ != path@,
            forall|j: int| 0 <= j < i ==> (#[trigger] nodes_view(nodes@)[j]).0 != path@,
        decreases nodes@.len() - i,
    {
        if bytes_equal(nodes[i].0.as_slice(), path.as_slice()) {
            assert(nodes_view(nodes@)[i as int].0 == path@);
            return true;
        }
        i += 1;
    }
    false
}

/// Puts an entry into a list that is in the order of paths, behind those of its own path.
fn insert_sorted(items: &mut Vec<PreimageEntry>, entry: PreimageEntry)
    requires
        sorted_by_path(crate::storage::entries_view(old(items)@)),
    ensures
        sorted_by_path(crate::storage::entries_view(final(items)@)),
        crate::storage::entries_view(final(items)@).to_multiset() == crate::storage::entries_view(
            old(items)@,
        ).to_multiset().insert(entry@),
        final(items)@.len() == old(items)@.len() + 1,
{
    let ghost before = crate::storage::entries_view(items@);
    let mut at: usize = items.len();
    while at > 0 && bytes_before(entry.path.as_slice(), items[at - 1].path.as_slice())
        invariant
            at <= items@.len(),
            before == crate::storage::entries_view(items@),
            forall|j: int|
                at <= j < before.len() ==> crate::order::lex_lt(
                    entry.path@,
                    (#[trigger] before[j]).path,
                ),
        decreases at,
    {
        assert(before[at - 1].path == items@[at - 1].path@);
        at -= 1;
    }
    let ghost view = entry@;
    items.insert(at, entry);
    proof {
        let after = crate::storage::entries_view(items@);
        assert(after =~= before.insert(at as int, view));
        broadcast use vstd::seq_lib::group_to_multiset_ensures;

        if at > 0 {
            assert(!crate::order::lex_lt(view.path, before[at - 1].path));
            crate::order::lemma_lex_total(view.path, before[at - 1].path);
        }
        assert forall|i: int, j: int| 0 <= i < j < after.len() implies crate::order::lex_le(
            (#[trigger] after[i]).path,
            (#[trigger] after[j]).path,
        ) by {
            if j == at {
                assert(after[i] == before[i]);
                if i < at - 1 {
                    assert(crate::order::lex_le(before[i].path, before[at - 1].path));
                    if before[i].path != before[at - 1].path && before[at - 1].path != view.path {
                        crate::order::lemma_lex_transitive(
                            before[i].path,
                            before[at - 1].path,
                            view.path,
                        );
                    }
                }
            } else if i == at {
                assert(after[j] == before[j - 1]);
            } else {
                let a = if i < at {
                    i
                } else {
                    i - 1
                };
                let b = if j < at {
                    j
                } else {
                    j - 1
                };
                assert(after[i] == before[a]);
                assert(after[j] == before[b]);
            }
        }
    }
}

/// The state trie's entries of a block: every removal that no new value overrides, and every
/// new value but that of the root, in the order of paths.
pub fn account_trie_batch(updates: &TrieUpdates, block_number: u64) -> (r: TrieBranchesBatch)
    ensures
        r.block_number == block_number,
        r.wf(),
        sorted_by_path(crate::storage::entries_view(r.items@)),
        crate::storage::entries_view(r.items@).to_multiset() == account_entries(
            block_number,
            paths_view(updates.removed_nodes@),
            nodes_view(updates.account_nodes@),
        ).to_multiset(),
        r.items@.len() == account_entries(
            block_number,
            paths_view(updates.removed_nodes@),
            nodes_view(updates.account_nodes@),
        ).len(),
{
    let ghost removed = paths_view(updates.removed_nodes@);
    let ghost nodes = nodes_view(updates.account_nodes@);
    let ghost f = account_removal(block_number, nodes);
    let ghost g = account_update(block_number);
    let ghost mut taken: Seq<EntryView> = Seq::empty();
    let mut items: Vec<PreimageEntry> = Vec::new();
    proof {
        broadcast use vstd::seq_lib::group_to_multiset_ensures;

        assert(crate::storage::entries_view(items@) =~= Seq::empty());
        assert(removed.take(0).filter_map(f) =~= Seq::empty());
    }
    let mut i: usize = 0;
    while i < updates.removed_nodes.len()
        invariant
            i <= updates.removed_nodes@.len(),
            removed == paths_view(updates.removed_nodes@),
            nodes == nodes_view(updates.account_nodes@),
            f == account_removal(block_number, nodes),
            taken == removed.take(i as int).filter_map(f),
            sorted_by_path(crate::storage::entries_view(items@)),
            crate::storage::entries_view(items@).to_multiset() == taken.to_multiset(),
        decreases updates.removed_nodes@.len() - i,
    {
        let path = &updates.removed_nodes[i];
        proof {
            removed.lemma_filter_map_take_succ(f, i as int);
            assert(removed[i as int] == path@);
        }
        if !contains_path(&updates.account_nodes, path) {
            let entry = PreimageEntry {
                block_number,
                path: path.clone(),
                hashed_address: None,
                branch: None,
            };
            let ghost view = entry@;
            insert_sorted(&mut items, entry);
            proof {
                broadcast use vstd::seq_lib::group_to_multiset_ensures;

                assert(f(removed[i as int]) == Some(view));
                assert(taken + seq![view] =~= taken.push(view));
                taken = taken.push(view);
            }
        }
        assert(taken =~= removed.take(i + 1).filter_map(f));
        i += 1;
    }
    let ghost first = taken;
    proof {
        assert(removed.take(removed.len() as int) =~= removed);
        assert(nodes.take(0).filter_map(g) =~= Seq::empty());
        assert(first + Seq::<EntryView>::empty() =~= first);
    }
    let mut k: usize = 0;
    while k < updates.account_nodes.len()
        invariant
            k <= updates.account_nodes@.len(),
            nodes == nodes_view(updates.account_nodes@),
            g == account_update(block_number),
            taken == first + nodes.take(k as int).filter_map(g),
            sorted_by_path(crate::storage::entries_view(items@)),
            crate::storage::entries_view(items@).to_multiset() == taken.to_multiset(),
        decreases updates.account_nodes@.len() - k,
    {
        let (path, node) = &updates.account_nodes[k];
        proof {
            nodes.lemma_filter_map_take_succ(g, k as int);
            assert(nodes[k as int] == (path@, node@));
        }
        if !path.is_empty() {
            let entry = PreimageEntry {
                block_number,
                path: path.clone(),
                hashed_address: None,
                branch: Some(node.clone()),
            };
            let ghost view = entry@;
            insert_sorted(&mut items, entry);
            proof {
                broadcast use vstd::seq_lib::group_to_multiset_ensures;

                assert(g(nodes[k as int]) == Some(view));
                assert(first + (nodes.take(k as int).filter_map(g) + seq![view]) =~= taken.push(
                    view,
                ));
                taken = taken.push(view);
            }
        }
        assert(taken =~= first + nodes.take(k + 1).filter_map(g));
        k += 1;
    }
    proof {
        broadcast use vstd::seq_lib::group_to_multiset_ensures;

        assert(nodes.take(nodes.len() as int) =~= nodes);
        assert(taken == account_entries(block_number, removed, nodes));
        assert(crate::storage::entries_view(items@).to_multiset().len()
            == taken.to_multiset().len());
        lemma_entries_of_block(block_number, removed, nodes);
        assert forall|j: int| 0 <= j < items@.len() implies (#[trigger] items@[j]).block_number
            == block_number by {
            let view = crate::storage::entries_view(items@);
            assert(view[j] == items@[j]@);
            assert(view.contains(view[j]));
            assert(view.to_multiset().count(view[j]) > 0);
            assert(taken.contains(view[j]));
        }
    }
    TrieBranchesBatch { block_number, items }
}

/// All entries of a block's state trie are of that block and of the state trie.
proof fn lemma_entries_of_block(
    block_number: u64,
    removed: Seq<Seq<u8>>,
    nodes: Seq<(Seq<u8>, BranchView)>,
)
    ensures
        forall|entry: EntryView| #[trigger]
            account_entries(block_number, removed, nodes).contains(entry) ==> entry.block_number
                == block_number && entry.hashed_address is None,
{
    let f = account_removal(block_number, nodes);
    let g = account_update(block_number);
    assert forall|entry: EntryView| #[trigger]
        account_entries(block_number, removed, nodes).contains(entry) implies entry.block_number
        == block_number && entry.hashed_address is None by {
        let a = removed.filter_map(f);
        let b = nodes.filter_map(g);
        let i = choose|i: int| 0 <= i < (a + b).len() && (a + b)[i] == entry;
        if i < a.len() {
            assert(a.contains(a[i]));
            removed.lemma_filter_map_contains(f, entry);
        } else {
            assert(b.contains(b[i - a.len()]));
            nodes.lemma_filter_map_contains(g, entry);
        }
    }
}

/// The storage tries' entries of a block, account by account: for each account every removal
/// that no new value overrides, then every new value, without those of the root.
pub fn storage_tries_batch(tries: &Vec<(B256, StorageTrieUpdates)>, block_number: u64) -> (r:
    TrieBranchesBatch)
    ensures
        r.block_number == block_number,
        r.wf(),
        crate::storage::entries_view(r.items@) == all_storage_entries(block_number, tries@),
{
    let mut items: Vec<PreimageEntry> = Vec::new();
    let mut t: usize = 0;
    assert(tries@.take(0).len() == 0);
    assert(crate::storage::entries_view(items@) =~= Seq::empty());
    while t < tries.len()
        invariant
            t <= tries@.len(),
            crate::storage::entries_view(items@) == all_storage_entries(
                block_number,
                tries@.take(t as int),
            ),
            forall|j: int|
                0 <= j < items@.len() ==> (#[trigger] items@[j]).block_number == block_number,
        decreases tries@.len() - t,
    {
        let (hashed_address, updates) = &tries[t];
        let ghost done = crate::storage::entries_view(items@);
        push_storage_entries(&mut items, block_number, hashed_address, updates);
        proof {
            let longer = tries@.take(t + 1);
            assert(longer.drop_last() =~= tries@.take(t as int));
            assert(longer.last() == tries@[t as int]);
        }
        t += 1;
    }
    assert(tries@.take(tries@.len() as int) =~= tries@);
    TrieBranchesBatch { block_number, items }
}

/// Puts the entries of one account's storage trie at the end of a list.
fn push_storage_entries(
    items: &mut Vec<PreimageEntry>,
    block_number: u64,
    hashed_address: &B256,
    updates: &StorageTrieUpdates,
)
    requires
        forall|j: int|
            0 <= j < old(items)@.len() ==> (#[trigger] old(items)@[j]).block_number == block_number,
    ensures
        crate::storage::entries_view(final(items)@) == crate::storage::entries_view(old(items)@)
            + storage_entries(block_number, hashed_address@, *updates),
        forall|j: int|
            0 <= j < final(items)@.len() ==> (#[trigger] final(items)@[j]).block_number
                == block_number,
{
    let ghost start = crate::storage::entries_view(items@);
    let ghost removed = paths_view(updates.removed_nodes@);
    let ghost nodes = nodes_view(updates.storage_nodes@);
    let ghost f = storage_removal(block_number, hashed_address@, nodes);
    let ghost g = storage_update(block_number, hashed_address@);
    assert(removed.take(0).filter_map(f) =~= Seq::empty());
    let mut i: usize = 0;
    while i < updates.removed_nodes.len()
        invariant
            i <= updates.removed_nodes@.len(),
            removed == paths_view(updates.removed_nodes@),
            nodes == nodes_view(updates.storage_nodes@),
            f == storage_removal(block_number, hashed_address@, nodes),
            crate::storage::entries_view(items@) =~= start + removed.take(i as int).filter_map(f),
            forall|j: int|
                0 <= j < items@.len() ==> (#[trigger] items@[j]).block_number == block_number,
        decreases updates.removed_nodes@.len() - i,
    {
        let path = &updates.removed_nodes[i];
        let ghost before = crate::storage::entries_view(items@);
        proof {
            removed.lemma_filter_map_take_succ(f, i as int);
            assert(removed[i as int] == path@);
        }
        if !contains_path(&updates.storage_nodes, path) && !path.is_empty() {
            let entry = PreimageEntry {
                block_number,
                path: path.clone(),
                hashed_address: Some(*hashed_address),
                branch: None,
            };
            assert(f(removed[i as int]) == Some(entry@));
            let ghost view = entry@;
            items.push(entry);
            assert(crate::storage::entries_view(items@) =~= before.push(view));
        }
        i += 1;
    }
    let ghost first = crate::storage::entries_view(items@);
    assert(removed.take(removed.len() as int) =~= removed);
    assert(nodes.take(0).filter_map(g) =~= Seq::empty());
    let mut k: usize = 0;
    while k < updates.storage_nodes.len()
        invariant
            k <= updates.storage_nodes@.len(),
            nodes == nodes_view(updates.storage_nodes@),
            g == storage_update(block_number, hashed_address@),
            crate::storage::entries_view(items@) =~= first + nodes.take(k as int).filter_map(g),
            forall|j: int|
                0 <= j < items@.len() ==> (#[trigger] items@[j]).block_number == block_number,
        decreases updates.storage_nodes@.len() - k,
    {
        let (path, node) = &updates.storage_nodes[k];
        let ghost before = crate::storage::entries_view(items@);
        proof {
            nodes.lemma_filter_map_take_succ(g, k as int);
            assert(nodes[k as int] == (path@, node@));
        }
        if !path.is_empty() {
            let entry = PreimageEntry {
                block_number,
                path: path.clone(),
                hashed_address: Some(*hashed_address),
                branch: Some(node.clone()),
            };
            assert(g(nodes[k as int]) == Some(entry@));
            let ghost view = entry@;
            items.push(entry);
            assert(crate::storage::entries_view(items@) =~= before.push(view));
        }
        k += 1;
    }
    assert(nodes.take(nodes.len() as int) =~= nodes);
}

/// The trie changes of a block as they are stored.
#[derive(Debug, PartialEq, Eq)]
pub struct TrieWrites {
    /// The state trie, which is stored first.
    pub account_branches: TrieBranchesBatch,
    /// The storage tries.
    pub storage_branches: TrieBranchesBatch,
    /// How many entries there are in both.
    pub num_entries: u128,
}

/// The number of entries that a block's trie changes make.
pub open spec fn trie_entry_count(updates: TrieUpdates, block_number: u64) -> nat {
    account_entries(
        block_number,
        paths_view(updates.removed_nodes@),
        nodes_view(updates.account_nodes@),
    ).len() + all_storage_entries(block_number, updates.storage_tries@).len()
}

/// Whether `writes` is what is stored of a block's trie changes.
pub open spec fn are_trie_writes(
    updates: TrieUpdates,
    block_number: u64,
    writes: TrieWrites,
) -> bool {
    &&& writes.account_branches.block_number == block_number
    &&& writes.account_branches.wf()
    &&& sorted_by_path(crate::storage::entries_view(writes.account_branches.items@))
    &&& crate::storage::entries_view(writes.account_branches.items@).to_multiset()
        == account_entries(
        block_number,
        paths_view(updates.removed_nodes@),
        nodes_view(updates.account_nodes@),
    ).to_multiset()
    &&& writes.storage_branches.block_number == block_number
    &&& writes.storage_branches.wf()
    &&& crate::storage::entries_view(writes.storage_branches.items@) == all_storage_entries(
        block_number,
        updates.storage_tries@,
    )
    &&& writes.num_entries == trie_entry_count(updates, block_number)
    &&& updates.wf() ==> {
        &&& strictly_by_path(crate::storage::entries_view(writes.account_branches.items@))
        &&& distinct_places(crate::storage::entries_view(writes.storage_branches.items@))
    }
}

/// What elements with different places are mapped to has different places.
proof fn lemma_filter_map_distinct<A>(s: Seq<A>, f: spec_fn(A) -> Option<EntryView>)
    requires
        forall|i: int, j: int|
            0 <= i < j < s.len() && f(#[trigger] s[i]) is Some && f(#[trigger] s[j]) is Some ==> (
            f(s[i])->0.hashed_address,
            f(s[i])->0.path,
        ) != (f(s[j])->0.hashed_address, f(s[j])->0.path),
    ensures
        distinct_places(s.filter_map(f)),
    decreases s.len(),
{
    if s.len() > 0 {
        let front = s.drop_last();
        let rest = front.filter_map(f);
        let all = s.filter_map(f);
        assert forall|i: int, j: int|
            0 <= i < j < front.len() && f(#[trigger] front[i]) is Some && f(
                #[trigger] front[j],
            ) is Some implies (f(front[i])->0.hashed_address, f(front[i])->0.path) != (
            f(front[j])->0.hashed_address,
            f(front[j])->0.path,
        ) by {
            assert(front[i] == s[i]);
            assert(front[j] == s[j]);
        }
        lemma_filter_map_distinct(front, f);
        s.lemma_filter_map_take_succ(f, s.len() - 1);
        assert(s.take(s.len() - 1) =~= front);
        assert(s.take(s.len() as int) =~= s);
        assert forall|i: int, j: int| 0 <= i < j < all.len() implies (
            (#[trigger] all[i]).hashed_address,
            all[i].path,
        ) != ((#[trigger] all[j]).hashed_address, all[j].path) by {
            assert(all[i] == rest[i]);
            if j < rest.len() {
                assert(all[j] == rest[j]);
            } else {
                assert(rest.contains(rest[i]));
                front.lemma_filter_map_contains(f, rest[i]);
                let k = choose|k: int|
                    0 <= k < front.len() && #[trigger] f(front[k]) == Some(rest[i]);
                assert(front[k] == s[k]);
                assert(f(s[s.len() - 1]) is Some);
            }
        }
    }
}

/// Lists with different places, of which none is in both, put together.
proof fn lemma_distinct_add(a: Seq<EntryView>, b: Seq<EntryView>)
    requires
        distinct_places(a),
        distinct_places(b),
        forall|x: EntryView, y: EntryView| #[trigger]
            a.contains(x) && #[trigger] b.contains(y) ==> (x.hashed_address, x.path) != (
            y.hashed_address,
            y.path,
        ),
    ensures
        distinct_places(a + b),
{
    let all = a + b;
    assert forall|i: int, j: int| 0 <= i < j < all.len() implies (
        (#[trigger] all[i]).hashed_address,
        all[i].path,
    ) != ((#[trigger] all[j]).hashed_address, all[j].path) by {
        if j < a.len() {
            assert(all[i] == a[i] && all[j] == a[j]);
        } else if i >= a.len() {
            assert(all[i] == b[i - a.len()] && all[j] == b[j - a.len()]);
        } else {
            assert(a.contains(a[i]));
            assert(b.contains(b[j - a.len()]));
        }
    }
}

/// A block has one entry for a path of the state trie.
proof fn lemma_account_entries_distinct(
    block_number: u64,
    removed: Seq<Seq<u8>>,
    nodes: Seq<(Seq<u8>, BranchView)>,
)
    requires
        distinct_nodes(nodes),
        distinct_paths(removed),
    ensures
        distinct_places(account_entries(block_number, removed, nodes)),
{
    let f = account_removal(block_number, nodes);
    let g = account_update(block_number);
    let a = removed.filter_map(f);
    let b = nodes.filter_map(g);
    lemma_filter_map_distinct(removed, f);
    lemma_filter_map_distinct(nodes, g);
    assert forall|x: EntryView, y: EntryView| #[trigger] a.contains(x) && #[trigger] b.contains(
        y,
    ) implies (x.hashed_address, x.path) != (y.hashed_address, y.path) by {
        removed.lemma_filter_map_contains(f, x);
        nodes.lemma_filter_map_contains(g, y);
        let k = choose|k: int| 0 <= k < nodes.len() && #[trigger] g(nodes[k]) == Some(y);
        assert(nodes[k].0 == y.path);
    }
    lemma_distinct_add(a, b);
}

/// A block has one entry for a path of a storage trie.
proof fn lemma_storage_entries_distinct(
    block_number: u64,
    hashed_address: Seq<u8>,
    updates: StorageTrieUpdates,
)
    requires
        updates.wf(),
    ensures
        distinct_places(storage_entries(block_number, hashed_address, updates)),
{
    let removed = paths_view(updates.removed_nodes@);
    let nodes = nodes_view(updates.storage_nodes@);
    let f = storage_removal(block_number, hashed_address, nodes);
    let g = storage_update(block_number, hashed_address);
    let a = removed.filter_map(f);
    let b = nodes.filter_map(g);
    lemma_filter_map_distinct(removed, f);
    lemma_filter_map_distinct(nodes, g);
    assert forall|x: EntryView, y: EntryView| #[trigger] a.contains(x) && #[trigger] b.contains(
        y,
    ) implies (x.hashed_address, x.path) != (y.hashed_address, y.path) by {
        removed.lemma_filter_map_contains(f, x);
        nodes.lemma_filter_map_contains(g, y);
        let k = choose|k: int| 0 <= k < nodes.len() && #[trigger] g(nodes[k]) == Some(y);
        assert(nodes[k].0 == y.path);
    }
    lemma_distinct_add(a, b);
}

/// A block has one entry for a path of any storage trie.
proof fn lemma_all_storage_entries_distinct(
    block_number: u64,
    tries: Seq<(B256, StorageTrieUpdates)>,
)
    requires
        forall|s: int, t: int|
            0 <= s < t < tries.len() ==> (#[trigger] tries[s]).0@ != (#[trigger] tries[t]).0@,
        forall|t: int| 0 <= t < tries.len() ==> (#[trigger] tries[t]).1.wf(),
    ensures
        distinct_places(all_storage_entries(block_number, tries)),
    decreases tries.len(),
{
    if tries.len() > 0 {
        let front = tries.drop_last();
        let last = tries.len() - 1;
        let a = all_storage_entries(block_number, front);
        let b = storage_entries(block_number, tries.last().0@, tries.last().1);
        assert forall|s: int, t: int| 0 <= s < t < front.len() implies (
        #[trigger] front[s]).0@ != (#[trigger] front[t]).0@ by {
            assert(front[s] == tries[s] && front[t] == tries[t]);
        }
        assert forall|t: int| 0 <= t < front.len() implies (#[trigger] front[t]).1.wf() by {
            assert(front[t] == tries[t]);
        }
        lemma_all_storage_entries_distinct(block_number, front);
        assert(tries[last].1.wf());
        lemma_storage_entries_distinct(block_number, tries.last().0@, tries.last().1);
        assert forall|x: EntryView, y: EntryView| #[trigger] a.contains(x)
            && #[trigger] b.contains(y) implies (x.hashed_address, x.path) != (
            y.hashed_address,
            y.path,
        ) by {
            law_all_storage_entries(block_number, front, x);
            let t = choose|t: int|
                0 <= t < front.len() && storage_entries(
                    block_number,
                    (#[trigger] front[t]).0@,
                    front[t].1,
                ).contains(x);
            law_storage_entries(block_number, front[t].0@, front[t].1, x);
            law_storage_entries(block_number, tries.last().0@, tries.last().1, y);
            assert(front[t] == tries[t]);
            assert(tries[t].0@ != tries[last].0@);
        }
        lemma_distinct_add(a, b);
    }
}

/// Entries in the order of their paths that are those of a block's state trie have no path
/// twice.
proof fn lemma_strictly_by_path(
    block_number: u64,
    removed: Seq<Seq<u8>>,
    nodes: Seq<(Seq<u8>, BranchView)>,
    stored: Seq<EntryView>,
)
    requires
        distinct_nodes(nodes),
        distinct_paths(removed),
        sorted_by_path(stored),
        stored.to_multiset() == account_entries(block_number, removed, nodes).to_multiset(),
    ensures
        strictly_by_path(stored),
{
    broadcast use vstd::seq_lib::group_to_multiset_ensures;

    let all = account_entries(block_number, removed, nodes);
    lemma_account_entries_distinct(block_number, removed, nodes);
    lemma_entries_of_block(block_number, removed, nodes);
    assert(all.no_duplicates());
    all.lemma_multiset_has_no_duplicates();
    stored.lemma_multiset_has_no_duplicates_conv();
    assert forall|i: int, j: int| 0 <= i < j < stored.len() implies crate::order::lex_lt(
        (#[trigger] stored[i]).path,
        (#[trigger] stored[j]).path,
    ) by {
        assert(crate::order::lex_le(stored[i].path, stored[j].path));
        if stored[i].path == stored[j].path {
            assert(stored.contains(stored[i]) && stored.contains(stored[j]));
            assert(stored.to_multiset().count(stored[i]) > 0);
            assert(stored.to_multiset().count(stored[j]) > 0);
            assert(all.contains(stored[i]) && all.contains(stored[j]));
            let a = choose|a: int| 0 <= a < all.len() && all[a] == stored[i];
            let b = choose|b: int| 0 <= b < all.len() && all[b] == stored[j];
            if a == b {
                assert(stored[i] == stored[j]);
            } else if a < b {
                assert(all[a].path != all[b].path);
            } else {
                assert(all[b].path != all[a].path);
            }
        }
    }
}

/// What is stored of a block's trie changes.
pub fn write_trie_updates(updates: &TrieUpdates, block_number: u64) -> (r: TrieWrites)
    ensures
        are_trie_writes(*updates, block_number, r),
{
    let account_branches = account_trie_batch(updates, block_number);
    let storage_branches = storage_tries_batch(&updates.storage_tries, block_number);
    assert(crate::storage::entries_view(storage_branches.items@).len()
        == storage_branches.items@.len());
    let num_entries: u128 = account_branches.items.len() as u128
        + storage_branches.items.len() as u128;
    proof {
        if updates.wf() {
            lemma_strictly_by_path(
                block_number,
                paths_view(updates.removed_nodes@),
                nodes_view(updates.account_nodes@),
                crate::storage::entries_view(account_branches.items@),
            );
            lemma_all_storage_entries_distinct(block_number, updates.storage_tries@);
        }
    }
    TrieWrites { account_branches, storage_branches, num_entries }
}

/// The slots of one account's storage that have a new value.
#[derive(Debug)]
pub struct HashedStorage {
    /// Whether all slots were cleared first.
    pub wiped: bool,
    /// The slots by hashed key.
    pub storage: Vec<(B256, U256)>,
}

/// The state that a block leaves, as far as it changed.
#[derive(Debug)]
pub struct HashedPostState {
    /// The accounts by hashed address, `None` if the account was deleted.
    pub accounts: Vec<(B256, Option<Account>)>,
    /// The storages by hashed address.
    pub storages: Vec<(B256, HashedStorage)>,
}

/// The leaf changes of a block as they are stored.
#[derive(Debug, PartialEq, Eq)]
pub struct LeafWrites {
    /// The block at which they are stored.
    pub block_number: u64,
    /// The accounts, which are stored first.
    pub accounts: Vec<(B256, Option<Account>)>,
    /// The slots, account by account, each with the hashed address.
    pub storages: Vec<Vec<(B256, StorageEntry)>>,
    /// How many accounts and slots there are.
    pub num_entries: u128,
}

/// The slots of one account, each with the hashed address.
pub open spec fn storage_leaves(hashed_address: B256, slots: Seq<(B256, U256)>) -> Seq<
    (B256, StorageEntry),
> {
    Seq::new(
        slots.len(),
        |i: int| (hashed_address, StorageEntry { key: slots[i].0, value: slots[i].1 }),
    )
}

/// The number of slots of all accounts.
pub open spec fn slot_count(storages: Seq<(B256, HashedStorage)>) -> nat
    decreases storages.len(),
{
    if storages.len() == 0 {
        0
    } else {
        slot_count(storages.drop_last()) + storages.last().1.storage@.len()
    }
}

/// Whether `writes` is what is stored of a block's leaf changes.
pub open spec fn are_leaf_writes(
    state: HashedPostState,
    block_number: u64,
    writes: LeafWrites,
) -> bool {
    &&& writes.block_number == block_number
    &&& writes.accounts@ == state.accounts@
    &&& writes.storages@.len() == state.storages@.len()
    &&& forall|i: int|
        0 <= i < state.storages@.len() ==> (#[trigger] writes.storages@[i])@ == storage_leaves(
            state.storages@[i].0,
            state.storages@[i].1.storage@,
        )
    &&& writes.num_entries == state.accounts@.len() + slot_count(state.storages@)
}

/// What is stored of a block's leaf changes.
pub fn write_leaf_updates(post_state: HashedPostState, block_number: u64) -> (r: LeafWrites)
    ensures
        are_leaf_writes(post_state, block_number, r),
{
    let mut num_entries: u128 = post_state.accounts.len() as u128;
    let mut storages: Vec<Vec<(B256, StorageEntry)>> = Vec::new();
    let mut i: usize = 0;
    assert(post_state.storages@.take(0).len() == 0);
    while i < post_state.storages.len()
        invariant
            i <= post_state.storages@.len(),
            storages@.len() == i,
            forall|j: int|
                0 <= j < i ==> (#[trigger] storages@[j])@ == storage_leaves(
                    post_state.storages@[j].0,
                    post_state.storages@[j].1.storage@,
                ),
            num_entries == post_state.accounts@.len() + slot_count(
                post_state.storages@.take(i as int),
            ),
            num_entries <= (i + 1) * 0xffff_ffff_ffff_ffff,
        decreases post_state.storages@.len() - i,
    {
        let (hashed_address, storage) = &post_state.storages[i];
        let mut leaves: Vec<(B256, StorageEntry)> = Vec::new();
        let ghost all = storage_leaves(*hashed_address, storage.storage@);
        let mut k: usize = 0;
        while k < storage.storage.len()
            invariant
                k <= storage.storage@.len(),
                all == storage_leaves(*hashed_address, storage.storage@),
                leaves@ =~= all.take(k as int),
            decreases storage.storage@.len() - k,
        {
            let (key, value) = storage.storage[k];
            leaves.push((*hashed_address, StorageEntry { key, value }));
            k += 1;
        }
        assert(leaves@ =~= all);
        proof {
            let longer = post_state.storages@.take(i + 1);
            assert(longer.drop_last() =~= post_state.storages@.take(i as int));
            assert(longer.last() == post_state.storages@[i as int]);
        }
        num_entries = num_entries + leaves.len() as u128;
        storages.push(leaves);
        i += 1;
    }
    assert(post_state.storages@.take(post_state.storages@.len() as int) =~= post_state.storages@);
    LeafWrites { block_number, accounts: post_state.accounts, storages, num_entries }
}

/// Executes blocks and stores what they change. What executes blocks, what provides state
/// and what stores are up to the node.
#[derive(Debug)]
pub struct LiveTrieCollector<Evm, Provider, Store> {
    pub evm_config: Evm,
    pub provider: Provider,
    pub storage: Store,
}

/// A block whose parent's state is stored: it can be executed on it.
#[derive(Debug, PartialEq, Eq)]
pub struct PendingBlock {
    block_number: u64,
}

/// All that is stored of a block, in the order in which it is stored.
#[derive(Debug, PartialEq, Eq)]
pub struct BlockWrites {
    pub trie: TrieWrites,
    pub leaves: LeafWrites,
}

/// One call to the store.
#[derive(Debug, PartialEq, Eq)]
pub enum BlockWrite {
    /// Store these branches.
    Branches(TrieBranchesBatch),
    /// Store these account leaves at a block.
    Accounts { accounts: Vec<(B256, Option<Account>)>, block_number: u64 },
    /// Store these storage leaves of one account at a block.
    Storages { storages: Vec<(B256, StorageEntry)>, block_number: u64 },
}

impl BlockWrite {
    /// The block at which it stores.
    pub open spec fn block(self) -> u64 {
        match self {
            BlockWrite::Branches(batch) => batch.block_number,
            BlockWrite::Accounts { block_number, .. } => block_number,
            BlockWrite::Storages { block_number, .. } => block_number,
        }
    }
}

/// The calls that store a block, in order: the state trie, the storage tries, the account leaves,
/// and the storage leaves account by account.
pub open spec fn block_writes(writes: BlockWrites) -> Seq<BlockWrite> {
    seq![
        BlockWrite::Branches(writes.trie.account_branches),
        BlockWrite::Branches(writes.trie.storage_branches),
        BlockWrite::Accounts {
            accounts: writes.leaves.accounts,
            block_number: writes.leaves.block_number,
        },
    ] + Seq::new(
        writes.leaves.storages@.len(),
        |i: int|
            BlockWrite::Storages {
                storages: writes.leaves.storages@[i],
                block_number: writes.leaves.block_number,
            },
    )
}

/// The storing of a block, one call at a time. A call that fails ends it.
#[derive(Debug)]
pub struct BlockWriteRun {
    /// The calls that are left, the next one last.
    waiting: Vec<BlockWrite>,
}

impl View for BlockWriteRun {
    type V = Seq<BlockWrite>;

    /// The calls that are left after the one that was handed out, in order.
    closed spec fn view(&self) -> Seq<BlockWrite> {
        self.waiting@.reverse()
    }
}

impl BlockWriteRun {
    /// The first call, and the run with the others.
    pub fn start(writes: BlockWrites) -> (r: (Self, Option<BlockWrite>))
        ensures
            r.1 == Some(block_writes(writes)[0]),
            r.0@ == block_writes(writes).skip(1),
    {
        let ghost leaves = writes.leaves;
        let ghost all = Seq::new(
            leaves.storages@.len(),
            |i: int|
                BlockWrite::Storages {
                    storages: leaves.storages@[i],
                    block_number: leaves.block_number,
                },
        );
        let block_number: u64 = writes.leaves.block_number;
        let mut storages = writes.leaves.storages;
        let mut waiting: Vec<BlockWrite> = Vec::new();
        while storages.len() > 0
            invariant
                block_number == leaves.block_number,
                storages@.len() <= all.len(),
                all.len() == leaves.storages@.len(),
                storages@ == leaves.storages@.take(storages@.len() as int),
                forall|i: int|
                    0 <= i < all.len() ==> #[trigger] all[i] == (BlockWrite::Storages {
                        storages: leaves.storages@[i],
                        block_number: leaves.block_number,
                    }),
                waiting@.len() == all.len() - storages@.len(),
                forall|i: int|
                    0 <= i < waiting@.len() ==> #[trigger] waiting@[i] == all[all.len() - 1 - i],
            decreases storages@.len(),
        {
            if let Some(slots) = storages.pop() {
                waiting.push(BlockWrite::Storages { storages: slots, block_number });
            }
        }
        waiting.push(BlockWrite::Accounts { accounts: writes.leaves.accounts, block_number });
        waiting.push(BlockWrite::Branches(writes.trie.storage_branches));
        assert(waiting@.reverse() =~= block_writes(writes).skip(1));
        (Self { waiting }, Some(BlockWrite::Branches(writes.trie.account_branches)))
    }

    /// Go on after the call that was handed out: with the next one, or with none if all is
    /// stored. If it failed, nothing is stored after it.
    pub fn stored<Error>(self, outcome: Result<(), Error>) -> (r: Result<
        (Self, Option<BlockWrite>),
        Error,
    >)
        ensures
            match outcome {
                Ok(_) => r is Ok && if self@.len() > 0 {
                    r->Ok_0.1 == Some(self@[0]) && r->Ok_0.0@ == self@.skip(1)
                } else {
                    r->Ok_0.1 is None && r->Ok_0.0@ == self@
                },
                Err(error) => r is Err && r->Err_0 == error,
            },
    {
        match outcome {
            Ok(_) => {
                let mut waiting = self.waiting;
                let ghost before = waiting@;
                let next = waiting.pop();
                proof {
                    if before.len() > 0 {
                        assert(waiting@.reverse() =~= before.reverse().skip(1));
                    } else {
                        assert(waiting@ =~= before);
                    }
                }
                Ok((Self { waiting }, next))
            },
            Err(error) => Err(error),
        }
    }
}

/// Storing a block ends at the first call that fails: if none fails, all calls are made, in order,
/// else those before it and it, and none after it. The state trie comes first, then the storage
/// tries, the account leaves and the storage leaves, and every call is for the block.
pub proof fn law_block_write_ends_at_failure<Error>(
    updates: TrieUpdates,
    state: HashedPostState,
    block_number: u64,
    writes: BlockWrites,
    outcomes: Seq<Option<Error>>,
)
    requires
        are_trie_writes(updates, block_number, writes.trie),
        are_leaf_writes(state, block_number, writes.leaves),
        outcomes.len() >= block_writes(writes).len(),
    ensures
        crate::steps::ends_at_failure(
            block_writes(writes),
            outcomes,
            crate::steps::until_failure(block_writes(writes), outcomes),
        ),
        block_writes(writes).len() == 3 + state.storages@.len(),
        forall|i: int|
            0 <= i < block_writes(writes).len() ==> (#[trigger] block_writes(writes)[i]).block()
                == block_number,
{
    crate::steps::law_until_failure(block_writes(writes), outcomes);
}

/// Whether the state of a block's parent is stored.
pub open spec fn parent_is_stored(earliest: u64, latest: u64, block_number: u64) -> bool {
    earliest <= block_number - 1 <= latest
}

/// The text of the error for a block whose parent's state is not stored yet.
pub open spec fn no_parent_text(block_number: u64, latest: u64) -> Seq<char> {
    "Cannot execute block updates for block "@ + crate::text::decimal(block_number as nat)
        + " without parent state "@ + crate::text::decimal((block_number - 1) as nat)
        + " (latest stored block number: "@ + crate::text::decimal(latest as nat) + ")"@
}

/// The text of the error for a block that leads to another state than it says.
pub open spec fn state_root_text(block_number: u64, have: Seq<u8>, expected: Seq<u8>) -> Seq<char> {
    "State root mismatch for block "@ + crate::text::decimal(block_number as nat) + " (have: "@
        + crate::text::shown_hash(have) + ", expected: "@ + crate::text::shown_hash(expected)
        + ")"@
}

impl PendingBlock {
    #[verifier::type_invariant]
    spec fn has_parent(self) -> bool {
        self.block_number > 0
    }

    /// The number of the block.
    pub closed spec fn number(self) -> u64 {
        self.block_number
    }

    /// The number of the block whose state this one is executed on.
    pub fn parent_block_number(&self) -> (r: u64)
        ensures
            r == self.number() - 1,
    {
        proof {
            use_type_invariant(&*self);
        }
        self.block_number - 1
    }

    /// What is stored of the block once it was executed, if the state that it led to is the
    /// one that it says.
    pub fn finish(
        self,
        state_root: &B256,
        expected_state_root: &B256,
        updates: &TrieUpdates,
        post_state: HashedPostState,
    ) -> (r: Result<BlockWrites, String>)
        ensures
            r is Ok == (state_root@ == expected_state_root@),
            match r {
                Ok(writes) => are_trie_writes(*updates, self.number(), writes.trie)
                    && are_leaf_writes(post_state, self.number(), writes.leaves),
                Err(text) => text@ == state_root_text(
                    self.number(),
                    state_root@,
                    expected_state_root@,
                ),
            },
    {
        if !bytes_equal(state_root.as_slice(), expected_state_root.as_slice()) {
            let mut text = joined(
                "State root mismatch for block ",
                decimal_text(self.block_number).as_str(),
            );
            text.append(" (have: ");
            text.append(shown_hash_text(state_root.as_slice()).as_str());
            text.append(", expected: ");
            text.append(shown_hash_text(expected_state_root.as_slice()).as_str());
            text.append(")");
            return Err(text);
        }
        let trie = write_trie_updates(updates, self.block_number);
        let leaves = write_leaf_updates(post_state, self.block_number);
        Ok(BlockWrites { trie, leaves })
    }
}

impl<Evm, Provider, Store> LiveTrieCollector<Evm, Provider, Store> {
    /// Create a new collector.
    pub fn new(evm_config: Evm, provider: Provider, storage: Store) -> (r: Self)
        ensures
            r.evm_config == evm_config,
            r.provider == provider,
            r.storage == storage,
    {
        Self { evm_config, provider, storage }
    }

    /// Start with a block: ensure that the state of its parent is stored, given the earliest
    /// and the latest block of which the state is. Once the block was executed on it,
    /// [`PendingBlock::finish`] gives what is stored.
    pub fn execute_and_store_block_updates(
        &self,
        earliest: &Option<(u64, B256)>,
        latest: &Option<u64>,
        block_number: u64,
    ) -> (r: Result<PendingBlock, String>)
        requires
            *earliest is Some && *latest is Some ==> block_number > 0,
        ensures
            r is Ok <==> (*earliest matches Some((first, _)) && *latest matches Some(last) && first
                <= block_number - 1 <= last),
            match (*earliest, *latest) {
                (Some((first, _)), Some(last)) => if parent_is_stored(first, last, block_number) {
                    r is Ok && r->Ok_0.number() == block_number
                } else if block_number - 1 < first {
                    r is Err && r->Err_0@
                        == "Parent block number is less than earliest stored block number"@
                } else {
                    r is Err && r->Err_0@ == no_parent_text(block_number, last)
                },
                _ => r is Err && r->Err_0@ == "No blocks stored"@,
            },
    {
        match (earliest, latest) {
            (Some((first, _)), Some(last)) => {
                let parent_block_number: u64 = block_number - 1;
                if parent_block_number < *first {
                    return Err(
                        "Parent block number is less than earliest stored block number".to_owned(),
                    );
                }
                if parent_block_number > *last {
                    let mut text = joined(
                        "Cannot execute block updates for block ",
                        decimal_text(block_number).as_str(),
                    );
                    text.append(" without parent state ");
                    text.append(decimal_text(parent_block_number).as_str());
                    text.append(" (latest stored block number: ");
                    text.append(decimal_text(*last).as_str());
                    text.append(")");
                    return Err(text);
                }
                Ok(PendingBlock { block_number })
            },
            _ => Err("No blocks stored".to_owned()),
        }
    }
}

/// What an element is mapped to is among what the sequence is mapped to.
proof fn lemma_filter_map_has<A, B>(s: Seq<A>, f: spec_fn(A) -> Option<B>, i: int)
    requires
        0 <= i < s.len(),
        f(s[i]) is Some,
    ensures
        s.filter_map(f).contains(f(s[i])->0),
    decreases s.len(),
{
    let front = s.drop_last();
    let rest = front.filter_map(f);
    s.lemma_filter_map_take_succ(f, s.len() - 1);
    assert(s.take(s.len() - 1) =~= front);
    assert(s.take(s.len() as int) =~= s);
    if i == s.len() - 1 {
        assert(s.filter_map(f) =~= rest + seq![f(s[i])->0]);
        assert(s.filter_map(f)[rest.len() as int] == f(s[i])->0);
    } else {
        lemma_filter_map_has(front, f, i);
        let k = choose|k: int| 0 <= k < rest.len() && rest[k] == f(s[i])->0;
        assert(s.filter_map(f)[k] == f(s[i])->0);
    }
}

/// What a block stores of the state trie is one entry for each path that changed: the new
/// value where there is one, which takes precedence over a removal, and else the mark that
/// the branch was deleted. Only a new value at the root is not stored.
pub proof fn law_account_entries(
    block_number: u64,
    removed: Seq<Seq<u8>>,
    nodes: Seq<(Seq<u8>, BranchView)>,
    entry: EntryView,
)
    ensures
        account_entries(block_number, removed, nodes).contains(entry) <==> (
        entry.block_number == block_number && entry.hashed_address is None
            && match entry.branch {
            Some(branch) => nodes.contains((entry.path, branch)) && entry.path.len() > 0,
            None => removed.contains(entry.path) && !exists|i: int|
                0 <= i < nodes.len() && (#[trigger] nodes[i]).0 == entry.path,
        }),
{
    let f = account_removal(block_number, nodes);
    let g = account_update(block_number);
    let a = removed.filter_map(f);
    let b = nodes.filter_map(g);
    if (a + b).contains(entry) {
        let i = choose|i: int| 0 <= i < (a + b).len() && (a + b)[i] == entry;
        if i < a.len() {
            assert(a.contains(a[i]));
            removed.lemma_filter_map_contains(f, entry);
        } else {
            assert(b.contains(b[i - a.len()]));
            nodes.lemma_filter_map_contains(g, entry);
        }
    }
    if entry.block_number == block_number && entry.hashed_address is None {
        match entry.branch {
            Some(branch) => {
                if nodes.contains((entry.path, branch)) && entry.path.len() > 0 {
                    let i = choose|i: int| 0 <= i < nodes.len() && nodes[i] == (entry.path, branch);
                    lemma_filter_map_has(nodes, g, i);
                    assert(g(nodes[i])->0 == entry);
                    let k = choose|k: int| 0 <= k < b.len() && b[k] == entry;
                    assert((a + b)[a.len() + k] == entry);
                }
            },
            None => {
                if removed.contains(entry.path) && !has_node(nodes, entry.path) {
                    let i = choose|i: int| 0 <= i < removed.len() && removed[i] == entry.path;
                    lemma_filter_map_has(removed, f, i);
                    assert(f(removed[i])->0 == entry);
                    let k = choose|k: int| 0 <= k < a.len() && a[k] == entry;
                    assert((a + b)[k] == entry);
                }
            },
        }
    }
}

/// What a block stores of an account's storage trie is one entry for each path that changed
/// but the root: the new value where there is one, which takes precedence over a removal,
/// and else the mark that the branch was deleted.
pub proof fn law_storage_entries(
    block_number: u64,
    hashed_address: Seq<u8>,
    updates: StorageTrieUpdates,
    entry: EntryView,
)
    ensures
        storage_entries(block_number, hashed_address, updates).contains(entry) <==> (
        entry.block_number == block_number && entry.hashed_address == Some(hashed_address)
            && entry.path.len() > 0 && match entry.branch {
            Some(branch) => nodes_view(updates.storage_nodes@).contains((entry.path, branch)),
            None => paths_view(updates.removed_nodes@).contains(entry.path) && !exists|i: int|
                0 <= i < updates.storage_nodes@.len() && (
                #[trigger] updates.storage_nodes@[i]).0@ == entry.path,
        }),
{
    let removed = paths_view(updates.removed_nodes@);
    let nodes = nodes_view(updates.storage_nodes@);
    let f = storage_removal(block_number, hashed_address, nodes);
    let g = storage_update(block_number, hashed_address);
    let a = removed.filter_map(f);
    let b = nodes.filter_map(g);
    assert(forall|i: int|
        0 <= i < nodes.len() ==> (#[trigger] nodes[i]).0 == updates.storage_nodes@[i].0@);
    assert(forall|i: int|
        0 <= i < nodes.len() ==> (#[trigger] updates.storage_nodes@[i]).0@ == nodes[i].0);
    if (a + b).contains(entry) {
        let i = choose|i: int| 0 <= i < (a + b).len() && (a + b)[i] == entry;
        if i < a.len() {
            assert(a.contains(a[i]));
            removed.lemma_filter_map_contains(f, entry);
        } else {
            assert(b.contains(b[i - a.len()]));
            nodes.lemma_filter_map_contains(g, entry);
        }
    }
    if entry.block_number == block_number && entry.hashed_address == Some(hashed_address)
        && entry.path.len() > 0 {
        match entry.branch {
            Some(branch) => {
                if nodes.contains((entry.path, branch)) {
                    let i = choose|i: int| 0 <= i < nodes.len() && nodes[i] == (entry.path, branch);
                    lemma_filter_map_has(nodes, g, i);
                    assert(g(nodes[i])->0 == entry);
                    let k = choose|k: int| 0 <= k < b.len() && b[k] == entry;
                    assert((a + b)[a.len() + k] == entry);
                }
            },
            None => {
                if removed.contains(entry.path) && !has_node(nodes, entry.path) {
                    let i = choose|i: int| 0 <= i < removed.len() && removed[i] == entry.path;
                    lemma_filter_map_has(removed, f, i);
                    assert(f(removed[i])->0 == entry);
                    let k = choose|k: int| 0 <= k < a.len() && a[k] == entry;
                    assert((a + b)[k] == entry);
                }
            },
        }
    }
}

/// After a block's state trie entries are stored, in whatever order, a reader at that block
/// or after it, and before the next change of a path, sees the new value where there is one
/// and nothing where the branch was removed.
pub proof fn law_block_is_read_back(
    table: crate::table::Table,
    block_number: u64,
    removed: Seq<Seq<u8>>,
    nodes: Seq<(Seq<u8>, BranchView)>,
    stored: Seq<EntryView>,
    entry: EntryView,
    max_block_number: u64,
)
    requires
        stored.to_multiset() == account_entries(block_number, removed, nodes).to_multiset(),
        forall|i: int| 0 <= i < removed.len() ==> crate::primitives::valid_path(#[trigger] removed[i]),
        forall|i: int|
            0 <= i < nodes.len() ==> crate::primitives::valid_path((#[trigger] nodes[i]).0)
                && nodes[i].1.wf(),
        forall|i: int, j: int|
            0 <= i < nodes.len() && 0 <= j < nodes.len() && (#[trigger] nodes[i]).0 == (
            #[trigger] nodes[j]).0 ==> i == j,
        account_entries(block_number, removed, nodes).contains(entry),
        crate::table::is_latest_entry(table, entry, max_block_number),
    ensures
        match crate::table::visible(
            crate::table::put_all(table, crate::sqlite::rows_of(stored)),
            None,
            entry.path,
            crate::key::block_int(max_block_number),
        ) {
            Some(bytes) => entry.branch == Some(crate::branch::branch_of(bytes)),
            None => entry.branch is None,
        },
{
    broadcast use vstd::seq_lib::group_to_multiset_ensures;

    let all = account_entries(block_number, removed, nodes);
    law_account_entries(block_number, removed, nodes, entry);
    assert forall|j: int| 0 <= j < stored.len() implies crate::table::entry_wf(#[trigger] stored[j])
        && (stored[j].hashed_address == entry.hashed_address && stored[j].path == entry.path
        ==> stored[j] == entry) by {
        assert(stored.contains(stored[j]));
        assert(stored.to_multiset().count(stored[j]) > 0);
        assert(all.contains(stored[j]));
        law_account_entries(block_number, removed, nodes, stored[j]);
        match stored[j].branch {
            Some(branch) => {
                let i = choose|i: int|
                    0 <= i < nodes.len() && nodes[i] == (stored[j].path, branch);
                assert(nodes[i].0 == stored[j].path);
                if stored[j].path == entry.path && entry.branch is Some {
                    let k = choose|k: int|
                        0 <= k < nodes.len() && nodes[k] == (entry.path, entry.branch->0);
                    assert(nodes[i].0 == nodes[k].0);
                }
            },
            None => {
                let i = choose|i: int| 0 <= i < removed.len() && removed[i] == stored[j].path;
                if stored[j].path == entry.path && entry.branch is Some {
                    let k = choose|k: int|
                        0 <= k < nodes.len() && nodes[k] == (entry.path, entry.branch->0);
                    assert(nodes[k].0 == entry.path);
                }
            },
        }
    }
    assert(all.to_multiset().count(entry) > 0);
    assert(stored.contains(entry));
    crate::table::law_read_what_batch_stored(table, stored, entry, max_block_number);
}

/// What a block stores of storage tries is what it stores of each of them.
pub proof fn law_all_storage_entries(
    block_number: u64,
    tries: Seq<(B256, StorageTrieUpdates)>,
    entry: EntryView,
)
    ensures
        all_storage_entries(block_number, tries).contains(entry) <==> exists|t: int|
            0 <= t < tries.len() && storage_entries(
                block_number,
                (#[trigger] tries[t]).0@,
                tries[t].1,
            ).contains(entry),
    decreases tries.len(),
{
    if tries.len() > 0 {
        let front = tries.drop_last();
        let a = all_storage_entries(block_number, front);
        let b = storage_entries(block_number, tries.last().0@, tries.last().1);
        law_all_storage_entries(block_number, front, entry);
        assert(tries[tries.len() - 1] == tries.last());
        if (a + b).contains(entry) {
            let i = choose|i: int| 0 <= i < (a + b).len() && (a + b)[i] == entry;
            if i < a.len() {
                assert(a[i] == entry);
                let t = choose|t: int|
                    0 <= t < front.len() && storage_entries(
                        block_number,
                        (#[trigger] front[t]).0@,
                        front[t].1,
                    ).contains(entry);
                assert(tries[t] == front[t]);
            } else {
                assert(b[i - a.len()] == entry);
            }
        }
        if exists|t: int|
            0 <= t < tries.len() && storage_entries(
                block_number,
                (#[trigger] tries[t]).0@,
                tries[t].1,
            ).contains(entry) {
            let t = choose|t: int|
                0 <= t < tries.len() && storage_entries(
                    block_number,
                    (#[trigger] tries[t]).0@,
                    tries[t].1,
                ).contains(entry);
            if t < front.len() {
                assert(front[t] == tries[t]);
                let k = choose|k: int| 0 <= k < a.len() && a[k] == entry;
                assert((a + b)[k] == entry);
            } else {
                let k = choose|k: int| 0 <= k < b.len() && b[k] == entry;
                assert((a + b)[a.len() + k] == entry);
            }
        }
    }
}

/// Whether the changes to a storage trie are ones that can be: of paths and well-formed
/// branches, with one new value for a path at most.
pub open spec fn storage_updates_wf(updates: StorageTrieUpdates) -> bool {
    let removed = paths_view(updates.removed_nodes@);
    let nodes = nodes_view(updates.storage_nodes@);
    &&& forall|i: int|
        0 <= i < removed.len() ==> crate::primitives::valid_path(#[trigger] removed[i])
    &&& forall|i: int|
        0 <= i < nodes.len() ==> crate::primitives::valid_path((#[trigger] nodes[i]).0)
            && nodes[i].1.wf()
    &&& forall|i: int, j: int|
        0 <= i < nodes.len() && 0 <= j < nodes.len() && (#[trigger] nodes[i]).0 == (
        #[trigger] nodes[j]).0 ==> i == j
}

/// Two entries for one path of a storage trie are the same.
proof fn lemma_storage_entry_unique(
    block_number: u64,
    hashed_address: Seq<u8>,
    updates: StorageTrieUpdates,
    entry: EntryView,
    other: EntryView,
)
    requires
        hashed_address.len() == 32,
        storage_updates_wf(updates),
        storage_entries(block_number, hashed_address, updates).contains(entry),
        storage_entries(block_number, hashed_address, updates).contains(other),
    ensures
        crate::table::entry_wf(other),
        other.path == entry.path ==> other == entry,
{
    let removed = paths_view(updates.removed_nodes@);
    let nodes = nodes_view(updates.storage_nodes@);
    law_storage_entries(block_number, hashed_address, updates, entry);
    law_storage_entries(block_number, hashed_address, updates, other);
    match other.branch {
        Some(branch) => {
            let i = choose|i: int| 0 <= i < nodes.len() && nodes[i] == (other.path, branch);
            assert(nodes[i].0 == other.path);
            if other.path == entry.path && entry.branch is Some {
                let k = choose|k: int|
                    0 <= k < nodes.len() && nodes[k] == (entry.path, entry.branch->0);
                assert(nodes[i].0 == nodes[k].0);
            }
        },
        None => {
            let i = choose|i: int| 0 <= i < removed.len() && removed[i] == other.path;
            assert(crate::primitives::valid_path(removed[i]));
            if other.path == entry.path && entry.branch is Some {
                let k = choose|k: int|
                    0 <= k < nodes.len() && nodes[k] == (entry.path, entry.branch->0);
                assert(nodes[k].0 == entry.path);
            }
        },
    }
}

/// After a block's storage trie entries are stored, a reader at that block or after it, and
/// before the next change of a path, sees the new value where there is one and nothing where
/// the branch was removed.
pub proof fn law_storage_block_is_read_back(
    table: crate::table::Table,
    block_number: u64,
    tries: Seq<(B256, StorageTrieUpdates)>,
    entry: EntryView,
    max_block_number: u64,
)
    requires
        forall|t: int| 0 <= t < tries.len() ==> storage_updates_wf((#[trigger] tries[t]).1),
        forall|s: int, t: int|
            0 <= s < tries.len() && 0 <= t < tries.len() && (#[trigger] tries[s]).0@ == (
            #[trigger] tries[t]).0@ ==> s == t,
        all_storage_entries(block_number, tries).contains(entry),
        crate::table::is_latest_entry(table, entry, max_block_number),
    ensures
        match crate::table::visible(
            crate::table::put_all(
                table,
                crate::sqlite::rows_of(all_storage_entries(block_number, tries)),
            ),
            entry.hashed_address,
            entry.path,
            crate::key::block_int(max_block_number),
        ) {
            Some(bytes) => entry.branch == Some(crate::branch::branch_of(bytes)),
            None => entry.branch is None,
        },
{
    let all = all_storage_entries(block_number, tries);
    law_all_storage_entries(block_number, tries, entry);
    let s = choose|s: int|
        0 <= s < tries.len() && storage_entries(
            block_number,
            (#[trigger] tries[s]).0@,
            tries[s].1,
        ).contains(entry);
    law_storage_entries(block_number, tries[s].0@, tries[s].1, entry);
    assert forall|j: int| 0 <= j < all.len() implies crate::table::entry_wf(#[trigger] all[j]) && (
    all[j].hashed_address == entry.hashed_address && all[j].path == entry.path ==> all[j]
        == entry) by {
        assert(all.contains(all[j]));
        law_all_storage_entries(block_number, tries, all[j]);
        let t = choose|t: int|
            0 <= t < tries.len() && storage_entries(
                block_number,
                (#[trigger] tries[t]).0@,
                tries[t].1,
            ).contains(all[j]);
        law_storage_entries(block_number, tries[t].0@, tries[t].1, all[j]);
        lemma_storage_entry_unique(block_number, tries[t].0@, tries[t].1, all[j], all[j]);
        if all[j].hashed_address == entry.hashed_address {
            assert(tries[s].0@ == tries[t].0@);
            lemma_storage_entry_unique(block_number, tries[t].0@, tries[t].1, entry, all[j]);
        }
    }
    crate::table::law_read_what_batch_stored(table, all, entry, max_block_number);
}

/// An entry that is among those of a block is an item of a list that holds them in some order.
proof fn lemma_has_item(items: Seq<PreimageEntry>, all: Seq<EntryView>, entry: EntryView)
    requires
        crate::storage::entries_view(items).to_multiset() == all.to_multiset(),
        all.contains(entry),
    ensures
        exists|j: int| 0 <= j < items.len() && (#[trigger] items[j])@ == entry,
{
    broadcast use vstd::seq_lib::group_to_multiset_ensures;

    let stored = crate::storage::entries_view(items);
    assert(all.to_multiset().count(entry) > 0);
    assert(stored.contains(entry));
    let j = choose|j: int| 0 <= j < stored.len() && stored[j] == entry;
    assert(items[j]@ == entry);
}

/// An item of a list that holds the entries of a block in some order is one of them.
proof fn lemma_item_is_of_block(items: Seq<PreimageEntry>, all: Seq<EntryView>, j: int)
    requires
        crate::storage::entries_view(items).to_multiset() == all.to_multiset(),
        0 <= j < items.len(),
    ensures
        all.contains(items[j]@),
{
    broadcast use vstd::seq_lib::group_to_multiset_ensures;

    let stored = crate::storage::entries_view(items);
    assert(stored[j] == items[j]@);
    assert(stored.contains(items[j]@));
    assert(stored.to_multiset().count(items[j]@) > 0);
}

/// Every path of the state trie that was removed and that no new value has as its very own path
/// is stored, with the mark that its branch was deleted. Every new value but one at the root is
/// stored as it is.
#[verifier::spinoff_prover]
pub proof fn law_state_trie_changes_are_stored(
    updates: TrieUpdates,
    block_number: u64,
    writes: TrieWrites,
)
    requires
        are_trie_writes(updates, block_number, writes),
    ensures
        ({
            let removed = updates.removed_nodes@;
            let nodes = updates.account_nodes@;
            let items = writes.account_branches.items@;
            &&& forall|i: int|
                #![trigger removed[i]]
                0 <= i < removed.len() && (forall|k: int|
                    0 <= k < nodes.len() ==> (#[trigger] nodes[k]).0@ != removed[i]@)
                    ==> exists|j: int|
                    0 <= j < items.len() && (#[trigger] items[j]).path@ == removed[i]@
                        && items[j].branch is None && items[j].hashed_address is None
                        && items[j].block_number == block_number
            &&& forall|k: int|
                #![trigger nodes[k]]
                0 <= k < nodes.len() && nodes[k].0@.len() > 0 ==> exists|j: int|
                    0 <= j < items.len() && (#[trigger] items[j]).path@ == nodes[k].0@
                        && items[j].branch is Some && items[j].branch->0@ == nodes[k].1@
                        && items[j].hashed_address is None && items[j].block_number
                        == block_number
        }),
{
    let removed = updates.removed_nodes@;
    let nodes = updates.account_nodes@;
    let items = writes.account_branches.items@;
    let gone = paths_view(removed);
    let new = nodes_view(nodes);
    let all = account_entries(block_number, gone, new);
    assert forall|i: int|
        #![trigger removed[i]]
        0 <= i < removed.len() && (forall|k: int|
            0 <= k < nodes.len() ==> (#[trigger] nodes[k]).0@ != removed[i]@) implies exists|j: int|
        0 <= j < items.len() && (#[trigger] items[j]).path@ == removed[i]@
            && items[j].branch is None && items[j].hashed_address is None
            && items[j].block_number == block_number by {
        let entry = EntryView {
            block_number,
            path: removed[i]@,
            hashed_address: None,
            branch: None,
        };
        law_account_entries(block_number, gone, new, entry);
        assert(gone[i] == entry.path);
        assert forall|k: int| 0 <= k < new.len() implies (#[trigger] new[k]).0 != entry.path by {
            assert(nodes[k].0@ != removed[i]@);
        }
        lemma_has_item(items, all, entry);
        let j = choose|j: int| 0 <= j < items.len() && (#[trigger] items[j])@ == entry;
        assert(items[j].path@ == entry.path);
    }
    assert forall|k: int|
        #![trigger nodes[k]]
        0 <= k < nodes.len() && nodes[k].0@.len() > 0 implies exists|j: int|
        0 <= j < items.len() && (#[trigger] items[j]).path@ == nodes[k].0@
            && items[j].branch is Some && items[j].branch->0@ == nodes[k].1@
            && items[j].hashed_address is None && items[j].block_number == block_number by {
        let entry = EntryView {
            block_number,
            path: nodes[k].0@,
            hashed_address: None,
            branch: Some(nodes[k].1@),
        };
        law_account_entries(block_number, gone, new, entry);
        assert(new[k] == (entry.path, entry.branch->0));
        lemma_has_item(items, all, entry);
        let j = choose|j: int| 0 <= j < items.len() && (#[trigger] items[j])@ == entry;
        assert(items[j].path@ == entry.path);
    }
}

/// What is stored of the state trie is only that: each item is at the block, and is a new value,
/// not at the root, or the mark for a path that was removed and that no new value has. The items
/// are in the order of their paths. All that is stored of the tries is counted.
#[verifier::spinoff_prover]
pub proof fn law_only_state_trie_changes_are_stored(
    updates: TrieUpdates,
    block_number: u64,
    writes: TrieWrites,
)
    requires
        are_trie_writes(updates, block_number, writes),
    ensures
        ({
            let removed = updates.removed_nodes@;
            let nodes = updates.account_nodes@;
            let items = writes.account_branches.items@;
            &&& writes.account_branches.block_number == block_number
            &&& writes.num_entries == items.len() + writes.storage_branches.items@.len()
            &&& forall|j: int|
                #![trigger items[j]]
                0 <= j < items.len() ==> items[j].block_number == block_number
                    && items[j].hashed_address is None && match items[j].branch {
                    Some(branch) => items[j].path@.len() > 0 && exists|k: int|
                        0 <= k < nodes.len() && (#[trigger] nodes[k]).0@ == items[j].path@
                            && nodes[k].1@ == branch@,
                    None => (exists|i: int|
                        0 <= i < removed.len() && (#[trigger] removed[i])@ == items[j].path@)
                        && forall|k: int|
                        0 <= k < nodes.len() ==> (#[trigger] nodes[k]).0@ != items[j].path@,
                }
            &&& forall|i: int, j: int|
                0 <= i < j < items.len() ==> !crate::order::lex_lt(
                    (#[trigger] items[j]).path@,
                    (#[trigger] items[i]).path@,
                )
        }),
{
    broadcast use vstd::seq_lib::group_to_multiset_ensures;

    let removed = updates.removed_nodes@;
    let nodes = updates.account_nodes@;
    let items = writes.account_branches.items@;
    let stored = crate::storage::entries_view(items);
    let gone = paths_view(removed);
    let new = nodes_view(nodes);
    let all = account_entries(block_number, gone, new);
    assert(stored.to_multiset().len() == all.to_multiset().len());
    assert(crate::storage::entries_view(writes.storage_branches.items@).len()
        == writes.storage_branches.items@.len());
    assert forall|j: int|
        #![trigger items[j]]
        0 <= j < items.len() implies items[j].block_number == block_number
        && items[j].hashed_address is None && match items[j].branch {
        Some(branch) => items[j].path@.len() > 0 && exists|k: int|
            0 <= k < nodes.len() && (#[trigger] nodes[k]).0@ == items[j].path@ && nodes[k].1@
                == branch@,
        None => (exists|i: int|
            0 <= i < removed.len() && (#[trigger] removed[i])@ == items[j].path@) && forall|k: int|
            0 <= k < nodes.len() ==> (#[trigger] nodes[k]).0@ != items[j].path@,
    } by {
        let entry = items[j]@;
        lemma_item_is_of_block(items, all, j);
        law_account_entries(block_number, gone, new, entry);
        match items[j].branch {
            Some(branch) => {
                let k = choose|k: int| 0 <= k < new.len() && new[k] == (entry.path, branch@);
                assert(nodes[k].0@ == items[j].path@);
            },
            None => {
                let i = choose|i: int| 0 <= i < gone.len() && gone[i] == entry.path;
                assert(removed[i]@ == items[j].path@);
                assert forall|k: int| 0 <= k < nodes.len() implies (#[trigger] nodes[k]).0@
                    != items[j].path@ by {
                    assert(new[k].0 == nodes[k].0@);
                }
            },
        }
    }
    assert forall|i: int, j: int| 0 <= i < j < items.len() implies !crate::order::lex_lt(
        (#[trigger] items[j]).path@,
        (#[trigger] items[i]).path@,
    ) by {
        assert(stored[i].path == items[i].path@ && stored[j].path == items[j].path@);
        assert(crate::order::lex_le(stored[i].path, stored[j].path));
        crate::order::lemma_lex_irreflexive(stored[i].path);
        if crate::order::lex_lt(stored[j].path, stored[i].path) && stored[i].path
            != stored[j].path {
            crate::order::lemma_lex_transitive(stored[i].path, stored[j].path, stored[i].path);
        }
    }
}

/// Where no path of a trie is given twice, neither as a new value nor as a removal, and no account,
/// no path of a trie is stored twice.
pub proof fn law_changes_are_stored_once(
    updates: TrieUpdates,
    block_number: u64,
    writes: TrieWrites,
)
    requires
        are_trie_writes(updates, block_number, writes),
        forall|i: int, j: int|
            0 <= i < j < updates.account_nodes@.len() ==> (
            #[trigger] updates.account_nodes@[i]).0@ != (#[trigger] updates.account_nodes@[j]).0@,
        forall|i: int, j: int|
            0 <= i < j < updates.removed_nodes@.len() ==> (
            #[trigger] updates.removed_nodes@[i])@ != (#[trigger] updates.removed_nodes@[j])@,
        forall|s: int, t: int|
            0 <= s < t < updates.storage_tries@.len() ==> (
            #[trigger] updates.storage_tries@[s]).0@ != (#[trigger] updates.storage_tries@[t]).0@,
        forall|t: int, i: int, j: int|
            #![trigger updates.storage_tries@[t].1.storage_nodes@[i], updates.storage_tries@[t].1.storage_nodes@[j]]
            0 <= t < updates.storage_tries@.len() && 0 <= i < j
                < updates.storage_tries@[t].1.storage_nodes@.len()
                ==> updates.storage_tries@[t].1.storage_nodes@[i].0@
                != updates.storage_tries@[t].1.storage_nodes@[j].0@,
        forall|t: int, i: int, j: int|
            #![trigger updates.storage_tries@[t].1.removed_nodes@[i], updates.storage_tries@[t].1.removed_nodes@[j]]
            0 <= t < updates.storage_tries@.len() && 0 <= i < j
                < updates.storage_tries@[t].1.removed_nodes@.len()
                ==> updates.storage_tries@[t].1.removed_nodes@[i]@
                != updates.storage_tries@[t].1.removed_nodes@[j]@,
    ensures
        forall|i: int, j: int|
            0 <= i < j < writes.account_branches.items@.len() ==> crate::order::lex_lt(
                (#[trigger] writes.account_branches.items@[i]).path@,
                (#[trigger] writes.account_branches.items@[j]).path@,
            ),
        forall|i: int, j: int|
            0 <= i < j < writes.storage_branches.items@.len() ==> (
            #[trigger] writes.storage_branches.items@[i]).path@ != (
            #[trigger] writes.storage_branches.items@[j]).path@
                || writes.storage_branches.items@[i].hashed_address->0@
                != writes.storage_branches.items@[j].hashed_address->0@,
{
    let nodes = nodes_view(updates.account_nodes@);
    let removed = paths_view(updates.removed_nodes@);
    assert(distinct_nodes(nodes)) by {
        assert forall|i: int, j: int| 0 <= i < j < nodes.len() implies (#[trigger] nodes[i]).0 != (
        #[trigger] nodes[j]).0 by {
            assert(updates.account_nodes@[i].0@ != updates.account_nodes@[j].0@);
        }
    }
    assert(distinct_paths(removed)) by {
        assert forall|i: int, j: int| 0 <= i < j < removed.len() implies #[trigger] removed[i]
            != #[trigger] removed[j] by {
            assert(updates.removed_nodes@[i]@ != updates.removed_nodes@[j]@);
        }
    }
    assert forall|t: int| 0 <= t < updates.storage_tries@.len() implies (
    #[trigger] updates.storage_tries@[t]).1.wf() by {
        let trie = updates.storage_tries@[t].1;
        let new = nodes_view(trie.storage_nodes@);
        let gone = paths_view(trie.removed_nodes@);
        assert forall|i: int, j: int| 0 <= i < j < new.len() implies (#[trigger] new[i]).0 != (
        #[trigger] new[j]).0 by {
            assert(updates.storage_tries@[t].1.storage_nodes@[i].0@
                != updates.storage_tries@[t].1.storage_nodes@[j].0@);
        }
        assert forall|i: int, j: int| 0 <= i < j < gone.len() implies #[trigger] gone[i]
            != #[trigger] gone[j] by {
            assert(updates.storage_tries@[t].1.removed_nodes@[i]@
                != updates.storage_tries@[t].1.removed_nodes@[j]@);
        }
    }
    assert(updates.wf());
    let state = crate::storage::entries_view(writes.account_branches.items@);
    let storages = crate::storage::entries_view(writes.storage_branches.items@);
    assert forall|i: int, j: int|
        0 <= i < j < writes.account_branches.items@.len() implies crate::order::lex_lt(
        (#[trigger] writes.account_branches.items@[i]).path@,
        (#[trigger] writes.account_branches.items@[j]).path@,
    ) by {
        assert(crate::order::lex_lt(state[i].path, state[j].path));
    }
    assert forall|i: int, j: int| 0 <= i < j < writes.storage_branches.items@.len() implies (
    #[trigger] writes.storage_branches.items@[i]).path@ != (
    #[trigger] writes.storage_branches.items@[j]).path@
        || writes.storage_branches.items@[i].hashed_address->0@
        != writes.storage_branches.items@[j].hashed_address->0@ by {
        assert((storages[i].hashed_address, storages[i].path) != (
            storages[j].hashed_address,
            storages[j].path,
        ));
        lemma_storage_item(updates, block_number, writes, i);
        lemma_storage_item(updates, block_number, writes, j);
    }
}

/// An item of the storage tries is one of some trie.
proof fn lemma_storage_item(updates: TrieUpdates, block_number: u64, writes: TrieWrites, j: int)
    requires
        are_trie_writes(updates, block_number, writes),
        0 <= j < writes.storage_branches.items@.len(),
    ensures
        ({
            let item = writes.storage_branches.items@[j];
            &&& item.block_number == block_number
            &&& item.hashed_address is Some
            &&& item.path@.len() > 0
            &&& exists|t: int|
                #![trigger updates.storage_tries@[t]]
                0 <= t < updates.storage_tries@.len() && updates.storage_tries@[t].0@
                    == item.hashed_address->0@ && storage_entries(
                    block_number,
                    updates.storage_tries@[t].0@,
                    updates.storage_tries@[t].1,
                ).contains(item@)
        }),
{
    let items = writes.storage_branches.items@;
    let entry = items[j]@;
    let tries = updates.storage_tries@;
    lemma_item_is_of_block(items, all_storage_entries(block_number, tries), j);
    law_all_storage_entries(block_number, tries, entry);
    let t = choose|t: int|
        0 <= t < tries.len() && storage_entries(
            block_number,
            (#[trigger] tries[t]).0@,
            tries[t].1,
        ).contains(entry);
    law_storage_entries(block_number, tries[t].0@, tries[t].1, entry);
    assert(updates.storage_tries@[t].0@ == items[j].hashed_address->0@);
}

/// Every path of a storage trie but the root that was removed and that no new value has as its very
/// own path is stored for its account, with the mark that its branch was deleted. Every new value
/// but one at the root is stored for its account as it is.
#[verifier::spinoff_prover]
pub proof fn law_storage_trie_changes_are_stored(
    updates: TrieUpdates,
    block_number: u64,
    writes: TrieWrites,
    t: int,
)
    requires
        are_trie_writes(updates, block_number, writes),
        0 <= t < updates.storage_tries@.len(),
    ensures
        ({
            let address = updates.storage_tries@[t].0;
            let removed = updates.storage_tries@[t].1.removed_nodes@;
            let nodes = updates.storage_tries@[t].1.storage_nodes@;
            let items = writes.storage_branches.items@;
            &&& forall|i: int|
                #![trigger removed[i]]
                0 <= i < removed.len() && removed[i]@.len() > 0 && (forall|k: int|
                    0 <= k < nodes.len() ==> (#[trigger] nodes[k]).0@ != removed[i]@)
                    ==> exists|j: int|
                    0 <= j < items.len() && (#[trigger] items[j]).path@ == removed[i]@
                        && items[j].branch is None && items[j].hashed_address is Some
                        && items[j].hashed_address->0@ == address@ && items[j].block_number
                        == block_number
            &&& forall|k: int|
                #![trigger nodes[k]]
                0 <= k < nodes.len() && nodes[k].0@.len() > 0 ==> exists|j: int|
                    0 <= j < items.len() && (#[trigger] items[j]).path@ == nodes[k].0@
                        && items[j].branch is Some && items[j].branch->0@ == nodes[k].1@
                        && items[j].hashed_address is Some && items[j].hashed_address->0@
                        == address@ && items[j].block_number == block_number
        }),
{
    let tries = updates.storage_tries@;
    let address = tries[t].0@;
    let removed = tries[t].1.removed_nodes@;
    let nodes = tries[t].1.storage_nodes@;
    let items = writes.storage_branches.items@;
    let gone = paths_view(removed);
    let new = nodes_view(nodes);
    let all = all_storage_entries(block_number, tries);
    assert forall|i: int|
        #![trigger removed[i]]
        0 <= i < removed.len() && removed[i]@.len() > 0 && (forall|k: int|
            0 <= k < nodes.len() ==> (#[trigger] nodes[k]).0@ != removed[i]@) implies exists|j: int|
        0 <= j < items.len() && (#[trigger] items[j]).path@ == removed[i]@
            && items[j].branch is None && items[j].hashed_address is Some
            && items[j].hashed_address->0@ == address && items[j].block_number == block_number by {
        let entry = EntryView {
            block_number,
            path: removed[i]@,
            hashed_address: Some(address),
            branch: None,
        };
        assert(gone[i] == entry.path);
        law_storage_entries(block_number, address, tries[t].1, entry);
        law_all_storage_entries(block_number, tries, entry);
        lemma_has_item(items, all, entry);
        let j = choose|j: int| 0 <= j < items.len() && (#[trigger] items[j])@ == entry;
        assert(items[j].path@ == entry.path);
    }
    assert forall|k: int|
        #![trigger nodes[k]]
        0 <= k < nodes.len() && nodes[k].0@.len() > 0 implies exists|j: int|
        0 <= j < items.len() && (#[trigger] items[j]).path@ == nodes[k].0@
            && items[j].branch is Some && items[j].branch->0@ == nodes[k].1@
            && items[j].hashed_address is Some && items[j].hashed_address->0@ == address
            && items[j].block_number == block_number by {
        let entry = EntryView {
            block_number,
            path: nodes[k].0@,
            hashed_address: Some(address),
            branch: Some(nodes[k].1@),
        };
        assert(new[k] == (entry.path, entry.branch->0));
        law_storage_entries(block_number, address, tries[t].1, entry);
        law_all_storage_entries(block_number, tries, entry);
        lemma_has_item(items, all, entry);
        let j = choose|j: int| 0 <= j < items.len() && (#[trigger] items[j])@ == entry;
        assert(items[j].path@ == entry.path);
    }
}

/// What is stored of the storage tries is only that: each item is at the block, below the root of
/// the trie of some account that changed, and is a new value there, or the mark for a path that
/// was removed there and that no new value has.
#[verifier::spinoff_prover]
pub proof fn law_only_storage_trie_changes_are_stored(
    updates: TrieUpdates,
    block_number: u64,
    writes: TrieWrites,
    j: int,
)
    requires
        are_trie_writes(updates, block_number, writes),
        0 <= j < writes.storage_branches.items@.len(),
    ensures
        ({
            let tries = updates.storage_tries@;
            let item = writes.storage_branches.items@[j];
            &&& writes.storage_branches.block_number == block_number
            &&& item.block_number == block_number
            &&& item.hashed_address is Some
            &&& item.path@.len() > 0
            &&& exists|t: int|
                #![trigger tries[t]]
                0 <= t < tries.len() && tries[t].0@ == item.hashed_address->0@
                    && match item.branch {
                    Some(branch) => exists|k: int|
                        0 <= k < tries[t].1.storage_nodes@.len() && (
                        #[trigger] tries[t].1.storage_nodes@[k]).0@ == item.path@
                            && tries[t].1.storage_nodes@[k].1@ == branch@,
                    None => (exists|i: int|
                        0 <= i < tries[t].1.removed_nodes@.len() && (
                        #[trigger] tries[t].1.removed_nodes@[i])@ == item.path@) && forall|k: int|
                        0 <= k < tries[t].1.storage_nodes@.len() ==> (
                        #[trigger] tries[t].1.storage_nodes@[k]).0@ != item.path@,
                }
        }),
{
    let tries = updates.storage_tries@;
    let item = writes.storage_branches.items@[j];
    lemma_storage_item(updates, block_number, writes, j);
    let t = choose|t: int|
        #![trigger updates.storage_tries@[t]]
        0 <= t < updates.storage_tries@.len() && updates.storage_tries@[t].0@
            == item.hashed_address->0@ && storage_entries(
            block_number,
            updates.storage_tries@[t].0@,
            updates.storage_tries@[t].1,
        ).contains(item@);
    let nodes = tries[t].1.storage_nodes@;
    let removed = tries[t].1.removed_nodes@;
    law_storage_entries(block_number, tries[t].0@, tries[t].1, item@);
    match item.branch {
        Some(branch) => {
            let new = nodes_view(nodes);
            let k = choose|k: int| 0 <= k < new.len() && new[k] == (item.path@, branch@);
            assert(tries[t].1.storage_nodes@[k].0@ == item.path@);
        },
        None => {
            let gone = paths_view(removed);
            let i = choose|i: int| 0 <= i < gone.len() && gone[i] == item.path@;
            assert(tries[t].1.removed_nodes@[i]@ == item.path@);
        },
    }
    assert(tries[t].0@ == item.hashed_address->0@);
}

/// Every leaf of a block is stored at the block: the accounts as they are, and for each account
/// its slots as they are, in order. All of them are counted.
pub proof fn law_leaves_are_stored(
    state: HashedPostState,
    block_number: u64,
    writes: LeafWrites,
    i: int,
    k: int,
)
    requires
        are_leaf_writes(state, block_number, writes),
    ensures
        writes.block_number == block_number,
        writes.accounts@ == state.accounts@,
        writes.storages@.len() == state.storages@.len(),
        writes.num_entries == state.accounts@.len() + slot_count(state.storages@),
        0 <= i < state.storages@.len() ==> {
            &&& writes.storages@[i]@.len() == state.storages@[i].1.storage@.len()
            &&& 0 <= k < state.storages@[i].1.storage@.len() ==> {
                &&& writes.storages@[i]@[k].0 == state.storages@[i].0
                &&& writes.storages@[i]@[k].1.key == state.storages@[i].1.storage@[k].0
                &&& writes.storages@[i]@[k].1.value == state.storages@[i].1.storage@[k].1
            }
        },
{
}

/// The slots of accounts are counted one account after another.
pub proof fn law_slots_add_up(storages: Seq<(B256, HashedStorage)>, more: (B256, HashedStorage))
    ensures
        slot_count(Seq::empty()) == 0,
        slot_count(storages.push(more)) == slot_count(storages) + more.1.storage@.len(),
{
    assert(storages.push(more).drop_last() =~= storages);
}

/// A block is stored by these calls, in this order: the state trie, the storage tries, the
/// accounts, and the slots of one account after another.
pub proof fn law_calls_of_a_block(writes: BlockWrites, call: BlockWrite)
    ensures
        block_writes(writes).len() == 3 + writes.leaves.storages@.len(),
        block_writes(writes)[0] == BlockWrite::Branches(writes.trie.account_branches),
        block_writes(writes)[1] == BlockWrite::Branches(writes.trie.storage_branches),
        block_writes(writes)[2] == (BlockWrite::Accounts {
            accounts: writes.leaves.accounts,
            block_number: writes.leaves.block_number,
        }),
        forall|i: int|
            0 <= i < writes.leaves.storages@.len() ==> #[trigger] block_writes(writes)[3 + i] == (
            BlockWrite::Storages {
                storages: writes.leaves.storages@[i],
                block_number: writes.leaves.block_number,
            }),
        match call {
            BlockWrite::Branches(batch) => call.block() == batch.block_number,
            BlockWrite::Accounts { accounts, block_number } => call.block() == block_number,
            BlockWrite::Storages { storages, block_number } => call.block() == block_number,
        },
{
}

/// The state of a block's parent is stored exactly if the parent is between the earliest and the
/// latest block. What is said of a block without it, and of one that leads to another state.
pub proof fn law_parents_and_texts(
    earliest: u64,
    latest: u64,
    block_number: u64,
    have: Seq<u8>,
    expected: Seq<u8>,
)
    requires
        block_number > 0,
    ensures
        parent_is_stored(earliest, latest, block_number) <==> earliest < block_number
            && block_number <= latest + 1,
        no_parent_text(block_number, latest) == "Cannot execute block updates for block "@
            + crate::text::decimal(block_number as nat) + " without parent state "@
            + crate::text::decimal((block_number - 1) as nat) + " (latest stored block number: "@
            + crate::text::decimal(latest as nat) + ")"@,
        state_root_text(block_number, have, expected) == "State root mismatch for block "@
            + crate::text::decimal(block_number as nat) + " (have: "@ + (crate::text::shown_hash(
            have,
        )) + ", expected: "@ + crate::text::shown_hash(expected) + ")"@,
{
}

/// Where in what a sequence is mapped to an element stands.
proof fn lemma_filter_map_at<A, B>(s: Seq<A>, f: spec_fn(A) -> Option<B>, a: int) -> (at: int)
    requires
        0 <= a < s.len(),
        f(s[a]) is Some,
    ensures
        at == s.take(a).filter_map(f).len(),
        0 <= at < s.filter_map(f).len(),
        s.filter_map(f)[at] == f(s[a])->0,
{
    let before = s.take(a).filter_map(f);
    let after = s.skip(a + 1).filter_map(f);
    s.lemma_filter_map_take_succ(f, a);
    crate::prune::lemma_filter_map_add(s.take(a + 1), s.skip(a + 1), f);
    assert(s.take(a + 1) + s.skip(a + 1) =~= s);
    assert(s.take(a + 1).filter_map(f) =~= before.push(f(s[a])->0));
    assert(s.filter_map(f) =~= before.push(f(s[a])->0) + after);
    before.len() as int
}

/// What two elements are mapped to stands in their order.
proof fn lemma_filter_map_order<A, B>(
    s: Seq<A>,
    f: spec_fn(A) -> Option<B>,
    a: int,
    b: int,
) -> (at: (int, int))
    requires
        0 <= a < b < s.len(),
        f(s[a]) is Some,
        f(s[b]) is Some,
    ensures
        0 <= at.0 < at.1 < s.filter_map(f).len(),
        s.filter_map(f)[at.0] == f(s[a])->0,
        s.filter_map(f)[at.1] == f(s[b])->0,
{
    let first = lemma_filter_map_at(s, f, a);
    let second = lemma_filter_map_at(s, f, b);
    let front = s.take(b);
    let again = lemma_filter_map_at(front, f, a);
    assert(front.take(a) =~= s.take(a));
    (first, second)
}

/// The storage tries are stored one account after another.
pub proof fn law_storage_tries_in_order(
    block_number: u64,
    tries: Seq<(B256, StorageTrieUpdates)>,
    more: (B256, StorageTrieUpdates),
)
    ensures
        all_storage_entries(block_number, Seq::empty()).len() == 0,
        all_storage_entries(block_number, tries.push(more)) == all_storage_entries(
            block_number,
            tries,
        ) + storage_entries(block_number, more.0@, more.1),
{
    assert(tries.push(more).drop_last() =~= tries);
}

/// Of a storage trie the removals are stored first, then the new values, both in the order in which
/// they are given.
#[verifier::spinoff_prover]
pub proof fn law_storage_entries_in_order(
    block_number: u64,
    hashed_address: Seq<u8>,
    updates: StorageTrieUpdates,
    a: int,
    b: int,
)
    ensures
        ({
            let removed = updates.removed_nodes@;
            let nodes = updates.storage_nodes@;
            let entries = storage_entries(block_number, hashed_address, updates);
            &&& forall|i: int, j: int|
                0 <= i < j < entries.len() && (#[trigger] entries[i]).branch is Some ==> (
                #[trigger] entries[j]).branch is Some
            &&& 0 <= a < b < removed.len() && removed[a]@.len() > 0 && removed[b]@.len() > 0 && (
            forall|k: int|
                0 <= k < nodes.len() ==> (#[trigger] nodes[k]).0@ != removed[a]@ && nodes[k].0@
                    != removed[b]@) ==> exists|i: int, j: int|
                0 <= i < j < entries.len() && (#[trigger] entries[i]).path == removed[a]@
                    && entries[i].branch is None && (#[trigger] entries[j]).path == removed[b]@
                    && entries[j].branch is None
            &&& 0 <= a < b < nodes.len() && nodes[a].0@.len() > 0 && nodes[b].0@.len() > 0
                ==> exists|i: int, j: int|
                0 <= i < j < entries.len() && (#[trigger] entries[i]).path == nodes[a].0@
                    && entries[i].branch == Some(nodes[a].1@) && (#[trigger] entries[j]).path
                    == nodes[b].0@ && entries[j].branch == Some(nodes[b].1@)
        }),
{
    let removed = paths_view(updates.removed_nodes@);
    let nodes = nodes_view(updates.storage_nodes@);
    let f = storage_removal(block_number, hashed_address, nodes);
    let g = storage_update(block_number, hashed_address);
    let gone = removed.filter_map(f);
    let new = nodes.filter_map(g);
    let entries = storage_entries(block_number, hashed_address, updates);
    assert(entries == gone + new);
    assert forall|i: int, j: int|
        0 <= i < j < entries.len() && (#[trigger] entries[i]).branch is Some implies (
    #[trigger] entries[j]).branch is Some by {
        if i < gone.len() {
            assert(gone.contains(gone[i]));
            removed.lemma_filter_map_contains(f, gone[i]);
            assert(entries[i] == gone[i]);
        } else {
            let n = j - gone.len();
            assert(new.contains(new[n]));
            nodes.lemma_filter_map_contains(g, new[n]);
            assert(entries[j] == new[n]);
        }
    }
    if 0 <= a < b < removed.len() && removed[a].len() > 0 && removed[b].len() > 0 && (forall|k: int|
        0 <= k < nodes.len() ==> (#[trigger] updates.storage_nodes@[k]).0@ != removed[a]
            && updates.storage_nodes@[k].0@ != removed[b]) {
        assert forall|k: int| 0 <= k < nodes.len() implies (#[trigger] nodes[k]).0 != removed[a]
            && nodes[k].0 != removed[b] by {
            assert(updates.storage_nodes@[k].0@ != removed[a]);
        }
        let (i, j) = lemma_filter_map_order(removed, f, a, b);
        assert(entries[i] == gone[i] && entries[j] == gone[j]);
    }
    if 0 <= a < b < nodes.len() && nodes[a].0.len() > 0 && nodes[b].0.len() > 0 {
        let (i, j) = lemma_filter_map_order(nodes, g, a, b);
        assert(entries[gone.len() + i] == new[i] && entries[gone.len() + j] == new[j]);
    }
}

} // verus!

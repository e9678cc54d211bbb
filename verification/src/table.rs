//! The branch table as a whole: what its two questions are answered, what a cursor reads
//! over it, and what writing changes for readers.
use vstd::prelude::*;

use crate::cursor::{CursorView, StepView};
use crate::sqlite::{RowView, SqliteStep};
use crate::storage::{EntryView, ReadView};

verus! {

/// The rows of the branch table: for a key and a block, the branch's stored form, or
/// nothing if the branch was deleted.
pub type Table = Map<(Seq<u8>, i64), Seq<u8>>;

/// Whether `key` is the key of some path in some trie.
pub open spec fn is_key(key: Seq<u8>) -> bool {
    exists|hashed_address: Option<Seq<u8>>, path: Seq<u8>|
        #![trigger crate::key::key_bytes(hashed_address, path)]
        crate::key::valid_address(hashed_address) && crate::primitives::valid_path(path) && key
            == crate::key::key_bytes(hashed_address, path)
}

/// Whether a table holds nothing but what the store writes to it.
pub open spec fn table_wf(table: Table) -> bool {
    &&& table.dom().finite()
    &&& forall|key: Seq<u8>, block: i64| #[trigger]
        table.contains_key((key, block)) ==> is_key(key) && (table[(key, block)].len() > 0
            ==> crate::branch::valid_branch_bytes(table[(key, block)]))
}

/// Whether `block` is the greatest block up to `max` with a row of `key`.
pub open spec fn is_latest_block(table: Table, key: Seq<u8>, max: i64, block: i64) -> bool {
    &&& table.contains_key((key, block))
    &&& block <= max
    &&& forall|other: i64| #[trigger]
        table.contains_key((key, other)) && other <= max ==> other <= block
}

/// The answer to the question for the latest row of a key: its row with the greatest block
/// up to `max`, if there is one.
pub open spec fn select_latest(table: Table, key: Seq<u8>, max: i64) -> Option<(Seq<u8>, Seq<u8>)> {
    if exists|block: i64| is_latest_block(table, key, max, block) {
        let block = choose|block: i64| is_latest_block(table, key, max, block);
        Some((key, table[(key, block)]))
    } else {
        None
    }
}

/// Whether the table has a row of `key`, at whatever block.
pub open spec fn has_key(table: Table, key: Seq<u8>) -> bool {
    exists|block: i64| #[trigger] table.contains_key((key, block))
}

/// Whether `next` is the first key of the table after `key`.
pub open spec fn is_next_key(table: Table, key: Seq<u8>, next: Seq<u8>) -> bool {
    &&& has_key(table, next)
    &&& crate::order::lex_lt(key, next)
    &&& forall|other: Seq<u8>| #[trigger]
        has_key(table, other) && crate::order::lex_lt(key, other) ==> crate::order::lex_le(
            next,
            other,
        )
}

/// The answer to the question for the first key after a key.
pub open spec fn select_next_key(table: Table, key: Seq<u8>) -> Option<Seq<u8>> {
    if exists|next: Seq<u8>| is_next_key(table, key, next) {
        Some(choose|next: Seq<u8>| is_next_key(table, key, next))
    } else {
        None
    }
}

/// The branch that stands at a path of a trie for a reader of block `max`, in its stored
/// form: what the latest row says, unless that marks a deletion.
pub open spec fn visible(
    table: Table,
    hashed_address: Option<Seq<u8>>,
    path: Seq<u8>,
    max: i64,
) -> Option<Seq<u8>> {
    match select_latest(table, crate::key::key_bytes(hashed_address, path), max) {
        Some((key, branch)) => if branch.len() > 0 {
            Some(branch)
        } else {
            None
        },
        None => None,
    }
}

/// The branch that stands at a path of the cursor's trie for the cursor's block.
pub open spec fn visible_to(table: Table, cursor: CursorView, path: Seq<u8>) -> Option<Seq<u8>> {
    visible(
        table,
        cursor.hashed_address,
        path,
        crate::key::block_int(cursor.max_block_number),
    )
}

/// Whether `path` is after `from`, or is `from` if `inclusive`.
pub open spec fn beyond(from: Seq<u8>, inclusive: bool, path: Seq<u8>) -> bool {
    crate::order::lex_lt(from, path) || (inclusive && path == from)
}

/// What a cursor reads in the end, and what it is then, if its questions are answered from
/// `table`, or nothing if that takes more than `fuel` questions.
pub open spec fn drive(table: Table, cursor: CursorView, step: StepView, fuel: nat) -> Option<
    (CursorView, ReadView),
>
    decreases fuel,
{
    match step {
        StepView::Finished(read) => Some((cursor, read)),
        StepView::Latest { key, max_block_number, path, exact } => if fuel == 0 {
            None
        } else {
            let (after, next) = cursor.after_latest(
                path,
                exact,
                select_latest(table, key, max_block_number),
            );
            drive(table, after, next, (fuel - 1) as nat)
        },
        StepView::NextKey { key } => if fuel == 0 {
            None
        } else {
            drive(
                table,
                cursor,
                cursor.after_next_key(select_next_key(table, key)),
                (fuel - 1) as nat,
            )
        },
    }
}

/// What a cursor reads, and what it is then, if so many of its questions are answered from `table`
/// and the one after them fails with `detail`.
pub open spec fn drive_failing(
    table: Table,
    cursor: CursorView,
    step: StepView,
    answered: nat,
    detail: Seq<char>,
) -> (CursorView, ReadView)
    decreases answered,
{
    match step {
        StepView::Finished(read) => (cursor, read),
        StepView::Latest { key, max_block_number, path, exact } => if answered == 0 {
            (cursor, Err(crate::sqlite::step_error(SqliteStep::Lookup, detail)))
        } else {
            let (after, next) = cursor.after_latest(
                path,
                exact,
                select_latest(table, key, max_block_number),
            );
            drive_failing(table, after, next, (answered - 1) as nat, detail)
        },
        StepView::NextKey { key } => if answered == 0 {
            (cursor, Err(crate::sqlite::step_error(SqliteStep::Lookup, detail)))
        } else {
            drive_failing(
                table,
                cursor,
                cursor.after_next_key(select_next_key(table, key)),
                (answered - 1) as nat,
                detail,
            )
        },
    }
}

/// A search in which a question fails gives that error and leaves the cursor where it was, unless
/// it ended before that question: then it is as without the failure.
pub proof fn law_failed_lookup(
    table: Table,
    cursor: CursorView,
    step: StepView,
    answered: nat,
    detail: Seq<char>,
)
    ensures
        match drive(table, cursor, step, answered) {
            Some(ended) => drive_failing(table, cursor, step, answered, detail) == ended,
            None => drive_failing(table, cursor, step, answered, detail) == (
                cursor,
                Err::<Option<(Seq<u8>, crate::branch::BranchView)>, crate::storage::ErrorView>(
                    crate::sqlite::step_error(SqliteStep::Lookup, detail),
                ),
            ),
        },
    decreases answered,
{
    if answered > 0 {
        match step {
            StepView::Finished(_) => {},
            StepView::Latest { key, max_block_number, path, exact } => {
                let (after, next) = cursor.after_latest(
                    path,
                    exact,
                    select_latest(table, key, max_block_number),
                );
                law_failed_lookup(table, after, next, (answered - 1) as nat, detail);
            },
            StepView::NextKey { key } => {
                law_failed_lookup(
                    table,
                    cursor,
                    cursor.after_next_key(select_next_key(table, key)),
                    (answered - 1) as nat,
                    detail,
                );
            },
        }
    }
}

/// How many questions any search takes at most.
pub open spec fn enough(table: Table) -> nat {
    2 * table.dom().len() + 2
}

/// If a key has a row up to a block, it has a latest one.
proof fn lemma_latest_exists(table: Table, key: Seq<u8>, max: i64, block: i64)
    requires
        table.contains_key((key, block)),
        block <= max,
    ensures
        exists|latest: i64| is_latest_block(table, key, max, latest),
    decreases max - block,
{
    if !is_latest_block(table, key, max, block) {
        let later = choose|other: i64| #[trigger]
            table.contains_key((key, other)) && other <= max && other > block;
        lemma_latest_exists(table, key, max, later);
    }
}

/// The answer for the latest row is that of the greatest block up to the maximum.
proof fn lemma_select_latest(table: Table, key: Seq<u8>, max: i64, block: i64)
    requires
        is_latest_block(table, key, max, block),
    ensures
        select_latest(table, key, max) == Some((key, table[(key, block)])),
{
    let chosen = choose|other: i64| is_latest_block(table, key, max, other);
    assert(is_latest_block(table, key, max, chosen));
    assert(table.contains_key((key, chosen)));
    assert(table.contains_key((key, block)));
    assert(chosen == block);
}

/// The question for the latest row of a key is answered with its row of the greatest block up to
/// the maximum, and with nothing only if there is none.
pub proof fn law_latest_row(table: Table, key: Seq<u8>, max: i64)
    ensures
        match select_latest(table, key, max) {
            Some((found, branch)) => found == key && exists|block: i64|
                #![trigger table.contains_key((key, block))]
                is_latest_block(table, key, max, block) && branch == table[(key, block)],
            None => forall|block: i64| #[trigger]
                table.contains_key((key, block)) ==> block > max,
        },
{
    if exists|block: i64| is_latest_block(table, key, max, block) {
        let block = choose|block: i64| is_latest_block(table, key, max, block);
        assert(table.contains_key((key, block)));
    } else {
        assert forall|block: i64| #[trigger] table.contains_key((key, block)) implies block > max by {
            if block <= max {
                lemma_latest_exists(table, key, max, block);
            }
        }
    }
}

/// The rows with a key after `from`.
pub open spec fn rows_after(table: Table, from: Seq<u8>) -> Set<(Seq<u8>, i64)> {
    table.dom().filter(|row: (Seq<u8>, i64)| crate::order::lex_lt(from, row.0))
}

/// A later start leaves fewer rows.
proof fn lemma_rows_after_shrink(table: Table, from: Seq<u8>, key: Seq<u8>)
    requires
        table.dom().finite(),
        has_key(table, key),
        crate::order::lex_lt(from, key),
    ensures
        rows_after(table, key).len() < rows_after(table, from).len(),
{
    let block = choose|block: i64| #[trigger] table.contains_key((key, block));
    let outer = rows_after(table, from);
    let inner = rows_after(table, key);
    crate::order::lemma_lex_irreflexive(key);
    assert forall|row: (Seq<u8>, i64)| inner.contains(row) implies outer.contains(row) by {
        crate::order::lemma_lex_transitive(from, key, row.0);
    }
    assert(outer.contains((key, block)));
    assert(!inner.contains((key, block)));
    vstd::set_lib::lemma_len_subset(inner, outer.remove((key, block)));
}

/// If a table has a key after another, it has a first one.
proof fn lemma_next_key_exists(table: Table, key: Seq<u8>, some: Seq<u8>)
    requires
        table.dom().finite(),
        has_key(table, some),
        crate::order::lex_lt(key, some),
    ensures
        exists|next: Seq<u8>| is_next_key(table, key, next),
    decreases table.dom().len() - rows_after(table, some).len(),
{
    if !is_next_key(table, key, some) {
        let earlier = choose|other: Seq<u8>| #[trigger]
            has_key(table, other) && crate::order::lex_lt(key, other) && !crate::order::lex_le(
                some,
                other,
            );
        crate::order::lemma_lex_total(some, earlier);
        lemma_rows_after_shrink(table, earlier, some);
        vstd::set_lib::lemma_len_subset(rows_after(table, earlier), table.dom());
        lemma_next_key_exists(table, key, earlier);
    }
}

/// The question for the first key after a key is answered with the least of the keys that come
/// after it, and with nothing only if none does.
pub proof fn law_next_key(table: Table, key: Seq<u8>)
    requires
        table.dom().finite(),
    ensures
        match select_next_key(table, key) {
            Some(next) => is_next_key(table, key, next),
            None => forall|other: Seq<u8>| #[trigger]
                has_key(table, other) ==> !crate::order::lex_lt(key, other),
        },
{
    if !exists|next: Seq<u8>| is_next_key(table, key, next) {
        assert forall|other: Seq<u8>| #[trigger] has_key(table, other) implies !crate::order::lex_lt(
            key,
            other,
        ) by {
            if crate::order::lex_lt(key, other) {
                lemma_next_key_exists(table, key, other);
            }
        }
    }
}

/// What is visible has a row.
proof fn lemma_visible_has_key(
    table: Table,
    hashed_address: Option<Seq<u8>>,
    path: Seq<u8>,
    max: i64,
)
    requires
        visible(table, hashed_address, path, max) is Some,
    ensures
        has_key(table, crate::key::key_bytes(hashed_address, path)),
{
    let key = crate::key::key_bytes(hashed_address, path);
    let block = choose|block: i64| is_latest_block(table, key, max, block);
    assert(is_latest_block(table, key, max, block));
    assert(table.contains_key((key, block)));
}

/// The latest row of a path is read as what is visible there.
proof fn lemma_read_visible(
    table: Table,
    hashed_address: Option<Seq<u8>>,
    path: Seq<u8>,
    max: i64,
)
    requires
        table_wf(table),
        crate::key::valid_address(hashed_address),
        crate::primitives::valid_path(path),
    ensures
        crate::cursor::readable_row(
            select_latest(table, crate::key::key_bytes(hashed_address, path), max),
        ),
        crate::cursor::latest_read(
            select_latest(table, crate::key::key_bytes(hashed_address, path), max),
        ) == (match visible(table, hashed_address, path, max) {
            Some(branch) => Ok::<_, crate::storage::ErrorView>(
                Some((path, crate::branch::branch_of(branch))),
            ),
            None => Ok(None),
        }),
{
    let key = crate::key::key_bytes(hashed_address, path);
    crate::key::law_key_roundtrip(hashed_address, path);
    if exists|block: i64| is_latest_block(table, key, max, block) {
        let block = choose|block: i64| is_latest_block(table, key, max, block);
        assert(is_latest_block(table, key, max, block));
        assert(table.contains_key((key, block)));
    }
}

/// The first key after that of a path leads to the next path of the trie that has a row,
/// or out of the trie if there is none.
proof fn lemma_next_path(table: Table, hashed_address: Option<Seq<u8>>, path: Seq<u8>)
    requires
        table_wf(table),
        crate::key::valid_address(hashed_address),
    ensures
        match select_next_key(table, crate::key::key_bytes(hashed_address, path)) {
            Some(key) => {
                &&& crate::key::key_fits(key)
                &&& has_key(table, key)
                &&& crate::order::lex_lt(crate::key::key_bytes(hashed_address, path), key)
                &&& crate::key::key_of(key) is Ok
                &&& if crate::key::key_of(key)->Ok_0.hashed_address == hashed_address {
                    let next = crate::key::key_of(key)->Ok_0.path;
                    &&& key == crate::key::key_bytes(hashed_address, next)
                    &&& crate::primitives::valid_path(next)
                    &&& crate::order::lex_lt(path, next)
                    &&& forall|other: Seq<u8>|
                        #![trigger crate::key::key_bytes(hashed_address, other)]
                        crate::order::lex_lt(path, other) && has_key(
                            table,
                            crate::key::key_bytes(hashed_address, other),
                        ) ==> crate::order::lex_le(next, other)
                } else {
                    forall|other: Seq<u8>|
                        #![trigger crate::key::key_bytes(hashed_address, other)]
                        crate::order::lex_lt(path, other) ==> !has_key(
                            table,
                            crate::key::key_bytes(hashed_address, other),
                        )
                }
            },
            None => forall|other: Seq<u8>|
                #![trigger crate::key::key_bytes(hashed_address, other)]
                crate::order::lex_lt(path, other) ==> !has_key(
                    table,
                    crate::key::key_bytes(hashed_address, other),
                ),
        },
{
    let from = crate::key::key_bytes(hashed_address, path);
    match select_next_key(table, from) {
        Some(key) => {
            assert(is_next_key(table, from, key));
            let block = choose|block: i64| #[trigger] table.contains_key((key, block));
            assert(is_key(key));
            let (address, next) = choose|address: Option<Seq<u8>>, next: Seq<u8>|
                #![trigger crate::key::key_bytes(address, next)]
                crate::key::valid_address(address) && crate::primitives::valid_path(next) && key
                    == crate::key::key_bytes(address, next);
            crate::key::law_key_roundtrip(address, next);
            if address == hashed_address {
                crate::key::law_key_order(hashed_address, path, next);
                assert forall|other: Seq<u8>|
                    #![trigger crate::key::key_bytes(hashed_address, other)]
                    crate::order::lex_lt(path, other) && has_key(
                        table,
                        crate::key::key_bytes(hashed_address, other),
                    ) implies crate::order::lex_le(next, other) by {
                    crate::key::law_key_order(hashed_address, path, other);
                    crate::key::law_key_order(hashed_address, next, other);
                    let other_key = crate::key::key_bytes(hashed_address, other);
                    assert(crate::order::lex_le(key, other_key));
                    if key == other_key {
                        let n = crate::key::key_prefix(hashed_address).len() as int;
                        assert(key.skip(n) =~= next);
                        assert(other_key.skip(n) =~= other);
                    }
                }
            } else {
                assert forall|other: Seq<u8>|
                    #![trigger crate::key::key_bytes(hashed_address, other)]
                    crate::order::lex_lt(path, other) implies !has_key(
                    table,
                    crate::key::key_bytes(hashed_address, other),
                ) by {
                    let other_key = crate::key::key_bytes(hashed_address, other);
                    if has_key(table, other_key) {
                        crate::key::law_key_order(hashed_address, path, other);
                        assert(crate::order::lex_le(key, other_key));
                        if key == other_key {
                            let b = choose|b: i64| #[trigger] table.contains_key((other_key, b));
                            lemma_same_trie(address, next, hashed_address, other);
                        } else {
                            crate::key::law_trie_keys_together(
                                hashed_address,
                                path,
                                other,
                                address,
                                next,
                            );
                        }
                    }
                }
            }
        },
        None => {
            assert forall|other: Seq<u8>|
                #![trigger crate::key::key_bytes(hashed_address, other)]
                crate::order::lex_lt(path, other) implies !has_key(
                table,
                crate::key::key_bytes(hashed_address, other),
            ) by {
                if has_key(table, crate::key::key_bytes(hashed_address, other)) {
                    crate::key::law_key_order(hashed_address, path, other);
                    lemma_next_key_exists(
                        table,
                        from,
                        crate::key::key_bytes(hashed_address, other),
                    );
                }
            }
        },
    }
}

/// Equal keys are of one trie, whatever the paths.
proof fn lemma_same_trie(
    address: Option<Seq<u8>>,
    path: Seq<u8>,
    other_address: Option<Seq<u8>>,
    other_path: Seq<u8>,
)
    requires
        crate::key::valid_address(address),
        crate::key::valid_address(other_address),
        crate::key::key_bytes(address, path) == crate::key::key_bytes(other_address, other_path),
    ensures
        address == other_address,
{
    let key = crate::key::key_bytes(address, path);
    match (address, other_address) {
        (Some(a), Some(b)) => {
            assert(key.subrange(1, 33) =~= a);
            assert(key.subrange(1, 33) =~= b);
        },
        (Some(a), None) => {
            assert(key[0] == 0);
        },
        (None, Some(b)) => {
            assert(key[0] == 1);
        },
        (None, None) => {},
    }
}

/// What a search for the first branch beyond a path must give: that branch, with the cursor
/// at its path, or nothing, with the cursor as it was, if there is none.
pub open spec fn finds_first(
    table: Table,
    cursor: CursorView,
    from: Seq<u8>,
    inclusive: bool,
    outcome: Option<(CursorView, ReadView)>,
) -> bool {
    match outcome {
        Some((after, Ok(Some((path, branch))))) => {
            &&& crate::primitives::valid_path(path)
            &&& beyond(from, inclusive, path)
            &&& visible_to(table, cursor, path) is Some
            &&& branch == crate::branch::branch_of(visible_to(table, cursor, path)->0)
            &&& after == cursor.at(path)
            &&& forall|other: Seq<u8>| #[trigger]
                visible_to(table, cursor, other) is Some && beyond(from, inclusive, other)
                    ==> crate::order::lex_le(path, other)
        },
        Some((after, Ok(None))) => {
            &&& after == cursor
            &&& forall|other: Seq<u8>| #[trigger]
                visible_to(table, cursor, other) is Some ==> !beyond(from, inclusive, other)
        },
        _ => false,
    }
}

/// A search that starts with the next key finds the first branch after the path.
proof fn lemma_walk(table: Table, cursor: CursorView, path: Seq<u8>, fuel: nat)
    requires
        table_wf(table),
        crate::key::valid_address(cursor.hashed_address),
        fuel >= 2 * rows_after(table, crate::key::key_bytes(cursor.hashed_address, path)).len() + 1,
    ensures
        finds_first(
            table,
            cursor,
            path,
            false,
            drive(table, cursor, cursor.next_key_step(path), fuel),
        ),
    decreases fuel,
{
    let from = crate::key::key_bytes(cursor.hashed_address, path);
    let max = crate::key::block_int(cursor.max_block_number);
    let outcome = drive(table, cursor, cursor.next_key_step(path), fuel);
    lemma_next_path(table, cursor.hashed_address, path);
    let step = cursor.after_next_key(select_next_key(table, from));
    assert(outcome == drive(table, cursor, step, (fuel - 1) as nat));
    assert forall|other: Seq<u8>| #[trigger]
        visible_to(table, cursor, other) is Some implies has_key(
        table,
        crate::key::key_bytes(cursor.hashed_address, other),
    ) by {
        lemma_visible_has_key(table, cursor.hashed_address, other, max);
    }
    match select_next_key(table, from) {
        Some(key) => {
            lemma_rows_after_shrink(table, from, key);
            let k = crate::key::key_of(key)->Ok_0;
            if k.hashed_address == cursor.hashed_address {
                let next = k.path;
                assert(key == crate::key::key_bytes(cursor.hashed_address, next));
                lemma_read_visible(table, cursor.hashed_address, next, max);
                let (after, then) = cursor.after_latest(next, false, select_latest(table, key, max));
                assert(step == cursor.latest_step(next, false));
                assert(outcome == drive(table, after, then, (fuel - 2) as nat));
                if visible_to(table, cursor, next) is None {
                    assert(then == cursor.next_key_step(next));
                    lemma_walk(table, cursor, next, (fuel - 2) as nat);
                    assert forall|other: Seq<u8>| #[trigger]
                        visible_to(table, cursor, other) is Some && beyond(
                            path,
                            false,
                            other,
                        ) implies beyond(next, false, other) by {
                        assert(has_key(
                            table,
                            crate::key::key_bytes(cursor.hashed_address, other),
                        ));
                    }
                    match outcome {
                        Some((after, Ok(Some((found, branch))))) => {
                            crate::order::lemma_lex_transitive(path, next, found);
                        },
                        _ => {},
                    }
                } else {
                    assert forall|other: Seq<u8>| #[trigger]
                        visible_to(table, cursor, other) is Some && beyond(
                            path,
                            false,
                            other,
                        ) implies crate::order::lex_le(next, other) by {
                        assert(has_key(
                            table,
                            crate::key::key_bytes(cursor.hashed_address, other),
                        ));
                    }
                }
            }
        },
        None => {},
    }
}

/// Seeking finds the first branch of the cursor's trie that is visible at its block, at the
/// path or after it (`inclusive`), or only after it. It moves the cursor there, or leaves
/// it if there is no such branch, and comes to an end whatever the table.
pub proof fn law_seek(
    table: Table,
    cursor: CursorView,
    path: Seq<u8>,
    inclusive: bool,
    fuel: nat,
)
    requires
        table_wf(table),
        crate::key::valid_address(cursor.hashed_address),
        crate::primitives::valid_path(path),
        fuel >= enough(table),
    ensures
        finds_first(
            table,
            cursor,
            path,
            inclusive,
            drive(table, cursor, cursor.seek_step(path, inclusive), fuel),
        ),
{
    let from = crate::key::key_bytes(cursor.hashed_address, path);
    let max = crate::key::block_int(cursor.max_block_number);
    vstd::set_lib::lemma_len_subset(rows_after(table, from), table.dom());
    if inclusive {
        lemma_read_visible(table, cursor.hashed_address, path, max);
        let (after, then) = cursor.after_latest(path, false, select_latest(table, from, max));
        assert(drive(table, cursor, cursor.seek_step(path, inclusive), fuel) == drive(
            table,
            after,
            then,
            (fuel - 1) as nat,
        ));
        if visible_to(table, cursor, path) is None {
            lemma_walk(table, cursor, path, (fuel - 1) as nat);
        }
    } else {
        lemma_walk(table, cursor, path, fuel);
    }
}

/// Seeking a path exactly reads the branch that is visible there, and moves the cursor to
/// it, or reads nothing and leaves the cursor, in a single question.
pub proof fn law_seek_exact(table: Table, cursor: CursorView, path: Seq<u8>, fuel: nat)
    requires
        table_wf(table),
        crate::key::valid_address(cursor.hashed_address),
        crate::primitives::valid_path(path),
        fuel >= 1,
    ensures
        drive(table, cursor, cursor.latest_step(path, true), fuel) == Some(
            match visible_to(table, cursor, path) {
                Some(branch) => (
                    cursor.at(path),
                    Ok::<_, crate::storage::ErrorView>(
                        Some((path, crate::branch::branch_of(branch))),
                    ),
                ),
                None => (cursor, Ok(None)),
            },
        ),
{
    let key = crate::key::key_bytes(cursor.hashed_address, path);
    let max = crate::key::block_int(cursor.max_block_number);
    lemma_read_visible(table, cursor.hashed_address, path, max);
    let (after, then) = cursor.after_latest(path, true, select_latest(table, key, max));
    assert(drive(table, cursor, cursor.latest_step(path, true), fuel) == drive(
        table,
        after,
        then,
        (fuel - 1) as nat,
    ));
}

/// The next branch is the first visible one after the path that was found last, and the
/// first of all if none was.
pub proof fn law_next(table: Table, cursor: CursorView, fuel: nat)
    requires
        table_wf(table),
        crate::key::valid_address(cursor.hashed_address),
        cursor.last_seeked is Some ==> crate::primitives::valid_path(cursor.last_seeked->0),
        fuel >= enough(table),
    ensures
        match cursor.last_seeked {
            Some(path) => finds_first(
                table,
                cursor,
                path,
                false,
                drive(table, cursor, cursor.next_step(), fuel),
            ),
            None => finds_first(
                table,
                cursor,
                Seq::empty(),
                true,
                drive(table, cursor, cursor.next_step(), fuel),
            ),
        },
        forall|path: Seq<u8>| #[trigger] beyond(Seq::empty(), true, path),
{
    match cursor.last_seeked {
        Some(path) => law_seek(table, cursor, path, false, fuel),
        None => law_seek(table, cursor, Seq::empty(), true, fuel),
    }
    assert forall|path: Seq<u8>| #[trigger] beyond(Seq::empty(), true, path) by {
        if path.len() == 0 {
            assert(path =~= Seq::empty());
        }
    }
}

/// Whether calling for the next branch again and again gives `paths` and then nothing.
pub open spec fn lists(table: Table, cursor: CursorView, paths: Seq<Seq<u8>>) -> bool
    decreases paths.len(),
{
    match drive(table, cursor, cursor.next_step(), enough(table)) {
        Some((after, Ok(Some((path, branch))))) => paths.len() > 0 && paths[0] == path && lists(
            table,
            after,
            paths.drop_first(),
        ),
        Some((after, Ok(None))) => paths.len() == 0,
        _ => false,
    }
}

/// Whether a path is still ahead of a cursor.
pub open spec fn ahead(cursor: CursorView, path: Seq<u8>) -> bool {
    cursor.last_seeked is Some ==> crate::order::lex_lt(cursor.last_seeked->0, path)
}

/// Calling for the next branch again and again gives every visible path ahead of the cursor
/// once, in order, and nothing else.
pub proof fn law_listing_complete(table: Table, cursor: CursorView, paths: Seq<Seq<u8>>)
    requires
        table_wf(table),
        crate::key::valid_address(cursor.hashed_address),
        cursor.last_seeked is Some ==> crate::primitives::valid_path(cursor.last_seeked->0),
        lists(table, cursor, paths),
    ensures
        forall|path: Seq<u8>|
            paths.contains(path) <==> (#[trigger] visible_to(table, cursor, path) is Some && ahead(
                cursor,
                path,
            )),
        forall|i: int, j: int|
            0 <= i < j < paths.len() ==> #[trigger] crate::order::lex_lt(paths[i], paths[j]),
    decreases paths.len(),
{
    law_next(table, cursor, enough(table));
    match drive(table, cursor, cursor.next_step(), enough(table)) {
        Some((after, Ok(Some((first, branch))))) => {
            let rest = paths.drop_first();
            law_listing_complete(table, after, rest);
            assert forall|path: Seq<u8>|
                paths.contains(path) <==> (#[trigger] visible_to(table, cursor, path) is Some
                    && ahead(cursor, path)) by {
                assert(visible_to(table, after, path) == visible_to(table, cursor, path));
                if paths.contains(path) {
                    let i = choose|i: int| 0 <= i < paths.len() && paths[i] == path;
                    if i > 0 {
                        assert(rest[i - 1] == path);
                        assert(rest.contains(path));
                        if cursor.last_seeked is Some {
                            crate::order::lemma_lex_transitive(cursor.last_seeked->0, first, path);
                        }
                    }
                }
                if visible_to(table, cursor, path) is Some && ahead(cursor, path) {
                    assert(beyond(Seq::empty(), true, path));
                    assert(crate::order::lex_le(first, path));
                    if path == first {
                        assert(paths[0] == path);
                    } else {
                        assert(rest.contains(path));
                        let i = choose|i: int| 0 <= i < rest.len() && rest[i] == path;
                        assert(paths[i + 1] == path);
                    }
                }
            }
            assert forall|i: int, j: int| 0 <= i < j < paths.len() implies #[trigger] crate::order::lex_lt(
                paths[i],
                paths[j],
            ) by {
                assert(rest[j - 1] == paths[j]);
                assert(rest.contains(paths[j]));
                if i == 0 {
                    assert(visible_to(table, after, paths[j]) is Some && ahead(after, paths[j]));
                } else {
                    assert(rest[i - 1] == paths[i]);
                    assert(crate::order::lex_lt(rest[i - 1], rest[j - 1]));
                }
            }
        },
        _ => {
            assert forall|path: Seq<u8>|
                paths.contains(path) <==> (#[trigger] visible_to(table, cursor, path) is Some
                    && ahead(cursor, path)) by {
                assert(beyond(Seq::empty(), true, path));
            }
        },
    }
}

/// Calling for the next branch again and again comes to an end.
pub proof fn law_listing_ends(table: Table, cursor: CursorView) -> (paths: Seq<Seq<u8>>)
    requires
        table_wf(table),
        crate::key::valid_address(cursor.hashed_address),
        cursor.last_seeked is Some ==> crate::primitives::valid_path(cursor.last_seeked->0),
    ensures
        lists(table, cursor, paths),
    decreases
            if cursor.last_seeked is Some {
                rows_after(
                    table,
                    crate::key::key_bytes(cursor.hashed_address, cursor.last_seeked->0),
                ).len()
            } else {
                table.dom().len() + 1
            },
{
    law_next(table, cursor, enough(table));
    match drive(table, cursor, cursor.next_step(), enough(table)) {
        Some((after, Ok(Some((first, branch))))) => {
            let max = crate::key::block_int(cursor.max_block_number);
            let key = crate::key::key_bytes(cursor.hashed_address, first);
            lemma_visible_has_key(table, cursor.hashed_address, first, max);
            vstd::set_lib::lemma_len_subset(rows_after(table, key), table.dom());
            if cursor.last_seeked is Some {
                crate::key::law_key_order(cursor.hashed_address, cursor.last_seeked->0, first);
                lemma_rows_after_shrink(
                    table,
                    crate::key::key_bytes(cursor.hashed_address, cursor.last_seeked->0),
                    key,
                );
            }
            let rest = law_listing_ends(table, after);
            let paths = seq![first] + rest;
            assert(paths.drop_first() =~= rest);
            paths
        },
        _ => Seq::empty(),
    }
}

/// A table after a row is put in it, in the place of any other of the same key and block.
pub open spec fn put(table: Table, row: RowView) -> Table {
    table.insert((row.key, row.block_number), row.branch)
}

/// A table after rows are put in it one after another.
pub open spec fn put_all(table: Table, rows: Seq<RowView>) -> Table
    decreases rows.len(),
{
    if rows.len() == 0 {
        table
    } else {
        put(put_all(table, rows.drop_last()), rows.last())
    }
}

/// Whether an entry can be stored: its path is one, and its branch is well-formed.
pub open spec fn entry_wf(entry: EntryView) -> bool {
    &&& crate::key::valid_address(entry.hashed_address)
    &&& crate::primitives::valid_path(entry.path)
    &&& entry.branch is Some ==> entry.branch->0.wf()
}

/// Storing an entry leaves the table well-formed.
pub proof fn law_store_keeps_table(table: Table, entry: EntryView)
    requires
        table_wf(table),
        entry_wf(entry),
    ensures
        table_wf(put(table, crate::sqlite::row_of(entry))),
{
    let row = crate::sqlite::row_of(entry);
    let after = put(table, row);
    assert(row.key == crate::key::key_bytes(entry.hashed_address, entry.path));
    if entry.branch is Some {
        crate::branch::law_branch_roundtrip(entry.branch->0);
    }
    assert forall|key: Seq<u8>, block: i64| #[trigger] after.contains_key((key, block)) implies is_key(
        key,
    ) && (after[(key, block)].len() > 0 ==> crate::branch::valid_branch_bytes(
        after[(key, block)],
    )) by {
        if (key, block) != (row.key, row.block_number) {
            assert(table.contains_key((key, block)));
        }
    }
}

/// Whether a reader of a block who looks at an entry's path sees the entry's block and no row
/// that is later.
pub open spec fn is_latest_entry(table: Table, entry: EntryView, max_block_number: u64) -> bool {
    let key = crate::key::key_bytes(entry.hashed_address, entry.path);
    &&& entry.block_number <= max_block_number
    &&& forall|other: i64| #[trigger]
        table.contains_key((key, other)) && other <= crate::key::block_int(max_block_number)
            ==> other <= crate::key::block_int(entry.block_number)
}

/// What was stored is what is read: a reader at the block of an entry or after it, and
/// before the next change of that path, sees the entry's branch, or nothing if the entry
/// marks a deletion.
pub proof fn law_read_what_was_stored(table: Table, entry: EntryView, max_block_number: u64)
    requires
        entry_wf(entry),
        is_latest_entry(table, entry, max_block_number),
    ensures
        match visible(
            put(table, crate::sqlite::row_of(entry)),
            entry.hashed_address,
            entry.path,
            crate::key::block_int(max_block_number),
        ) {
            Some(bytes) => entry.branch == Some(crate::branch::branch_of(bytes)),
            None => entry.branch is None,
        },
{
    let row = crate::sqlite::row_of(entry);
    let after = put(table, row);
    let key = crate::key::key_bytes(entry.hashed_address, entry.path);
    let max = crate::key::block_int(max_block_number);
    assert forall|other: i64| #[trigger]
        after.contains_key((key, other)) && other <= max implies other <= row.block_number by {
        if other != row.block_number {
            assert(table.contains_key((key, other)));
        }
    }
    assert(is_latest_block(after, key, max, row.block_number));
    lemma_select_latest(after, key, max, row.block_number);
    if entry.branch is Some {
        crate::branch::law_branch_roundtrip(entry.branch->0);
    }
}

/// A cursor at the block of an entry or after it, and before the next change of that path,
/// that seeks the path exactly reads the stored branch itself, or nothing if the entry marks
/// a deletion.
pub proof fn law_seek_exact_what_was_stored(
    table: Table,
    entry: EntryView,
    cursor: CursorView,
    fuel: nat,
)
    requires
        table_wf(table),
        entry_wf(entry),
        cursor.hashed_address == entry.hashed_address,
        is_latest_entry(table, entry, cursor.max_block_number),
        fuel >= 1,
    ensures
        drive(
            put(table, crate::sqlite::row_of(entry)),
            cursor,
            cursor.latest_step(entry.path, true),
            fuel,
        ) == Some(
            match entry.branch {
                Some(branch) => (
                    cursor.at(entry.path),
                    Ok::<_, crate::storage::ErrorView>(Some((entry.path, branch))),
                ),
                None => (cursor, Ok(None)),
            },
        ),
{
    let after = put(table, crate::sqlite::row_of(entry));
    law_store_keeps_table(table, entry);
    law_read_what_was_stored(table, entry, cursor.max_block_number);
    law_seek_exact(after, cursor, entry.path, fuel);
}

/// The answer for the latest row depends on the rows of that key up to that block alone.
proof fn lemma_select_latest_same(table: Table, other: Table, key: Seq<u8>, max: i64)
    requires
        forall|block: i64|
            #![trigger table.contains_key((key, block))]
            #![trigger other.contains_key((key, block))]
            block <= max ==> table.contains_key((key, block)) == other.contains_key((key, block))
                && (table.contains_key((key, block)) ==> table[(key, block)] == other[(
                key,
                block,
            )]),
    ensures
        select_latest(table, key, max) == select_latest(other, key, max),
{
    if exists|block: i64| is_latest_block(table, key, max, block) {
        let block = choose|block: i64| is_latest_block(table, key, max, block);
        assert(is_latest_block(table, key, max, block));
        assert(is_latest_block(other, key, max, block));
        lemma_select_latest(table, key, max, block);
        lemma_select_latest(other, key, max, block);
    } else if exists|block: i64| is_latest_block(other, key, max, block) {
        let block = choose|block: i64| is_latest_block(other, key, max, block);
        assert(is_latest_block(other, key, max, block));
        assert(is_latest_block(table, key, max, block));
    }
}

/// Storing at a block changes nothing for readers of earlier blocks. A reader of a block
/// from 2^63 - 1 on sees all that is stored, as blocks are kept as signed integers.
pub proof fn law_earlier_readers_unchanged(
    table: Table,
    entry: EntryView,
    hashed_address: Option<Seq<u8>>,
    path: Seq<u8>,
    max_block_number: u64,
)
    requires
        max_block_number < entry.block_number,
        max_block_number < i64::MAX,
    ensures
        visible(
            put(table, crate::sqlite::row_of(entry)),
            hashed_address,
            path,
            crate::key::block_int(max_block_number),
        ) == visible(table, hashed_address, path, crate::key::block_int(max_block_number)),
{
    lemma_select_latest_same(
        put(table, crate::sqlite::row_of(entry)),
        table,
        crate::key::key_bytes(hashed_address, path),
        crate::key::block_int(max_block_number),
    );
}

/// Storing at a path of a trie changes nothing at other paths or in other tries.
pub proof fn law_other_paths_unchanged(
    table: Table,
    entry: EntryView,
    hashed_address: Option<Seq<u8>>,
    path: Seq<u8>,
    max: i64,
)
    requires
        entry_wf(entry),
        crate::key::valid_address(hashed_address),
        crate::primitives::valid_path(path),
        hashed_address != entry.hashed_address || path != entry.path,
    ensures
        visible(put(table, crate::sqlite::row_of(entry)), hashed_address, path, max) == visible(
            table,
            hashed_address,
            path,
            max,
        ),
{
    let key = crate::key::key_bytes(hashed_address, path);
    if key == crate::key::key_bytes(entry.hashed_address, entry.path) {
        crate::key::law_key_injective(hashed_address, path, entry.hashed_address, entry.path);
    }
    lemma_select_latest_same(put(table, crate::sqlite::row_of(entry)), table, key, max);
}

/// What is stored at block 0 is seen by readers of every block, as long as nothing else was
/// stored at its path.
pub proof fn law_block_zero_seen_by_all(table: Table, entry: EntryView, max_block_number: u64)
    requires
        entry_wf(entry),
        entry.block_number == 0,
        forall|block: i64|
            block > 0 ==> !#[trigger] table.contains_key(
                (crate::key::key_bytes(entry.hashed_address, entry.path), block),
            ),
    ensures
        match visible(
            put(table, crate::sqlite::row_of(entry)),
            entry.hashed_address,
            entry.path,
            crate::key::block_int(max_block_number),
        ) {
            Some(bytes) => entry.branch == Some(crate::branch::branch_of(bytes)),
            None => entry.branch is None,
        },
{
    law_read_what_was_stored(table, entry, max_block_number);
}

/// Storing again at the same path and block replaces what was stored there.
pub proof fn law_store_replaces(table: Table, entry: EntryView, again: EntryView)
    requires
        again.hashed_address == entry.hashed_address,
        again.path == entry.path,
        again.block_number == entry.block_number,
    ensures
        put(put(table, crate::sqlite::row_of(entry)), crate::sqlite::row_of(again)) == put(
            table,
            crate::sqlite::row_of(again),
        ),
{
    assert(put(put(table, crate::sqlite::row_of(entry)), crate::sqlite::row_of(again)) =~= put(
        table,
        crate::sqlite::row_of(again),
    ));
}

/// Storing two batches one after the other is storing them as one; a batch of one entry is
/// that entry.
pub proof fn law_batches_join(table: Table, first: Seq<EntryView>, second: Seq<EntryView>)
    ensures
        put_all(table, crate::sqlite::rows_of(first + second)) == put_all(
            put_all(table, crate::sqlite::rows_of(first)),
            crate::sqlite::rows_of(second),
        ),
        second.len() == 1 ==> put_all(table, crate::sqlite::rows_of(second)) == put(
            table,
            crate::sqlite::row_of(second[0]),
        ),
    decreases second.len(),
{
    if second.len() == 0 {
        assert(first + second =~= first);
    } else {
        let rows = crate::sqlite::rows_of(first + second);
        law_batches_join(table, first, second.drop_last());
        assert(rows.drop_last() =~= crate::sqlite::rows_of(first + second.drop_last()));
        assert(crate::sqlite::rows_of(second).drop_last() =~= crate::sqlite::rows_of(
            second.drop_last(),
        ));
        assert(rows.last() == crate::sqlite::rows_of(second).last());
        if second.len() == 1 {
            assert(put_all(table, crate::sqlite::rows_of(second).drop_last()) == table);
        }
    }
}

/// Storing a batch leaves the table well-formed.
pub proof fn law_batch_keeps_table(table: Table, entries: Seq<EntryView>)
    requires
        table_wf(table),
        forall|i: int| 0 <= i < entries.len() ==> entry_wf(#[trigger] entries[i]),
    ensures
        table_wf(put_all(table, crate::sqlite::rows_of(entries))),
    decreases entries.len(),
{
    if entries.len() > 0 {
        let rows = crate::sqlite::rows_of(entries);
        assert forall|i: int| 0 <= i < entries.drop_last().len() implies entry_wf(
            #[trigger] entries.drop_last()[i],
        ) by {
            assert(entries.drop_last()[i] == entries[i]);
        }
        law_batch_keeps_table(table, entries.drop_last());
        assert(rows.drop_last() =~= crate::sqlite::rows_of(entries.drop_last()));
        law_store_keeps_table(put_all(table, rows.drop_last()), entries.last());
    }
}

/// A row that is in the table after rows were put in it was there before or is one of them.
proof fn lemma_put_all_origin(table: Table, rows: Seq<RowView>, key: Seq<u8>, block: i64)
    requires
        put_all(table, rows).contains_key((key, block)),
    ensures
        table.contains_key((key, block)) || exists|j: int|
            0 <= j < rows.len() && (#[trigger] rows[j]).key == key && rows[j].block_number == block,
    decreases rows.len(),
{
    if rows.len() > 0 {
        let last = rows.last();
        assert(rows[rows.len() - 1] == last);
        if last.key != key || last.block_number != block {
            lemma_put_all_origin(table, rows.drop_last(), key, block);
            if !table.contains_key((key, block)) {
                let j = choose|j: int|
                    0 <= j < rows.drop_last().len() && (#[trigger] rows.drop_last()[j]).key == key
                        && rows.drop_last()[j].block_number == block;
                assert(rows[j] == rows.drop_last()[j]);
            }
        }
    }
}

/// If the rows of a key and a block that are put in a table agree, the table then has what
/// they say.
proof fn lemma_put_all_agreed(table: Table, rows: Seq<RowView>, i: int)
    requires
        0 <= i < rows.len(),
        forall|j: int|
            0 <= j < rows.len() && (#[trigger] rows[j]).key == rows[i].key && rows[j].block_number
                == rows[i].block_number ==> rows[j].branch == rows[i].branch,
    ensures
        put_all(table, rows).contains_key((rows[i].key, rows[i].block_number)),
        put_all(table, rows)[(rows[i].key, rows[i].block_number)] == rows[i].branch,
    decreases rows.len(),
{
    let last = rows.last();
    assert(rows[rows.len() - 1] == last);
    if last.key != rows[i].key || last.block_number != rows[i].block_number {
        let front = rows.drop_last();
        assert forall|j: int|
            0 <= j < front.len() && (#[trigger] front[j]).key == front[i].key
                && front[j].block_number == front[i].block_number implies front[j].branch
            == front[i].branch by {
            assert(rows[j] == front[j]);
        }
        lemma_put_all_agreed(table, front, i);
    }
}

/// What a batch stores is what is read: if the batch says one thing of a path, a reader at
/// its block or after it, and before the next change of that path, sees that.
pub proof fn law_read_what_batch_stored(
    table: Table,
    entries: Seq<EntryView>,
    entry: EntryView,
    max_block_number: u64,
)
    requires
        forall|j: int| 0 <= j < entries.len() ==> entry_wf(#[trigger] entries[j]),
        entries.contains(entry),
        forall|j: int|
            0 <= j < entries.len() && (#[trigger] entries[j]).hashed_address
                == entry.hashed_address && entries[j].path == entry.path ==> entries[j] == entry,
        is_latest_entry(table, entry, max_block_number),
    ensures
        match visible(
            put_all(table, crate::sqlite::rows_of(entries)),
            entry.hashed_address,
            entry.path,
            crate::key::block_int(max_block_number),
        ) {
            Some(bytes) => entry.branch == Some(crate::branch::branch_of(bytes)),
            None => entry.branch is None,
        },
{
    let i = choose|i: int| 0 <= i < entries.len() && entries[i] == entry;
    let rows = crate::sqlite::rows_of(entries);
    let after = put_all(table, rows);
    let row = crate::sqlite::row_of(entry);
    let max = crate::key::block_int(max_block_number);
    assert(rows[i] == row);
    assert(entry_wf(entries[i]));
    assert forall|j: int|
        0 <= j < rows.len() && (#[trigger] rows[j]).key == row.key implies entries[j] == entry by {
        assert(entry_wf(entries[j]));
        crate::key::law_key_injective(
            entries[j].hashed_address,
            entries[j].path,
            entry.hashed_address,
            entry.path,
        );
    }
    lemma_put_all_agreed(table, rows, i);
    assert forall|other: i64| #[trigger]
        after.contains_key((row.key, other)) && other <= max implies other <= row.block_number by {
        lemma_put_all_origin(table, rows, row.key, other);
        if !table.contains_key((row.key, other)) {
            let j = choose|j: int|
                0 <= j < rows.len() && (#[trigger] rows[j]).key == row.key && rows[j].block_number
                    == other;
            assert(entries[j] == entry);
        }
    }
    assert(is_latest_block(after, row.key, max, row.block_number));
    lemma_select_latest(after, row.key, max, row.block_number);
    if entry.branch is Some {
        crate::branch::law_branch_roundtrip(entry.branch->0);
    }
}

/// The last row of a key and a block that is put in a table is the one that it then has.
proof fn lemma_put_all_last(table: Table, rows: Seq<RowView>, i: int)
    requires
        0 <= i < rows.len(),
        forall|j: int|
            i < j < rows.len() ==> (#[trigger] rows[j]).key != rows[i].key || rows[j].block_number
                != rows[i].block_number,
    ensures
        put_all(table, rows).contains_key((rows[i].key, rows[i].block_number)),
        put_all(table, rows)[(rows[i].key, rows[i].block_number)] == rows[i].branch,
    decreases rows.len(),
{
    if i < rows.len() - 1 {
        let front = rows.drop_last();
        assert(rows[rows.len() - 1] == rows.last());
        assert forall|j: int| i < j < front.len() implies (#[trigger] front[j]).key != front[i].key
            || front[j].block_number != front[i].block_number by {
            assert(rows[j] == front[j]);
        }
        lemma_put_all_last(table, front, i);
    }
}

/// Of several entries of a batch for one path the last one is what is read, by a reader at the
/// batch's block or after it, and before the next change of that path.
pub proof fn law_last_of_batch_is_read(
    table: Table,
    entries: Seq<EntryView>,
    i: int,
    max_block_number: u64,
)
    requires
        0 <= i < entries.len(),
        forall|j: int|
            0 <= j < entries.len() ==> entry_wf(#[trigger] entries[j]) && entries[j].block_number
                == entries[i].block_number,
        forall|j: int|
            i < j < entries.len() ==> (#[trigger] entries[j]).hashed_address
                != entries[i].hashed_address || entries[j].path != entries[i].path,
        is_latest_entry(table, entries[i], max_block_number),
    ensures
        match visible(
            put_all(table, crate::sqlite::rows_of(entries)),
            entries[i].hashed_address,
            entries[i].path,
            crate::key::block_int(max_block_number),
        ) {
            Some(bytes) => entries[i].branch == Some(crate::branch::branch_of(bytes)),
            None => entries[i].branch is None,
        },
{
    let entry = entries[i];
    let rows = crate::sqlite::rows_of(entries);
    let after = put_all(table, rows);
    let row = rows[i];
    let max = crate::key::block_int(max_block_number);
    assert(row == crate::sqlite::row_of(entry));
    assert(entry_wf(entries[i]));
    assert forall|j: int| i < j < rows.len() implies (#[trigger] rows[j]).key != row.key
        || rows[j].block_number != row.block_number by {
        assert(entry_wf(entries[j]));
        if rows[j].key == row.key {
            crate::key::law_key_injective(
                entries[j].hashed_address,
                entries[j].path,
                entry.hashed_address,
                entry.path,
            );
        }
    }
    lemma_put_all_last(table, rows, i);
    assert forall|other: i64| #[trigger]
        after.contains_key((row.key, other)) && other <= max implies other <= row.block_number by {
        lemma_put_all_origin(table, rows, row.key, other);
        if !table.contains_key((row.key, other)) {
            let j = choose|j: int|
                0 <= j < rows.len() && (#[trigger] rows[j]).key == row.key && rows[j].block_number
                    == other;
            assert(entries[j].block_number == entry.block_number);
        }
    }
    assert(is_latest_block(after, row.key, max, row.block_number));
    lemma_select_latest(after, row.key, max, row.block_number);
    if entry.branch is Some {
        crate::branch::law_branch_roundtrip(entry.branch->0);
    }
}

/// A search reads by what is visible alone: over two tables that show the cursor the same, it
/// gives the same.
pub proof fn law_search_reads_what_is_visible(
    table: Table,
    other: Table,
    cursor: CursorView,
    path: Seq<u8>,
    inclusive: bool,
    fuel: nat,
)
    requires
        table_wf(table),
        table_wf(other),
        crate::key::valid_address(cursor.hashed_address),
        crate::primitives::valid_path(path),
        forall|p: Seq<u8>| #[trigger]
            visible_to(table, cursor, p) == visible_to(other, cursor, p),
        fuel >= enough(table),
        fuel >= enough(other),
    ensures
        drive(table, cursor, cursor.seek_step(path, inclusive), fuel) == drive(
            other,
            cursor,
            cursor.seek_step(path, inclusive),
            fuel,
        ),
{
    law_seek(table, cursor, path, inclusive, fuel);
    law_seek(other, cursor, path, inclusive, fuel);
    let a = drive(table, cursor, cursor.seek_step(path, inclusive), fuel);
    let b = drive(other, cursor, cursor.seek_step(path, inclusive), fuel);
    match (a, b) {
        (Some((_, Ok(Some((p, _))))), Some((_, Ok(Some((q, _)))))) => {
            assert(visible_to(table, cursor, q) is Some);
            assert(visible_to(other, cursor, p) is Some);
            crate::order::lemma_lex_total(p, q);
        },
        (Some((_, Ok(Some((p, _))))), Some((_, Ok(None)))) => {
            assert(visible_to(other, cursor, p) is Some);
        },
        (Some((_, Ok(None))), Some((_, Ok(Some((q, _)))))) => {
            assert(visible_to(table, cursor, q) is Some);
        },
        _ => {},
    }
}

/// Storing at a block changes nothing in what a cursor at an earlier block finds. A cursor at a
/// block from 2^63 - 1 on sees all that is stored, as blocks are kept as signed integers.
pub proof fn law_earlier_cursors_unchanged(
    table: Table,
    entry: EntryView,
    cursor: CursorView,
    path: Seq<u8>,
    inclusive: bool,
    fuel: nat,
)
    requires
        table_wf(table),
        entry_wf(entry),
        crate::key::valid_address(cursor.hashed_address),
        crate::primitives::valid_path(path),
        cursor.max_block_number < entry.block_number,
        cursor.max_block_number < i64::MAX,
        fuel >= enough(table),
        fuel >= enough(put(table, crate::sqlite::row_of(entry))),
    ensures
        drive(
            put(table, crate::sqlite::row_of(entry)),
            cursor,
            cursor.seek_step(path, inclusive),
            fuel,
        ) == drive(table, cursor, cursor.seek_step(path, inclusive), fuel),
{
    let after = put(table, crate::sqlite::row_of(entry));
    law_store_keeps_table(table, entry);
    assert forall|p: Seq<u8>| #[trigger]
        visible_to(after, cursor, p) == visible_to(table, cursor, p) by {
        law_earlier_readers_unchanged(
            table,
            entry,
            cursor.hashed_address,
            p,
            cursor.max_block_number,
        );
    }
    law_search_reads_what_is_visible(after, table, cursor, path, inclusive, fuel);
}

/// A row that is put in a table is there then, in the place of any other of its key and block, and
/// every other row stays. Rows are put in one after another.
pub proof fn law_put(table: Table, rows: Seq<RowView>, row: RowView, key: Seq<u8>, block: i64)
    ensures
        put(table, row).contains_key((row.key, row.block_number)),
        put(table, row)[(row.key, row.block_number)] == row.branch,
        key != row.key || block != row.block_number ==> put(table, row).contains_key((key, block))
            == table.contains_key((key, block)) && put(table, row)[(key, block)] == table[(
            key,
            block,
        )],
        put_all(table, Seq::empty()) == table,
        put_all(table, rows.push(row)) == put(put_all(table, rows), row),
{
    assert(rows.push(row).drop_last() =~= rows);
}

/// What is visible at a path is the branch of the row with the greatest block up to the reader's,
/// unless that row marks a deletion. Without such a row nothing is.
pub proof fn law_visible(
    table: Table,
    hashed_address: Option<Seq<u8>>,
    path: Seq<u8>,
    max: i64,
    block: i64,
)
    ensures
        ({
            let key = crate::key::key_bytes(hashed_address, path);
            &&& table.contains_key((key, block)) && block <= max && (forall|other: i64| #[trigger]
                table.contains_key((key, other)) && other <= max ==> other <= block) ==> {
                &&& table[(key, block)].len() > 0 ==> visible(table, hashed_address, path, max)
                    == Some(table[(key, block)])
                &&& table[(key, block)].len() == 0 ==> visible(table, hashed_address, path, max)
                    is None
            }
            &&& (forall|other: i64| #[trigger] table.contains_key((key, other)) ==> other > max)
                ==> visible(table, hashed_address, path, max) is None
        }),
{
    let key = crate::key::key_bytes(hashed_address, path);
    if table.contains_key((key, block)) && block <= max && (forall|other: i64| #[trigger]
        table.contains_key((key, other)) && other <= max ==> other <= block) {
        assert(is_latest_block(table, key, max, block));
        lemma_select_latest(table, key, max, block);
    }
    law_latest_row(table, key, max);
}

/// A path is beyond another if it comes after it, or is it where that counts.
pub proof fn law_beyond(from: Seq<u8>, path: Seq<u8>)
    ensures
        beyond(from, true, path) <==> crate::order::lex_lt(from, path) || path == from,
        beyond(from, false, path) <==> crate::order::lex_lt(from, path),
{
}

} // verus!

//! How rows are stored: in one transaction, all of them or none.
use vstd::prelude::*;

use crate::sqlite::{BranchRow, RowView, SqlitePreimageStore, SqliteStep};
use crate::storage::{ErrorView, ExternalStorageResult, TrieBranchesBatch};
use crate::table::Table;

verus! {

/// How far storing has come.
#[derive(Debug, Clone, Copy, PartialEq, Eq)]
pub enum WriteStage {
    /// The database is not open yet.
    Closed,
    /// There is no transaction yet.
    Opened,
    /// Rows are put in, and the transaction is committed after the last one.
    Rows,
    /// All is stored.
    Stored,
}

/// What storing does next.
#[derive(Debug)]
pub enum WriteStep<'a> {
    /// Open the database.
    Open,
    /// Begin a transaction.
    Begin,
    /// Insert this row.
    Insert(&'a BranchRow),
    /// Commit the transaction.
    Commit,
    /// All is stored.
    Done,
}

/// The contents of a [`WriteStep`].
pub enum WriteStepView {
    Open,
    Begin,
    Insert(RowView),
    Commit,
    Done,
}

impl<'a> View for WriteStep<'a> {
    type V = WriteStepView;

    open spec fn view(&self) -> WriteStepView {
        match *self {
            WriteStep::Open => WriteStepView::Open,
            WriteStep::Begin => WriteStepView::Begin,
            WriteStep::Insert(row) => WriteStepView::Insert(row@),
            WriteStep::Commit => WriteStepView::Commit,
            WriteStep::Done => WriteStepView::Done,
        }
    }
}

/// The storing of rows, step by step. A step that fails ends it.
#[derive(Debug)]
pub struct WriteRun {
    batch: bool,
    stage: WriteStage,
    rows: Vec<BranchRow>,
    next: usize,
}

/// The contents of a [`WriteRun`].
#[verifier::ext_equal]
pub struct WriteView {
    /// Whether the rows are those of a batch.
    pub batch: bool,
    pub stage: WriteStage,
    /// The rows that were put in, in order.
    pub inserted: Seq<RowView>,
    /// The rows that are still to be put in, in order.
    pub waiting: Seq<RowView>,
}

impl View for WriteRun {
    type V = WriteView;

    closed spec fn view(&self) -> WriteView {
        WriteView {
            batch: self.batch,
            stage: self.stage,
            inserted: crate::sqlite::rows_view(self.rows@).take(self.next as int),
            waiting: crate::sqlite::rows_view(self.rows@).skip(self.next as int),
        }
    }
}

impl WriteView {
    /// Nothing was done yet.
    pub open spec fn fresh(batch: bool, rows: Seq<RowView>) -> WriteView {
        WriteView { batch, stage: WriteStage::Closed, inserted: Seq::empty(), waiting: rows }
    }

    /// What is done next.
    pub open spec fn step(self) -> WriteStepView {
        match self.stage {
            WriteStage::Closed => WriteStepView::Open,
            WriteStage::Opened => WriteStepView::Begin,
            WriteStage::Rows => if self.waiting.len() > 0 {
                WriteStepView::Insert(self.waiting[0])
            } else {
                WriteStepView::Commit
            },
            WriteStage::Stored => WriteStepView::Done,
        }
    }

    /// What the database failed, if it fails the next step.
    pub open spec fn failing(self) -> SqliteStep {
        match self.step() {
            WriteStepView::Open => SqliteStep::Open,
            WriteStepView::Begin => SqliteStep::Begin,
            WriteStepView::Insert(_) => if self.batch {
                SqliteStep::BatchInsert
            } else {
                SqliteStep::Insert
            },
            WriteStepView::Commit | WriteStepView::Done => if self.batch {
                SqliteStep::BatchCommit
            } else {
                SqliteStep::Commit
            },
        }
    }

    /// The run when the next step is done.
    pub open spec fn advanced(self) -> WriteView {
        match self.step() {
            WriteStepView::Open => WriteView { stage: WriteStage::Opened, ..self },
            WriteStepView::Begin => WriteView { stage: WriteStage::Rows, ..self },
            WriteStepView::Insert(row) => WriteView {
                inserted: self.inserted.push(row),
                waiting: self.waiting.drop_first(),
                ..self
            },
            WriteStepView::Commit | WriteStepView::Done => WriteView {
                stage: WriteStage::Stored,
                ..self
            },
        }
    }
}

impl WriteRun {
    #[verifier::type_invariant]
    spec fn within_rows(self) -> bool {
        self.next <= self.rows@.len()
    }

    /// Store one row.
    pub fn one(row: BranchRow) -> (r: Self)
        ensures
            r@ == WriteView::fresh(false, seq![row@]),
    {
        let mut rows: Vec<BranchRow> = Vec::new();
        rows.push(row);
        let run = Self { batch: false, stage: WriteStage::Closed, rows, next: 0 };
        assert(run@ =~= WriteView::fresh(false, seq![row@]));
        run
    }

    /// Store the rows of a batch.
    pub fn batch(rows: Vec<BranchRow>) -> (r: Self)
        ensures
            r@ == WriteView::fresh(true, crate::sqlite::rows_view(rows@)),
    {
        let run = Self { batch: true, stage: WriteStage::Closed, rows, next: 0 };
        assert(run@ =~= WriteView::fresh(true, crate::sqlite::rows_view(rows@)));
        run
    }

    /// What is done next.
    pub fn step(&self) -> (r: WriteStep<'_>)
        ensures
            r@ == self@.step(),
    {
        proof {
            use_type_invariant(self);
        }
        match self.stage {
            WriteStage::Closed => WriteStep::Open,
            WriteStage::Opened => WriteStep::Begin,
            WriteStage::Rows => {
                if self.next < self.rows.len() {
                    WriteStep::Insert(&self.rows[self.next])
                } else {
                    WriteStep::Commit
                }
            },
            WriteStage::Stored => WriteStep::Done,
        }
    }

    /// Go on after the database did the step, or failed it.
    pub fn answer(self, outcome: Result<(), String>) -> (r: ExternalStorageResult<Self>)
        ensures
            match outcome {
                Ok(_) => r is Ok && r->Ok_0@ == self@.advanced(),
                Err(detail) => r is Err && r->Err_0@ == crate::sqlite::step_error(
                    self@.failing(),
                    detail@,
                ),
            },
    {
        proof {
            use_type_invariant(&self);
        }
        let inserting = match self.stage {
            WriteStage::Rows => self.next < self.rows.len(),
            _ => false,
        };
        let failing = match self.stage {
            WriteStage::Closed => SqliteStep::Open,
            WriteStage::Opened => SqliteStep::Begin,
            _ => if inserting {
                if self.batch {
                    SqliteStep::BatchInsert
                } else {
                    SqliteStep::Insert
                }
            } else if self.batch {
                SqliteStep::BatchCommit
            } else {
                SqliteStep::Commit
            },
        };
        let stage = match self.stage {
            WriteStage::Closed => WriteStage::Opened,
            WriteStage::Opened => WriteStage::Rows,
            _ => if inserting {
                WriteStage::Rows
            } else {
                WriteStage::Stored
            },
        };
        match SqlitePreimageStore::checked(failing, outcome) {
            Ok(_) => {
                let next: usize = if inserting {
                    self.next + 1
                } else {
                    self.next
                };
                let run = Self { batch: self.batch, stage, rows: self.rows, next };
                assert(run@ =~= self@.advanced());
                Ok(run)
            },
            Err(error) => Err(error),
        }
    }
}

/// A database in which rows are stored.
pub struct DatabaseView {
    /// The table, as readers see it.
    pub table: Table,
    /// What the transaction has made of the table, if there is one.
    pub pending: Option<Table>,
}

impl DatabaseView {
    /// The database after a step that it did.
    pub open spec fn after(self, step: WriteStepView) -> DatabaseView {
        match (step, self.pending) {
            (WriteStepView::Begin, _) => DatabaseView { pending: Some(self.table), ..self },
            (WriteStepView::Insert(row), Some(pending)) => DatabaseView {
                pending: Some(crate::table::put(pending, row)),
                ..self
            },
            (WriteStepView::Commit, Some(pending)) => DatabaseView {
                table: pending,
                pending: None,
            },
            _ => self,
        }
    }

    /// The database after a step that it failed: the transaction is given up.
    pub open spec fn rolled_back(self) -> DatabaseView {
        DatabaseView { pending: None, ..self }
    }
}

/// What storing comes to, if each step in turn fails with the text that `answers` has for it, or
/// is done where there is none: the table that readers see after it, and what is returned. It is
/// nothing if there are not enough answers.
pub open spec fn written(
    database: DatabaseView,
    run: WriteView,
    answers: Seq<Option<Seq<char>>>,
) -> Option<(Table, Result<(), ErrorView>)>
    decreases answers.len(),
{
    if run.step() is Done {
        Some((database.table, Ok(())))
    } else if answers.len() == 0 {
        None
    } else {
        match answers[0] {
            Some(detail) => Some(
                (
                    database.rolled_back().table,
                    Err(crate::sqlite::step_error(run.failing(), detail)),
                ),
            ),
            None => written(
                database.after(run.step()),
                run.advanced(),
                answers.drop_first(),
            ),
        }
    }
}

/// Putting rows in one after another, the first of them first.
proof fn lemma_put_first(table: Table, rows: Seq<RowView>)
    requires
        rows.len() > 0,
    ensures
        crate::table::put_all(table, rows) == crate::table::put_all(
            crate::table::put(table, rows[0]),
            rows.drop_first(),
        ),
    decreases rows.len(),
{
    reveal_with_fuel(crate::table::put_all, 2);
    if rows.len() > 1 {
        lemma_put_first(table, rows.drop_last());
        assert(rows.drop_last().drop_first() =~= rows.drop_first().drop_last());
    }
}

/// What storing comes to once the transaction has begun.
proof fn lemma_written_rows(
    database: DatabaseView,
    run: WriteView,
    answers: Seq<Option<Seq<char>>>,
)
    requires
        database.pending is Some,
        run.stage is Rows,
        answers.len() > run.waiting.len(),
    ensures
        match written(database, run, answers) {
            Some((after, Ok(_))) => after == crate::table::put_all(
                database.pending->0,
                run.waiting,
            ) && forall|i: int| 0 <= i <= run.waiting.len() ==> (#[trigger] answers[i]) is None,
            Some((after, Err(_))) => after == database.table && exists|i: int|
                0 <= i <= run.waiting.len() && (#[trigger] answers[i]) is Some,
            None => false,
        },
    decreases run.waiting.len(),
{
    reveal_with_fuel(written, 2);
    let rest = answers.drop_first();
    if answers[0] is None && run.waiting.len() > 0 {
        let next = database.after(run.step());
        lemma_written_rows(next, run.advanced(), rest);
        lemma_put_first(database.pending->0, run.waiting);
        match written(database, run, answers) {
            Some((_, Ok(_))) => {
                assert forall|i: int| 0 <= i <= run.waiting.len() implies (
                #[trigger] answers[i]) is None by {
                    if i > 0 {
                        assert(rest[i - 1] == answers[i]);
                    }
                }
            },
            _ => {
                let i = choose|i: int| 0 <= i < run.waiting.len() && (#[trigger] rest[i]) is Some;
                assert(answers[i + 1] is Some);
            },
        }
    } else if answers[0] is Some {
        assert(written(database, run, answers) is Some);
    } else {
        assert(crate::table::put_all(database.pending->0, run.waiting) == database.pending->0);
    }
}

/// Storing is all or nothing. If every step is done, it succeeds, and the table is as after
/// putting in the rows one after another. If any step fails, it fails, and the table is as it was
/// before.
pub proof fn law_stored_whole_or_not_at_all(
    table: Table,
    batch: bool,
    rows: Seq<RowView>,
    answers: Seq<Option<Seq<char>>>,
)
    requires
        answers.len() >= rows.len() + 3,
    ensures
        match written(
            DatabaseView { table, pending: None },
            WriteView::fresh(batch, rows),
            answers,
        ) {
            Some((after, Ok(_))) => after == crate::table::put_all(table, rows) && forall|i: int|
                0 <= i < rows.len() + 3 ==> (#[trigger] answers[i]) is None,
            Some((after, Err(_))) => after == table && exists|i: int|
                0 <= i < rows.len() + 3 && (#[trigger] answers[i]) is Some,
            None => false,
        },
{
    reveal_with_fuel(written, 3);
    let closed = WriteView::fresh(batch, rows);
    let database = DatabaseView { table, pending: None };
    let second = answers.drop_first();
    let third = second.drop_first();
    assert(second[0] == answers[1]);
    let begun = database.after(WriteStepView::Begin);
    let run = closed.advanced().advanced();
    if answers[0] is None && answers[1] is None {
        assert(written(database, closed, answers) == written(begun, run, third));
        lemma_written_rows(begun, run, third);
        match written(begun, run, third) {
            Some((_, Ok(_))) => {
                assert forall|i: int| 0 <= i < rows.len() + 3 implies (
                #[trigger] answers[i]) is None by {
                    if i > 1 {
                        assert(third[i - 2] == answers[i]);
                    }
                }
            },
            _ => {
                let i = choose|i: int| 0 <= i <= rows.len() && (#[trigger] third[i]) is Some;
                assert(answers[i + 2] is Some);
            },
        }
    }
}

/// The table after rows are stored one at a time, each in its own transaction, if every step is
/// done.
pub open spec fn stored_singly(table: Table, rows: Seq<RowView>) -> Table
    decreases rows.len(),
{
    if rows.len() == 0 {
        table
    } else {
        match written(
            DatabaseView { table: stored_singly(table, rows.drop_last()), pending: None },
            WriteView::fresh(false, seq![rows.last()]),
            seq![None, None, None, None],
        ) {
            Some((after, _)) => after,
            None => table,
        }
    }
}

/// Storing a batch that succeeds leaves the table as storing its items one at a time does, in
/// order. Storing a batch that fails leaves it as it was: no item of the batch is kept.
pub proof fn law_batch_is_its_items(
    table: Table,
    batch: TrieBranchesBatch,
    answers: Seq<Option<Seq<char>>>,
)
    requires
        answers.len() >= batch.items@.len() + 3,
    ensures
        ({
            let rows = crate::sqlite::rows_of(crate::storage::batch_entries(batch));
            match written(
                DatabaseView { table, pending: None },
                WriteView::fresh(true, rows),
                answers,
            ) {
                Some((after, Ok(_))) => after == stored_singly(table, rows),
                Some((after, Err(_))) => after == table,
                None => false,
            }
        }),
{
    let rows = crate::sqlite::rows_of(crate::storage::batch_entries(batch));
    law_stored_whole_or_not_at_all(table, true, rows, answers);
    lemma_stored_singly(table, rows);
}

/// Rows that are stored one at a time are put in one after another.
proof fn lemma_stored_singly(table: Table, rows: Seq<RowView>)
    ensures
        stored_singly(table, rows) == crate::table::put_all(table, rows),
    decreases rows.len(),
{
    if rows.len() > 0 {
        lemma_stored_singly(table, rows.drop_last());
        let before = stored_singly(table, rows.drop_last());
        let answers = seq![None::<Seq<char>>, None, None, None];
        law_stored_whole_or_not_at_all(before, false, seq![rows.last()], answers);
        reveal_with_fuel(crate::table::put_all, 2);
        assert(seq![rows.last()].drop_last() =~= Seq::empty());
        assert forall|i: int| 0 <= i < 4 implies (#[trigger] answers[i]) is None by {}
    }
}

/// Storing opens the database, begins a transaction, puts in the rows one after another, commits
/// and is done.
pub proof fn law_write_steps(run: WriteView)
    ensures
        run.stage is Closed ==> run.step() is Open && run.advanced().stage is Opened,
        run.stage is Opened ==> run.step() is Begin && run.advanced().stage is Rows,
        run.stage is Rows && run.waiting.len() > 0 ==> run.step() == WriteStepView::Insert(
            run.waiting[0],
        ) && run.advanced().stage is Rows && run.advanced().waiting == run.waiting.skip(1)
            && run.advanced().inserted == run.inserted.push(run.waiting[0]),
        run.stage is Rows && run.waiting.len() == 0 ==> run.step() is Commit
            && run.advanced().stage is Stored,
        run.stage is Stored ==> run.step() is Done && run.advanced().stage is Stored,
        !(run.stage is Rows && run.waiting.len() > 0) ==> run.advanced().waiting == run.waiting
            && run.advanced().inserted == run.inserted,
        run.advanced().batch == run.batch,
{
}

/// Each step has its own error, by whether the rows are those of a batch. At the start all rows
/// are still to be put in.
pub proof fn law_write_errors(run: WriteView, batch: bool, rows: Seq<RowView>)
    ensures
        run.stage is Closed ==> run.failing() is Open,
        run.stage is Opened ==> run.failing() is Begin,
        run.stage is Rows && run.waiting.len() > 0 && run.batch ==> run.failing() is BatchInsert,
        run.stage is Rows && run.waiting.len() > 0 && !run.batch ==> run.failing() is Insert,
        run.stage is Rows && run.waiting.len() == 0 && run.batch ==> run.failing() is BatchCommit,
        run.stage is Rows && run.waiting.len() == 0 && !run.batch ==> run.failing() is Commit,
        WriteView::fresh(batch, rows).batch == batch,
        WriteView::fresh(batch, rows).stage is Closed,
        WriteView::fresh(batch, rows).inserted.len() == 0,
        WriteView::fresh(batch, rows).waiting == rows,
{
}

/// The contents of a step are the step and its row.
pub proof fn law_write_step_contents<'a>(step: WriteStep<'a>)
    ensures
        step is Open ==> step@ is Open,
        step is Begin ==> step@ is Begin,
        step matches WriteStep::Insert(row) ==> step@ == WriteStepView::Insert(row@),
        step is Commit ==> step@ is Commit,
        step is Done ==> step@ is Done,
{
}

} // verus!

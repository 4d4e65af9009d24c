//! Decisions of the background indexer: its state between polls, vector
//! backfill, paged counting, and waiting for index tasks.

use vstd::prelude::*;

use crate::text::{int_text, push_str, push_uint, str_eq};

verus! {

/// Seconds between two polls of the outbox.
pub const POLL_INTERVAL_SECS: u64 = 1;

/// Events claimed per batch.
pub const CLAIM_BATCH_SIZE: i64 = 50;

/// Seconds after which a claim expires.
pub const LEASE_TIMEOUT_SECS: i64 = 300;

/// Seconds between two periodic reconciliations.
pub const RECONCILIATION_INTERVAL_SECS: u64 = 3600;

/// What the indexer remembers between polls.
#[derive(Clone, Copy, Debug, PartialEq, Eq, Structural)]
pub struct IndexerState {
    /// The index was initialised and repaired; searches may use it.
    pub index_prepared: bool,
    /// The embedding service answered at the previous poll.
    pub embedding_was_available: bool,
    /// Vector backfill ran once since start with the embedding service up.
    pub startup_backfill_done: bool,
    /// Seconds counted towards the next reconciliation.
    pub reconciliation_timer: u64,
}

impl IndexerState {
    /// The state at start: the index is prepared when startup sync made it ready.
    pub fn new(ready: bool, embedding_available: bool) -> (r: IndexerState)
        ensures
            r == (IndexerState {
                index_prepared: ready,
                embedding_was_available: embedding_available,
                startup_backfill_done: false,
                reconciliation_timer: 0,
            }),
    {
        IndexerState {
            index_prepared: ready,
            embedding_was_available: embedding_available,
            startup_backfill_done: false,
            reconciliation_timer: 0,
        }
    }

    /// The search engine stopped answering: the index must be prepared again.
    pub fn on_engine_unavailable(&self) -> (r: IndexerState)
        ensures
            r == (IndexerState { index_prepared: false, ..*self }),
    {
        IndexerState { index_prepared: false, ..*self }
    }

    /// Preparing the index succeeded.
    pub fn on_index_prepared(&self) -> (r: IndexerState)
        ensures
            r == (IndexerState { index_prepared: true, ..*self }),
    {
        IndexerState { index_prepared: true, ..*self }
    }

    /// How many vector backfills to run now that the embedding service is
    /// `available`: one when it came back, one more for the first time since start.
    pub fn backfill_step(&self, available: bool) -> (r: (u8, IndexerState))
        ensures
            r.0 == (if available && !self.embedding_was_available { 1u8 } else { 0u8 }) + (if available
                && !self.startup_backfill_done {
                1u8
            } else {
                0u8
            }),
            r.1 == (IndexerState {
                embedding_was_available: available,
                startup_backfill_done: self.startup_backfill_done || available,
                ..*self
            }),
    {
        let mut runs: u8 = 0;
        if available && !self.embedding_was_available {
            runs = runs + 1;
        }
        let mut done = self.startup_backfill_done;
        if !done && available {
            runs = runs + 1;
            done = true;
        }
        (runs, IndexerState { embedding_was_available: available, startup_backfill_done: done, ..*self })
    }

    /// A claimed batch went through (`ok`) or not; a failure makes the index be prepared again.
    pub fn after_batch(&self, ok: bool) -> (r: IndexerState)
        ensures
            r == (if ok {
                *self
            } else {
                IndexerState { index_prepared: false, ..*self }
            }),
    {
        if ok {
            *self
        } else {
            IndexerState { index_prepared: false, ..*self }
        }
    }

    /// One poll interval passed: whether a reconciliation is due, and the new state.
    pub fn tick(&self) -> (r: (bool, IndexerState))
        requires
            self.reconciliation_timer + POLL_INTERVAL_SECS <= u64::MAX,
        ensures
            r.0 == (self.reconciliation_timer + POLL_INTERVAL_SECS >= RECONCILIATION_INTERVAL_SECS),
            r.1 == (IndexerState {
                reconciliation_timer: if r.0 {
                    0
                } else {
                    (self.reconciliation_timer + POLL_INTERVAL_SECS) as u64
                },
                ..*self
            }),
    {
        let t = self.reconciliation_timer + POLL_INTERVAL_SECS;
        if t >= RECONCILIATION_INTERVAL_SECS {
            (true, IndexerState { reconciliation_timer: 0, ..*self })
        } else {
            (false, IndexerState { reconciliation_timer: t, ..*self })
        }
    }
}

/// What the periodic reconciliation does.
#[derive(Clone, Copy, Debug, PartialEq, Eq, Structural)]
pub enum ReconcileStep {
    /// Events are pending: wait for the outbox to drain.
    Skip,
    /// Prune stale events and reconcile.
    Run,
}

pub fn reconcile_step(pending: i64) -> (r: ReconcileStep)
    ensures
        r == (if pending == 0 { ReconcileStep::Run } else { ReconcileStep::Skip }),
{
    if pending == 0 {
        ReconcileStep::Run
    } else {
        ReconcileStep::Skip
    }
}

/// Records read per page of the vector backfill.
pub const BACKFILL_BATCH_SIZE: usize = 50;

/// Pages embedded by one backfill at most.
pub const MAX_BACKFILL_ITERATIONS: usize = 200;

/// Where the vector backfill stands.
#[derive(Clone, Copy, Debug, PartialEq, Eq, Structural)]
pub struct BackfillState {
    pub offset: usize,
    pub iterations: usize,
    pub total_updated: usize,
}

/// What to do with a page of records read for the backfill.
#[derive(Clone, Copy, Debug, PartialEq, Eq, Structural)]
pub enum BackfillPageStep {
    /// Nothing is left to read, or the iteration limit is reached.
    Stop,
    /// The page held no record without vectors: read the next one.
    Next,
    /// Embed and write the page's records.
    Embed,
}

/// A page of `raw_page_size` documents was read, `missing` of them without vectors.
pub fn backfill_page_step(state: BackfillState, raw_page_size: usize, missing: usize) -> (r: (
    BackfillPageStep,
    BackfillState,
))
    requires
        state.offset + raw_page_size <= usize::MAX,
        state.iterations < usize::MAX,
    ensures
        raw_page_size < BACKFILL_BATCH_SIZE && missing == 0 ==> r == (BackfillPageStep::Stop, state),
        !(raw_page_size < BACKFILL_BATCH_SIZE && missing == 0) && missing == 0 ==> r == (
            BackfillPageStep::Next,
            BackfillState { offset: (state.offset + raw_page_size) as usize, ..state },
        ),
        missing > 0 ==> r.1 == (BackfillState {
            offset: (state.offset + raw_page_size) as usize,
            iterations: (state.iterations + 1) as usize,
            ..state
        }) && (r.0 == if state.iterations + 1 > MAX_BACKFILL_ITERATIONS {
            BackfillPageStep::Stop
        } else {
            BackfillPageStep::Embed
        }),
{
    if raw_page_size < BACKFILL_BATCH_SIZE && missing == 0 {
        return (BackfillPageStep::Stop, state);
    }
    let offset = state.offset + raw_page_size;
    if missing == 0 {
        return (BackfillPageStep::Next, BackfillState { offset, ..state });
    }
    let iterations = state.iterations + 1;
    let next = BackfillState { offset, iterations, ..state };
    if iterations > MAX_BACKFILL_ITERATIONS {
        (BackfillPageStep::Stop, next)
    } else {
        (BackfillPageStep::Embed, next)
    }
}

/// After writing `written` documents of a page, of which `embedded` got vectors:
/// whether to read on, and the new state. The backfill stops when the service
/// gave no vector or the page was the last.
pub fn backfill_after_write(state: BackfillState, written: usize, embedded: usize, raw_page_size: usize) -> (r: (
    bool,
    BackfillState,
))
    requires
        state.total_updated + written <= usize::MAX,
    ensures
        r.1 == (BackfillState { total_updated: (state.total_updated + written) as usize, ..state }),
        r.0 == (embedded > 0 && raw_page_size >= BACKFILL_BATCH_SIZE),
{
    let next = BackfillState { total_updated: state.total_updated + written, ..state };
    (embedded > 0 && raw_page_size >= BACKFILL_BATCH_SIZE, next)
}

/// Documents read per page when counting or listing ids.
pub const FETCH_BATCH_SIZE: usize = 1000;

/// The next step of counting documents page by page.
#[derive(Clone, Copy, Debug, PartialEq, Eq, Structural)]
pub enum CountStep {
    /// The count is known.
    Done(u64),
    /// Read the page at `offset` with `counted` documents counted so far.
    Next { offset: usize, counted: u64 },
}

/// A page answered with `total` (when the engine gave an exact total) and
/// `page_size` documents: the total is taken as is; otherwise pages are counted
/// until a short page.
pub fn count_step(total: Option<u64>, page_size: usize, counted: u64, offset: usize) -> (r: CountStep)
    requires
        counted + page_size <= u64::MAX,
        offset + FETCH_BATCH_SIZE <= usize::MAX,
    ensures
        r == match total {
            Some(t) => CountStep::Done(t),
            None => if page_size < FETCH_BATCH_SIZE {
                CountStep::Done((counted + page_size) as u64)
            } else {
                CountStep::Next {
                    offset: (offset + FETCH_BATCH_SIZE) as usize,
                    counted: (counted + page_size) as u64,
                }
            },
        },
{
    match total {
        Some(t) => CountStep::Done(t),
        None => {
            let c = counted + page_size as u64;
            if page_size < FETCH_BATCH_SIZE {
                CountStep::Done(c)
            } else {
                CountStep::Next { offset: offset + FETCH_BATCH_SIZE, counted: c }
            }
        },
    }
}

/// How a polled index task stands.
#[derive(Clone, Debug, PartialEq, Eq)]
pub enum TaskPoll {
    /// It succeeded.
    Succeeded,
    /// It ended without success; the text says why.
    Failed(String),
    /// It is still running: poll again.
    Pending,
}

/// The text of a failed task.
pub open spec fn task_failed_text(task_uid: u32, error: Seq<char>) -> Seq<char> {
    "MeiliSearch task "@ + int_text(task_uid as int) + " failed: "@ + error
}

/// The text of a canceled task.
pub open spec fn task_canceled_text(task_uid: u32) -> Seq<char> {
    "MeiliSearch task "@ + int_text(task_uid as int) + " was canceled"@
}

/// The text of a task still unfinished after the 30 second wait.
pub open spec fn task_timeout_text(task_uid: u32, last_status: Seq<char>) -> Seq<char> {
    "MeiliSearch task "@ + int_text(task_uid as int) + " timed out after 30s (last status: "@
        + last_status + ")"@
}

/// What a poll of task `task_uid` with status `status` means, once `timed_out`
/// says whether the wait is over; `error` is the task's error text.
pub fn task_poll_step(task_uid: u32, status: &str, error: &str, timed_out: bool) -> (r: TaskPoll)
    ensures
        status@ == "succeeded"@ ==> r == TaskPoll::Succeeded,
        status@ == "failed"@ ==> (r matches TaskPoll::Failed(m) && m@ == task_failed_text(task_uid, error@)),
        status@ == "canceled"@ ==> (r matches TaskPoll::Failed(m) && m@ == task_canceled_text(task_uid)),
        status@ != "succeeded"@ && status@ != "failed"@ && status@ != "canceled"@ ==> (if timed_out {
            r matches TaskPoll::Failed(m) && m@ == task_timeout_text(task_uid, status@)
        } else {
            r == TaskPoll::Pending
        }),
{
    proof {
        reveal_strlit("succeeded");
        reveal_strlit("failed");
        reveal_strlit("canceled");
        assert("succeeded"@[0] != "failed"@[0] && "succeeded"@[0] != "canceled"@[0]);
        assert("failed"@[0] != "canceled"@[0]);
    }
    if str_eq(status, "succeeded") {
        return TaskPoll::Succeeded;
    }
    let mut m = String::new();
    push_str(&mut m, "MeiliSearch task ");
    push_uint(&mut m, task_uid as u64);
    if str_eq(status, "failed") {
        push_str(&mut m, " failed: ");
        push_str(&mut m, error);
        return TaskPoll::Failed(m);
    }
    if str_eq(status, "canceled") {
        push_str(&mut m, " was canceled");
        return TaskPoll::Failed(m);
    }
    if timed_out {
        push_str(&mut m, " timed out after 30s (last status: ");
        push_str(&mut m, status);
        push_str(&mut m, ")");
        proof {
            assert(m@ =~= task_timeout_text(task_uid, status@));
        }
        return TaskPoll::Failed(m);
    }
    TaskPoll::Pending
}

} // verus!

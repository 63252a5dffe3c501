//! The single writer of a build, as a state machine. The caller owns the
//! connection and the channel: it performs the action the writer asks for
//! and reports back what happened. The writer creates the tables, opens a
//! transaction, applies every insert it receives, commits once the
//! producers are done, and only then creates the lookup indices. The first
//! statement that fails ends the build.

use vstd::prelude::*;
use crate::builder::{CommandView, DbCommand};

verus! {

/// Number of statements executed before the first insert.
pub const SETUP_STEPS: usize = 5;

/// Number of statements executed after the last insert.
pub const FINISH_STEPS: usize = 6;

/// Where the writer stands.
pub enum WriterState {
    /// About to execute setup statement number `0`.
    Setup(usize),
    /// Waiting for the next command.
    Receiving,
    /// About to execute a received insert.
    Inserting(String),
    /// About to execute closing statement number `0`; the first of them
    /// commits the transaction.
    Finishing(usize),
    /// Every statement has been executed.
    Done,
    /// A statement failed; nothing more is executed.
    Failed,
}

/// What happened since the writer last asked for something.
pub enum WriterEvent {
    /// The statement was executed.
    Executed,
    /// The statement failed.
    Rejected,
    /// A command arrived.
    Command(DbCommand),
    /// Every producer has gone.
    Disconnected,
}

/// What the writer asks its caller to do next.
pub enum WriterAction {
    /// Execute this statement and report `Executed` or `Rejected`.
    Execute(String),
    /// Wait for a command and report it, or `Disconnected`.
    Receive,
    /// The build has succeeded.
    Complete,
    /// The build has failed.
    Abort,
}

/// Why a build ends without an index.
#[derive(Debug, Clone, Copy, PartialEq, Eq, Structural)]
pub enum BuildError {
    /// The store refused a statement; the transaction is abandoned.
    TransactionFailure,
}

pub ghost enum StateView {
    Setup(int),
    Receiving,
    Inserting(Seq<char>),
    Finishing(int),
    Done,
    Failed,
}

pub ghost enum EventView {
    Executed,
    Rejected,
    Command(CommandView),
    Disconnected,
}

pub ghost enum ActionView {
    Execute(Seq<char>),
    Receive,
    Complete,
    Abort,
}

impl View for WriterState {
    type V = StateView;

    open spec fn view(&self) -> StateView {
        match self {
            WriterState::Setup(k) => StateView::Setup(*k as int),
            WriterState::Receiving => StateView::Receiving,
            WriterState::Inserting(sql) => StateView::Inserting(sql@),
            WriterState::Finishing(k) => StateView::Finishing(*k as int),
            WriterState::Done => StateView::Done,
            WriterState::Failed => StateView::Failed,
        }
    }
}

impl View for WriterEvent {
    type V = EventView;

    open spec fn view(&self) -> EventView {
        match self {
            WriterEvent::Executed => EventView::Executed,
            WriterEvent::Rejected => EventView::Rejected,
            WriterEvent::Command(c) => EventView::Command(c@),
            WriterEvent::Disconnected => EventView::Disconnected,
        }
    }
}

impl View for WriterAction {
    type V = ActionView;

    open spec fn view(&self) -> ActionView {
        match self {
            WriterAction::Execute(sql) => ActionView::Execute(sql@),
            WriterAction::Receive => ActionView::Receive,
            WriterAction::Complete => ActionView::Complete,
            WriterAction::Abort => ActionView::Abort,
        }
    }
}

/// The statements that prepare the store, in order; the last one opens
/// the transaction.
pub open spec fn setup_sql(k: int) -> Seq<char> {
    if k == 0 {
        "PRAGMA foreign_keys = ON"@
    } else if k == 1 {
        "CREATE TABLE files (song_id INTEGER PRIMARY KEY, hash_id TEXT NOT NULL, pattern_hash INTEGER, url TEXT NOT NULL)"@
    } else if k == 2 {
        "CREATE TABLE samples (hash_id TEXT, song_id INTEGER, song_sample_id INTEGER, text TEXT NOT NULL, length_bytes INTEGER, length INTEGER, FOREIGN KEY (song_id) REFERENCES files(song_id))"@
    } else if k == 3 {
        "CREATE TABLE instruments (hash_id TEXT, song_id INTEGER, text TEXT, FOREIGN KEY (song_id) REFERENCES files(song_id))"@
    } else {
        "BEGIN TRANSACTION"@
    }
}

/// The statements that close the build, in order: the commit, then the
/// lookup indices.
pub open spec fn finish_sql(k: int) -> Seq<char> {
    if k == 0 {
        "COMMIT"@
    } else if k == 1 {
        "CREATE INDEX hash_files ON files (hash_id)"@
    } else if k == 2 {
        "CREATE INDEX pattern_files ON files (pattern_hash)"@
    } else if k == 3 {
        "CREATE INDEX hash_samples ON samples (hash_id)"@
    } else if k == 4 {
        "CREATE INDEX length_samples ON samples (length)"@
    } else {
        "CREATE INDEX song_id_samples ON samples (song_id)"@
    }
}

/// Whether a state is one the writer can be in.
pub open spec fn state_wf(s: StateView) -> bool {
    match s {
        StateView::Setup(k) => 0 <= k < SETUP_STEPS,
        StateView::Finishing(k) => 0 <= k < FINISH_STEPS,
        _ => true,
    }
}

/// What the writer asks for in a state.
pub open spec fn action_of(s: StateView) -> ActionView {
    match s {
        StateView::Setup(k) => ActionView::Execute(setup_sql(k)),
        StateView::Receiving => ActionView::Receive,
        StateView::Inserting(sql) => ActionView::Execute(sql),
        StateView::Finishing(k) => ActionView::Execute(finish_sql(k)),
        StateView::Done => ActionView::Complete,
        StateView::Failed => ActionView::Abort,
    }
}

/// Whether the writer is waiting for the outcome of a statement.
pub open spec fn is_executing(s: StateView) -> bool {
    s is Setup || s is Inserting || s is Finishing
}

/// The state after an event. An event that does not answer what the
/// writer asked for changes nothing.
pub open spec fn next_state(s: StateView, e: EventView) -> StateView {
    match (s, e) {
        (StateView::Setup(k), EventView::Executed) => if k + 1 < SETUP_STEPS {
            StateView::Setup(k + 1)
        } else {
            StateView::Receiving
        },
        (StateView::Inserting(_), EventView::Executed) => StateView::Receiving,
        (StateView::Finishing(k), EventView::Executed) => if k + 1 < FINISH_STEPS {
            StateView::Finishing(k + 1)
        } else {
            StateView::Done
        },
        (StateView::Setup(_), EventView::Rejected) => StateView::Failed,
        (StateView::Inserting(_), EventView::Rejected) => StateView::Failed,
        (StateView::Finishing(_), EventView::Rejected) => StateView::Failed,
        (StateView::Receiving, EventView::Command(CommandView::Insert(sql))) => StateView::Inserting(
            sql,
        ),
        (StateView::Receiving, EventView::Command(CommandView::Quit)) => StateView::Finishing(0),
        (StateView::Receiving, EventView::Disconnected) => StateView::Finishing(0),
        _ => s,
    }
}

fn setup_statement(k: usize) -> (r: &'static str)
    ensures
        r@ == setup_sql(k as int),
{
    if k == 0 {
        "PRAGMA foreign_keys = ON"
    } else if k == 1 {
        "CREATE TABLE files (song_id INTEGER PRIMARY KEY, hash_id TEXT NOT NULL, pattern_hash INTEGER, url TEXT NOT NULL)"
    } else if k == 2 {
        "CREATE TABLE samples (hash_id TEXT, song_id INTEGER, song_sample_id INTEGER, text TEXT NOT NULL, length_bytes INTEGER, length INTEGER, FOREIGN KEY (song_id) REFERENCES files(song_id))"
    } else if k == 3 {
        "CREATE TABLE instruments (hash_id TEXT, song_id INTEGER, text TEXT, FOREIGN KEY (song_id) REFERENCES files(song_id))"
    } else {
        "BEGIN TRANSACTION"
    }
}

fn finish_statement(k: usize) -> (r: &'static str)
    ensures
        r@ == finish_sql(k as int),
{
    if k == 0 {
        "COMMIT"
    } else if k == 1 {
        "CREATE INDEX hash_files ON files (hash_id)"
    } else if k == 2 {
        "CREATE INDEX pattern_files ON files (pattern_hash)"
    } else if k == 3 {
        "CREATE INDEX hash_samples ON samples (hash_id)"
    } else if k == 4 {
        "CREATE INDEX length_samples ON samples (length)"
    } else {
        "CREATE INDEX song_id_samples ON samples (song_id)"
    }
}

impl WriterState {
    /// The state in which a build starts.
    pub fn start() -> (r: WriterState)
        ensures
            r@ == StateView::Setup(0),
            state_wf(r@),
    {
        WriterState::Setup(0)
    }

    /// What the caller has to do next.
    pub fn action(&self) -> (r: WriterAction)
        ensures
            r@ == action_of(self@),
    {
        match self {
            WriterState::Setup(k) => WriterAction::Execute(setup_statement(*k).to_owned()),
            WriterState::Receiving => WriterAction::Receive,
            WriterState::Inserting(sql) => WriterAction::Execute(sql.clone()),
            WriterState::Finishing(k) => WriterAction::Execute(finish_statement(*k).to_owned()),
            WriterState::Done => WriterAction::Complete,
            WriterState::Failed => WriterAction::Abort,
        }
    }

    /// Takes note of what happened.
    pub fn advance(self, event: WriterEvent) -> (r: WriterState)
        ensures
            r@ == next_state(self@, event@),
            state_wf(self@) ==> state_wf(r@),
    {
        match (self, event) {
            (WriterState::Setup(k), WriterEvent::Executed) => if k < SETUP_STEPS - 1 {
                WriterState::Setup(k + 1)
            } else {
                WriterState::Receiving
            },
            (WriterState::Inserting(_), WriterEvent::Executed) => WriterState::Receiving,
            (WriterState::Finishing(k), WriterEvent::Executed) => if k < FINISH_STEPS - 1 {
                WriterState::Finishing(k + 1)
            } else {
                WriterState::Done
            },
            (WriterState::Setup(_), WriterEvent::Rejected) => WriterState::Failed,
            (WriterState::Inserting(_), WriterEvent::Rejected) => WriterState::Failed,
            (WriterState::Finishing(_), WriterEvent::Rejected) => WriterState::Failed,
            (WriterState::Receiving, WriterEvent::Command(DbCommand::Insert(sql))) => {
                WriterState::Inserting(sql)
            },
            (WriterState::Receiving, WriterEvent::Command(DbCommand::Quit)) => {
                WriterState::Finishing(0)
            },
            (WriterState::Receiving, WriterEvent::Disconnected) => WriterState::Finishing(0),
            (state, _) => state,
        }
    }

    /// How the build ended, once it has.
    pub fn outcome(&self) -> (r: Option<Result<(), BuildError>>)
        ensures
            r == match self@ {
                StateView::Done => Some(Ok::<(), BuildError>(())),
                StateView::Failed => Some(Err::<(), BuildError>(BuildError::TransactionFailure)),
                _ => None,
            },
    {
        match self {
            WriterState::Done => Some(Ok(())),
            WriterState::Failed => Some(Err(BuildError::TransactionFailure)),
            _ => None,
        }
    }
}

/// The state reached from `s` by a sequence of events.
pub open spec fn run(s: StateView, events: Seq<EventView>) -> StateView
    decreases events.len(),
{
    if events.len() == 0 {
        s
    } else {
        next_state(run(s, events.drop_last()), events.last())
    }
}

/// The writer turns to the commit only on a completion signal: a `Quit`
/// command or the disappearance of the producers, received while it waits
/// for a command.
pub proof fn lemma_commit_needs_completion(s: StateView, e: EventView)
    requires
        state_wf(s),
        s != StateView::Finishing(0),
        next_state(s, e) == StateView::Finishing(0),
    ensures
        s == StateView::Receiving,
        e == EventView::Command(CommandView::Quit) || e == EventView::Disconnected,
{
}

/// A statement that fails ends the build, whichever statement it is.
pub proof fn lemma_rejection_aborts(s: StateView)
    requires
        is_executing(s),
    ensures
        next_state(s, EventView::Rejected) == StateView::Failed,
        action_of(StateView::Failed) == ActionView::Abort,
{
}

/// After a failure nothing is executed any more, whatever happens; in
/// particular nothing is committed.
pub proof fn lemma_failure_is_final(events: Seq<EventView>)
    ensures
        run(StateView::Failed, events) == StateView::Failed,
    decreases events.len(),
{
    if events.len() > 0 {
        lemma_failure_is_final(events.drop_last());
    }
}

/// A lookup index is created only after the statement before it, and so
/// the commit, has been executed.
pub proof fn lemma_indices_follow_commit(s: StateView, e: EventView, k: int)
    requires
        state_wf(s),
        1 <= k,
        s != StateView::Finishing(k),
        next_state(s, e) == StateView::Finishing(k),
    ensures
        s == StateView::Finishing(k - 1),
        e == EventView::Executed,
{
}

/// The build succeeds only by executing the last closing statement.
pub proof fn lemma_done_needs_last_statement(s: StateView, e: EventView)
    requires
        state_wf(s),
        s != StateView::Done,
        next_state(s, e) == StateView::Done,
    ensures
        s == StateView::Finishing(FINISH_STEPS - 1),
        e == EventView::Executed,
{
}

/// Well-formed states lead to well-formed states.
pub proof fn lemma_next_state_wf(s: StateView, e: EventView)
    requires
        state_wf(s),
    ensures
        state_wf(next_state(s, e)),
{
}

} // verus!

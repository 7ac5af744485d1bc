//! The course of an import: connecting to SQL Server, and moving batches one after the other.

use crate::config::Settings;
use vstd::prelude::*;

verus! {

/// Where and how to connect to SQL Server.
pub struct Target {
    pub host: String,
    pub port: u16,
    pub database: String,
    pub user: String,
    pub password: String,
    /// The certificate of the server is taken as it is.
    pub trust_cert: bool,
}

/// Where and how the settings say to connect.
pub fn first_target(settings: &Settings) -> (r: Target)
    ensures
        r.host@ == settings.host@,
        r.port == settings.port,
        r.database@ == settings.database@,
        r.user@ == settings.user@,
        r.password@ == settings.password@,
        r.trust_cert,
{
    Target {
        host: settings.host.clone(),
        port: settings.port,
        database: settings.database.clone(),
        user: settings.user.clone(),
        password: settings.password.clone(),
        trust_cert: true,
    }
}

/// How an attempt to connect ended.
pub enum Outcome {
    /// There is a connection.
    Connected,
    /// The server wants the client to connect elsewhere.
    Routed { host: String, port: u16 },
    /// There is no connection.
    Failed,
}

/// What to do after an attempt to connect.
pub enum Connecting {
    /// Work with the connection.
    Done,
    /// Connect to this target.
    Retry(Target),
    /// Report the error and stop.
    Stop,
    /// Hand the error on.
    HandOn,
}

/// Decides what to do after an attempt to connect. A server may send the client elsewhere once.
pub fn after_attempt(settings: &Settings, redirected: bool, outcome: Outcome) -> (r: Connecting)
    ensures
        match outcome {
            Outcome::Connected => r is Done,
            Outcome::Routed { host, port } => if redirected {
                r is HandOn
            } else {
                r matches Connecting::Retry(target) && target.host@ == host@ && target.port == port
                    && target.database@ == settings.database@ && target.user@ == settings.user@
                    && target.password@ == settings.password@ && !target.trust_cert
            },
            Outcome::Failed => if redirected {
                r is HandOn
            } else {
                r is Stop
            },
        },
{
    match outcome {
        Outcome::Connected => Connecting::Done,
        Outcome::Routed { host, port } => if redirected {
            Connecting::HandOn
        } else {
            Connecting::Retry(
                Target {
                    host,
                    port,
                    database: settings.database.clone(),
                    user: settings.user.clone(),
                    password: settings.password.clone(),
                    trust_cert: false,
                },
            )
        },
        Outcome::Failed => if redirected {
            Connecting::HandOn
        } else {
            Connecting::Stop
        },
    }
}

/// What an import is waiting for.
#[derive(Clone, Copy, Debug, PartialEq, Eq, Structural)]
pub enum Stage {
    /// The rows of the next batch.
    Fetching,
    /// The reply to a batch whose last row has this primary key.
    Inserting { last_entry: i32 },
    /// The record of the last row.
    Storing,
    /// Nothing: all rows are imported.
    Finished,
    /// Nothing: a batch did not go into the index.
    Failed,
}

/// How far an import has come.
#[derive(Clone, Copy, Debug, PartialEq, Eq, Structural)]
pub struct Import {
    /// The primary key of the last row that is in the index.
    pub last_row: i32,
    pub stage: Stage,
}

/// What has happened.
#[derive(Clone, Copy, Debug, PartialEq, Eq, Structural)]
pub enum Event {
    /// Rows have come, the last one with this primary key.
    Fetched { last_entry: i32 },
    /// No more rows come.
    Exhausted,
    /// The batch is in the index.
    Inserted,
    /// The batch did not go into the index.
    Refused,
    /// The last row is on record.
    Stored,
}

/// What is to be done next.
#[derive(Clone, Copy, Debug, PartialEq, Eq, Structural)]
pub enum Action {
    /// Fetch the rows after this primary key.
    Fetch { after: i32 },
    /// Put the rows that have come into the index.
    Insert,
    /// Put this primary key on record as the last row.
    Store { last_row: i32 },
    /// Say that there are no more rows.
    Finish,
    /// Report the failure and stop.
    Abort,
}

/// The event is one that the import is waiting for.
pub open spec fn awaited(stage: Stage, event: Event) -> bool {
    match (stage, event) {
        (Stage::Fetching, Event::Fetched { .. }) => true,
        (Stage::Fetching, Event::Exhausted) => true,
        (Stage::Inserting { .. }, Event::Inserted) => true,
        (Stage::Inserting { .. }, Event::Refused) => true,
        (Stage::Storing, Event::Stored) => true,
        _ => false,
    }
}

/// The import after an event that it was waiting for, and what is to be done then.
pub open spec fn next(import: Import, event: Event) -> (Import, Action) {
    match (import.stage, event) {
        (Stage::Fetching, Event::Fetched { last_entry }) => (
            Import { last_row: import.last_row, stage: Stage::Inserting { last_entry } },
            Action::Insert,
        ),
        (Stage::Fetching, _) => (
            Import { last_row: import.last_row, stage: Stage::Finished },
            Action::Finish,
        ),
        (Stage::Inserting { last_entry }, Event::Inserted) => (
            Import { last_row: last_entry, stage: Stage::Storing },
            Action::Store { last_row: last_entry },
        ),
        (Stage::Inserting { .. }, _) => (
            Import { last_row: import.last_row, stage: Stage::Failed },
            Action::Abort,
        ),
        _ => (
            Import { last_row: import.last_row, stage: Stage::Fetching },
            Action::Fetch { after: import.last_row },
        ),
    }
}

/// Starts an import after the row on record. Where none is, the import starts at the first row,
/// and that goes on record first.
pub fn begin(recorded: Option<i32>) -> (r: (Import, Action))
    ensures
        r == (match recorded {
            Some(last_row) => (
                Import { last_row, stage: Stage::Fetching },
                Action::Fetch { after: last_row },
            ),
            None => (Import { last_row: 0, stage: Stage::Storing }, Action::Store { last_row: 0 }),
        }),
{
    match recorded {
        Some(last_row) => (
            Import { last_row, stage: Stage::Fetching },
            Action::Fetch { after: last_row },
        ),
        None => (Import { last_row: 0, stage: Stage::Storing }, Action::Store { last_row: 0 }),
    }
}

/// Carries an import on after an event that it was waiting for.
pub fn step(import: Import, event: Event) -> (r: (Import, Action))
    requires
        awaited(import.stage, event),
    ensures
        r == next(import, event),
        event matches Event::Fetched { last_entry } ==> r.0.last_row == import.last_row
            && r.0.stage == (Stage::Inserting { last_entry }) && r.1 is Insert,
        event is Exhausted ==> r.0.last_row == import.last_row && r.0.stage is Finished
            && r.1 is Finish,
        event is Inserted ==> r.0.last_row == import.stage->last_entry && r.0.stage is Storing
            && r.1 == (Action::Store { last_row: import.stage->last_entry }),
        event is Refused ==> r.0.last_row == import.last_row && r.0.stage is Failed
            && r.1 is Abort,
        event is Stored ==> r.0.last_row == import.last_row && r.0.stage is Fetching && r.1 == (
        Action::Fetch { after: import.last_row }),
{
    match (import.stage, event) {
        (Stage::Fetching, Event::Fetched { last_entry }) => (
            Import { last_row: import.last_row, stage: Stage::Inserting { last_entry } },
            Action::Insert,
        ),
        (Stage::Fetching, _) => (
            Import { last_row: import.last_row, stage: Stage::Finished },
            Action::Finish,
        ),
        (Stage::Inserting { last_entry }, Event::Inserted) => (
            Import { last_row: last_entry, stage: Stage::Storing },
            Action::Store { last_row: last_entry },
        ),
        (Stage::Inserting { .. }, _) => (
            Import { last_row: import.last_row, stage: Stage::Failed },
            Action::Abort,
        ),
        _ => (
            Import { last_row: import.last_row, stage: Stage::Fetching },
            Action::Fetch { after: import.last_row },
        ),
    }
}

/// An import that fetches waits for rows or for the word that none are left, one that inserts for
/// the fate of its batch, and one that stores for its record. An import that is over waits for
/// nothing.
pub proof fn law_what_is_awaited(last_entry: i32, event: Event)
    ensures
        awaited(Stage::Fetching, event) <==> event is Fetched || event is Exhausted,
        awaited(Stage::Inserting { last_entry }, event) <==> event is Inserted || event is Refused,
        awaited(Stage::Storing, event) <==> event is Stored,
        !awaited(Stage::Finished, event),
        !awaited(Stage::Failed, event),
{
}

/// Every batch that comes is put into the index, whatever its last key: the import waits for the
/// fate of that batch, and goes on from the row before until it knows it.
pub proof fn law_every_batch_is_inserted(last_row: i32, last_entry: i32)
    ensures
        next(Import { last_row, stage: Stage::Fetching }, Event::Fetched { last_entry }).1
            is Insert,
        next(Import { last_row, stage: Stage::Fetching }, Event::Fetched { last_entry }).0.stage == (
        Stage::Inserting { last_entry }),
        next(Import { last_row, stage: Stage::Fetching }, Event::Fetched { last_entry }).0.last_row
            == last_row,
{
}

/// What is to be done next is settled by what has happened: rows that have come are inserted, the
/// import finishes where no rows are left and on no other account, a batch that is in the index goes
/// on record, one that is refused ends the import, and a record is followed by the next batch.
pub proof fn law_event_decides_action(import: Import, event: Event)
    requires
        awaited(import.stage, event),
    ensures
        next(import, event).1 is Insert <==> event is Fetched,
        next(import, event).1 is Finish <==> event is Exhausted,
        next(import, event).1 is Store <==> event is Inserted,
        next(import, event).1 is Abort <==> event is Refused,
        next(import, event).1 is Fetch <==> event is Stored,
        next(import, event).0.stage is Inserting <==> event is Fetched,
        next(import, event).0.stage is Finished <==> event is Exhausted,
        next(import, event).0.stage is Storing <==> event is Inserted,
        next(import, event).0.stage is Failed <==> event is Refused,
        next(import, event).0.stage is Fetching <==> event is Stored,
        event !is Inserted ==> next(import, event).0.last_row == import.last_row,
        next(import, event).1 matches Action::Fetch { after } ==> after == import.last_row,
{
}

/// A batch that came and went into the index moves the import from its row to the last row of the
/// batch, in three steps, whatever the two rows are.
pub proof fn law_batch_moves_import(last_row: i32, last_entry: i32)
    ensures
        after_all(
            Import { last_row, stage: Stage::Fetching },
            seq![Event::Fetched { last_entry }, Event::Inserted, Event::Stored],
        ) == (Import { last_row: last_entry, stage: Stage::Fetching }),
        after_all(
            Import { last_row, stage: Stage::Fetching },
            seq![Event::Fetched { last_entry }, Event::Refused],
        ) == (Import { last_row, stage: Stage::Failed }),
{
    let start = Import { last_row, stage: Stage::Fetching };
    let came = seq![Event::Fetched { last_entry }];
    let put = seq![Event::Fetched { last_entry }, Event::Inserted];
    let all = seq![Event::Fetched { last_entry }, Event::Inserted, Event::Stored];
    let refused = seq![Event::Fetched { last_entry }, Event::Refused];
    assert(came.drop_last() =~= seq![]);
    assert(put.drop_last() =~= came);
    assert(all.drop_last() =~= put);
    assert(refused.drop_last() =~= came);
    assert(after_all(start, seq![]) == start);
    assert(after_all(start, came) == next(start, Event::Fetched { last_entry }).0);
    assert(after_all(start, put) == next(after_all(start, came), Event::Inserted).0);
}

/// Each event is one that the import was waiting for when it happened.
pub open spec fn all_awaited(start: Import, events: Seq<Event>) -> bool
    decreases events.len(),
{
    events.len() == 0 || (all_awaited(start, events.drop_last()) && awaited(
        after_all(start, events.drop_last()).stage,
        events.last(),
    ))
}

/// The import after all those events.
pub open spec fn after_all(start: Import, events: Seq<Event>) -> Import
    decreases events.len(),
{
    if events.len() == 0 {
        start
    } else {
        next(after_all(start, events.drop_last()), events.last()).0
    }
}

/// The primary key of the last row of the batch that went into the index last, or `first` where
/// none did.
pub open spec fn last_inserted(events: Seq<Event>, first: i32) -> i32
    decreases events.len(),
{
    if events.len() == 0 {
        first
    } else if events.last() is Inserted && events.len() >= 2 {
        match events[events.len() - 2] {
            Event::Fetched { last_entry } => last_entry,
            _ => last_inserted(events.drop_last(), first),
        }
    } else {
        last_inserted(events.drop_last(), first)
    }
}

/// The row that an import goes on from is always the last one of the batch that went into the
/// index last: rows that did not go in are fetched again, and rows that did are not.
pub proof fn law_last_row_is_in_index(start: Import, events: Seq<Event>)
    requires
        start.stage is Fetching || start.stage is Storing,
        all_awaited(start, events),
    ensures
        after_all(start, events).last_row == last_inserted(events, start.last_row),
        after_all(start, events).stage matches Stage::Inserting { last_entry } ==> events.len() > 0
            && events.last() == (Event::Fetched { last_entry }),
    decreases events.len(),
{
    if events.len() > 0 {
        law_last_row_is_in_index(start, events.drop_last());
        if events.len() >= 2 {
            assert(events.drop_last().last() == events[events.len() - 2]);
        }
    }
}

/// What goes on record is the row that the import goes on from.
pub proof fn law_record_is_last_row(import: Import, event: Event, last_row: i32)
    requires
        awaited(import.stage, event),
        next(import, event).1 == (Action::Store { last_row }),
    ensures
        next(import, event).0.last_row == last_row,
        event is Inserted,
{
}

/// After every batch that went into the index, its last row goes on record before the next batch
/// is fetched, and that batch starts right after it.
pub proof fn law_batches_follow_each_other(import: Import)
    requires
        import.stage is Inserting,
    ensures
        next(import, Event::Inserted).1 == (Action::Store {
            last_row: import.stage->last_entry,
        }),
        next(next(import, Event::Inserted).0, Event::Stored).1 == (Action::Fetch {
            after: import.stage->last_entry,
        }),
        forall|event: Event| #[trigger]
            awaited(next(import, Event::Inserted).0.stage, event) ==> event is Stored,
{
}

/// A batch that did not go into the index ends the import, and the row on record stays.
pub proof fn law_refusal_ends_import(import: Import, event: Event)
    requires
        import.stage is Inserting,
    ensures
        next(import, Event::Refused).1 is Abort,
        next(import, Event::Refused).0.last_row == import.last_row,
        !awaited(next(import, Event::Refused).0.stage, event),
{
}

} // verus!

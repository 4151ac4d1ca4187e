//! What a connection does with each frame that it reads.

use vstd::prelude::*;

use crate::buffer::contents;
use crate::command::parser::{command_of, parse_command, Command};
use crate::error::ProtocolError;
use crate::metrics::MetricsSnapshot;
use crate::persistence::database::{mutation_answer, Database, DatabaseView, StagedView, StagedWrite};
use crate::protocol::frame::{encode_error, Frame, FrameView, ProtocolLimits};
use crate::protocol::response::{Response, ResponseView};
use crate::server::execute::{
    change_answer, database_after, outcome, Execution, ExecutionView, Server, ServerView,
};
use crate::server::lifecycle::{Event, Reaction};
use crate::time::Timestamp;

verus! {

/// What a connection does next.
#[derive(Debug)]
pub enum Action {
    /// Close.
    Close,
    /// Write these bytes, and read the next frame.
    Reply(bytes::Bytes),
    /// Write these bytes, and close.
    ReplyAndClose(bytes::Bytes),
    /// Append a change to the log, and report how that went.
    Append(StagedWrite),
    /// Close, since the answer cannot be written.
    Fail(ProtocolError),
}

/// What a connection does next, as a mathematical value.
#[verifier::ext_equal]
pub enum ActionView {
    Close,
    Reply(Seq<u8>),
    ReplyAndClose(Seq<u8>),
    Append(StagedView),
    Fail(ProtocolError),
}

impl View for Action {
    type V = ActionView;

    open spec fn view(&self) -> ActionView {
        match *self {
            Action::Close => ActionView::Close,
            Action::Reply(encoded) => ActionView::Reply(contents(encoded)),
            Action::ReplyAndClose(encoded) => ActionView::ReplyAndClose(contents(encoded)),
            Action::Append(staged) => ActionView::Append(staged@),
            Action::Fail(error) => ActionView::Fail(error),
        }
    }
}

/// An answer as it is written.
pub open spec fn reply_of(response: ResponseView, limits: ProtocolLimits) -> Result<
    Seq<u8>,
    ProtocolError,
> {
    if !response.encodable() {
        Err(ProtocolError::IntegerOverflow)
    } else {
        match encode_error(response.frame().body().len(), limits) {
            Some(error) => Err(error),
            None => Ok(response.frame().encoded()),
        }
    }
}

/// What a connection does to give this answer.
pub open spec fn answering(response: ResponseView, limits: ProtocolLimits, close: bool) -> ActionView {
    match reply_of(response, limits) {
        Err(error) => ActionView::Fail(error),
        Ok(encoded) => if close {
            ActionView::ReplyAndClose(encoded)
        } else {
            ActionView::Reply(encoded)
        },
    }
}

/// The counters after a request that breaks the protocol.
pub open spec fn count_protocol_error(counters: MetricsSnapshot) -> MetricsSnapshot {
    MetricsSnapshot {
        protocol_errors_total: counters.protocol_errors_total.wrapping_add(1),
        ..counters
    }
}

/// The counters after a command was accepted.
pub open spec fn count_command(counters: MetricsSnapshot) -> MetricsSnapshot {
    MetricsSnapshot { commands_total: counters.commands_total.wrapping_add(1), ..counters }
}

/// The counters after an event of a client's connection.
pub open spec fn connection_counters(
    counters: MetricsSnapshot,
    event: Event,
    reaction: Reaction,
) -> MetricsSnapshot {
    match (event, reaction) {
        (Event::Accepted, Reaction::Serve) => MetricsSnapshot {
            connections_total: counters.connections_total.wrapping_add(1),
            connections_active: counters.connections_active.wrapping_add(1),
            ..counters
        },
        (Event::Accepted, Reaction::Reject) => MetricsSnapshot {
            connections_rejected_total: counters.connections_rejected_total.wrapping_add(1),
            ..counters
        },
        (Event::ConnectionEnded, _) => MetricsSnapshot {
            connections_active: counters.connections_active.wrapping_sub(1),
            ..counters
        },
        _ => counters,
    }
}

/// The database after a request that breaks the protocol.
pub open spec fn refused(db: DatabaseView) -> DatabaseView {
    DatabaseView { counters: count_protocol_error(db.counters), ..db }
}

/// The database as an accepted command finds it.
pub open spec fn accepted(db: DatabaseView) -> DatabaseView {
    DatabaseView { counters: count_command(db.counters), ..db }
}

/// What a connection does with a frame that it read at `now`.
pub open spec fn frame_action(
    server: ServerView,
    db: DatabaseView,
    frame: FrameView,
    now: Timestamp,
    uptime: u64,
) -> ActionView {
    match command_of(frame, db.limits) {
        Err(error) => answering(ResponseView::InvalidRequest(error.text()), db.limits, false),
        Ok(command) => match outcome(server, accepted(db), command, now, uptime) {
            Ok(ExecutionView::Answer(response)) => answering(response, db.limits, false),
            Ok(ExecutionView::Append(staged)) => ActionView::Append(staged),
            Err(_) => answering(
                ResponseView::ServerError("internal server error"@),
                db.limits,
                false,
            ),
        },
    }
}

/// The database after a frame that was read at `now`.
pub open spec fn frame_database(
    server: ServerView,
    db: DatabaseView,
    frame: FrameView,
    now: Timestamp,
) -> DatabaseView {
    match command_of(frame, db.limits) {
        Err(_) => refused(db),
        Ok(command) => database_after(server, accepted(db), command, now),
    }
}

/// What a connection does once a change was appended, or could not be, at `now`.
pub open spec fn append_action(
    db: DatabaseView,
    staged: StagedView,
    appended: bool,
    now: Timestamp,
) -> ActionView {
    match mutation_answer(db.data, staged.mutation, now) {
        Ok(answer) if appended => answering(
            change_answer(staged.mutation, answer),
            db.limits,
            false,
        ),
        _ => answering(ResponseView::ServerError("internal server error"@), db.limits, false),
    }
}

/// The database once a change was appended, or could not be, at `now`.
pub open spec fn append_database(
    db: DatabaseView,
    staged: StagedView,
    appended: bool,
    now: Timestamp,
) -> DatabaseView {
    if appended {
        db.committed(staged, now)
    } else {
        db
    }
}

/// Writes an answer.
pub fn encode_reply(response: Response, limits: ProtocolLimits) -> (encoded: Result<
    bytes::Bytes,
    ProtocolError,
>)
    ensures
        match encoded {
            Ok(encoded) => reply_of(response@, limits) == Ok::<Seq<u8>, ProtocolError>(
                contents(encoded),
            ),
            Err(error) => reply_of(response@, limits) == Err::<Seq<u8>, ProtocolError>(error),
        },
{
    match response.into_frame() {
        Ok(frame) => frame.encode(limits),
        Err(error) => Err(error),
    }
}

fn answer(response: Response, limits: ProtocolLimits, close: bool) -> (action: Action)
    ensures
        action@ == answering(response@, limits, close),
{
    match encode_reply(response, limits) {
        Ok(encoded) => if close {
            Action::ReplyAndClose(encoded)
        } else {
            Action::Reply(encoded)
        },
        Err(error) => Action::Fail(error),
    }
}

impl Server {
    /// Counts the connections of clients, by what happened to one and what is done about it.
    pub fn count_connection(&self, event: Event, reaction: Reaction, database: &mut Database)
        requires
            old(database).valid(),
        ensures
            final(database).valid(),
            final(database)@ == (DatabaseView {
                counters: connection_counters(old(database)@.counters, event, reaction),
                ..old(database)@
            }),
    {
        match (event, reaction) {
            (Event::Accepted, Reaction::Serve) => {
                database.store_mut().metrics_mut().connection_opened();
            },
            (Event::Accepted, Reaction::Reject) => {
                database.store_mut().metrics_mut().connection_rejected();
            },
            (Event::ConnectionEnded, _) => {
                database.store_mut().metrics_mut().connection_closed();
            },
            _ => {},
        }
    }

    /// Decides what to do where no frame could be read, with the text of what went wrong: the
    /// peer is told, and the connection ends.
    pub fn on_broken_frame(&self, message: String, database: &mut Database) -> (action: Action)
        requires
            old(database).valid(),
        ensures
            final(database).valid(),
            final(database)@ == refused(old(database)@),
            action@ == answering(
                ResponseView::InvalidRequest(message@),
                old(database)@.limits,
                true,
            ),
    {
        database.store_mut().metrics_mut().protocol_error();
        answer(Response::InvalidRequest(message), database.limits(), true)
    }

    /// Decides what to do with a frame that was read at `now`.
    pub fn on_frame(
        &self,
        frame: &Frame,
        database: &mut Database,
        now: Timestamp,
        uptime: u64,
    ) -> (action: Action)
        requires
            self.valid(),
            old(database).valid(),
        ensures
            final(database).valid(),
            final(database)@ == frame_database(self@, old(database)@, frame@, now),
            action@ == frame_action(self@, old(database)@, frame@, now, uptime),
    {
        let limits: ProtocolLimits = database.limits();
        let command: Command = match parse_command(frame, limits) {
            Ok(command) => command,
            Err(error) => {
                database.store_mut().metrics_mut().protocol_error();
                return answer(Response::InvalidRequest(error.message()), limits, false);
            },
        };
        database.store_mut().metrics_mut().command();
        match self.execute(command, database, now, uptime) {
            Ok(Execution::Answer(response)) => answer(response, limits, false),
            Ok(Execution::Append(staged)) => Action::Append(staged),
            Err(_) => answer(
                Response::ServerError("internal server error".to_owned()),
                limits,
                false,
            ),
        }
    }

    /// Decides what to do with what reading from the peer gave at `now`: nothing where it closed
    /// the connection before a frame, or a frame, or a broken one.
    pub fn on_read(
        &self,
        read: Result<Option<Frame>, ProtocolError>,
        database: &mut Database,
        now: Timestamp,
        uptime: u64,
    ) -> (action: Action)
        requires
            self.valid(),
            old(database).valid(),
        ensures
            final(database).valid(),
            match read {
                Ok(None) => action is Close && final(database)@ == old(database)@,
                Ok(Some(frame)) => {
                    &&& action@ == frame_action(self@, old(database)@, frame@, now, uptime)
                    &&& final(database)@ == frame_database(self@, old(database)@, frame@, now)
                },
                Err(error) => {
                    &&& action@ == answering(
                        ResponseView::InvalidRequest(error.text()),
                        old(database)@.limits,
                        true,
                    )
                    &&& final(database)@ == refused(old(database)@)
                },
            },
    {
        match read {
            Ok(None) => Action::Close,
            Ok(Some(frame)) => self.on_frame(&frame, database, now, uptime),
            Err(error) => self.on_broken_frame(error.message(), database),
        }
    }

    /// Decides what to do once a change was appended to the log, or could not be, at `now`. A
    /// change that is not in the log is not made.
    pub fn on_append(
        &self,
        staged: StagedWrite,
        appended: bool,
        database: &mut Database,
        now: Timestamp,
    ) -> (action: Action)
        requires
            old(database).valid(),
        ensures
            final(database).valid(),
            action@ == append_action(old(database)@, staged@, appended, now),
            final(database)@ == append_database(old(database)@, staged@, appended, now),
    {
        let limits: ProtocolLimits = database.limits();
        if appended {
            match self.complete(staged, database, now) {
                Ok(response) => return answer(response, limits, false),
                Err(_) => {},
            }
        }
        answer(Response::ServerError("internal server error".to_owned()), limits, false)
    }
}

} // verus!

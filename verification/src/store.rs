use vstd::prelude::*;
use crate::registry::{
    has_key, pending_dictionary, pending_encoded, records_of, unique_records, FilePointer,
    PointerRecord, PointerRegistry,
};
use crate::dispatch::{dispatch_of, Channel, Dispatch, ProtocolError};
use crate::rows::{
    announced, judge_attempt, plan_announce, plan_message, plan_stage_write, registry_of_rows,
    stage_of_rows, stage_statement, AnnounceStep, Attempt, MessageError, StoreError,
};
use crate::stage::{next_stage, Event, Stage};
use crate::statements::{
    begin, commit, create_pointer_table, create_stage_table, insert_pointer, rollback, select_pointers,
    select_stage, set_dictionary_flag, set_encoded_flag, stage_table_name, valid_network, Statement,
};

verus! {

/// `rusqlite::Connection`, a handle to an open SQLite database. Nothing is
/// known of what it holds.
#[verifier::external_type_specification]
#[verifier::external_body]
pub struct ExConnection(rusqlite::Connection);

/// `rusqlite::Error`, what a call into the database can fail with.
#[verifier::external_type_specification]
#[verifier::external_body]
pub struct ExDatabaseError(rusqlite::Error);

/// `rusqlite::Connection::execute` with the texts of the statement as
/// positional parameters: runs one statement that returns no rows and gives
/// the number of rows it changed. Nothing is claimed of that number, nor of
/// when the call fails: both depend on the statement and on what the
/// database holds.
#[verifier::external_body]
fn execute(connection: &rusqlite::Connection, statement: &Statement) -> (changed: Result<usize, rusqlite::Error>) {
    connection.execute(&statement.sql, rusqlite::params_from_iter(statement.params.iter()))
}

/// `rusqlite::Statement::query_map` on what `rusqlite::Connection::prepare`
/// makes of the statement, with its texts as positional parameters: runs a
/// query and gives its rows in the order of the database, each as the texts
/// that `rusqlite::Row::get` reads from its first `width` columns. Nothing
/// is claimed of the rows, nor of when the call fails: both depend on the
/// query and on what the database holds.
#[verifier::external_body]
fn query(connection: &rusqlite::Connection, statement: &Statement) -> (rows: Result<
    Vec<Vec<String>>,
    rusqlite::Error,
>) {
    let mut prepared = connection.prepare(&statement.sql)?;
    let rows = prepared.query_map(
        rusqlite::params_from_iter(statement.params.iter()),
        |row| (0..statement.width).map(|column| row.get::<usize, String>(column)).collect(),
    )?;
    rows.collect()
}

/// How often the update of a flag is tried before it is given up.
pub const FLAG_ATTEMPTS: usize = 3;

/// Runs a statement whose count of changed rows does not matter.
fn run(connection: &rusqlite::Connection, statement: &Statement) -> (result: Result<(), StoreError>)
    ensures
        result is Err ==> result == Err::<(), StoreError>(StoreError::Database),
{
    match execute(connection, statement) {
        Ok(_) => Ok(()),
        Err(_) => Err(StoreError::Database),
    }
}

/// Ends a transaction: makes its changes last where the work went well, and
/// drops them where it did not, or where they cannot be made to last.
fn settle<T>(connection: &rusqlite::Connection, outcome: Result<T, StoreError>) -> (result: Result<T, StoreError>)
    ensures
        match result {
            Ok(value) => outcome == Ok::<T, StoreError>(value),
            Err(error) => outcome == Err::<T, StoreError>(error) || (outcome is Ok && error == StoreError::Database),
        },
{
    match outcome {
        Ok(value) => match run(connection, &commit()) {
            Ok(()) => Ok(value),
            Err(error) => {
                let _ = run(connection, &rollback());
                Err(error)
            },
        },
        Err(error) => {
            let _ = run(connection, &rollback());
            Err(error)
        },
    }
}

/// Creates the pointer table if the database has none; a table that is
/// there is left as it is.
pub fn ensure_schema(connection: &rusqlite::Connection) -> (result: Result<(), StoreError>)
    ensures
        result is Err ==> result == Err::<(), StoreError>(StoreError::Database),
{
    run(connection, &create_pointer_table())
}

/// Reads the pointer table into a registry, in the order of the ids. The
/// table is created first if the database has none. A table with a row that
/// cannot be read, or with two rows for one file, is refused.
pub fn load_registry(connection: &rusqlite::Connection) -> (result: Result<PointerRegistry, StoreError>)
    ensures
        result matches Ok(registry) ==> registry.wf(),
        !(result matches Err(StoreError::InvalidNetwork)),
{
    match ensure_schema(connection) {
        Ok(()) => {},
        Err(error) => {
            return Err(error);
        },
    }
    match query(connection, &select_pointers()) {
        Ok(rows) => registry_of_rows(&rows),
        Err(_) => Err(StoreError::Database),
    }
}

/// The records of the peer whose dictionary is not stored yet, as the
/// database has them now.
pub fn find_pending_dictionary(connection: &rusqlite::Connection, peer_ip: &str) -> (result: Result<
    Vec<FilePointer>,
    StoreError,
>)
    ensures
        result matches Ok(pending) ==> exists|records: Seq<PointerRecord>|
            unique_records(records) && records_of(pending@) == #[trigger] pending_dictionary(records, peer_ip@),
        !(result matches Err(StoreError::InvalidNetwork)),
{
    match load_registry(connection) {
        Ok(registry) => Ok(registry.find_pending_dictionary(peer_ip)),
        Err(error) => Err(error),
    }
}

/// The records of the peer whose encoded text is not stored yet, as the
/// database has them now.
pub fn find_pending_encoded(connection: &rusqlite::Connection, peer_ip: &str) -> (result: Result<
    Vec<FilePointer>,
    StoreError,
>)
    ensures
        result matches Ok(pending) ==> exists|records: Seq<PointerRecord>|
            unique_records(records) && records_of(pending@) == #[trigger] pending_encoded(records, peer_ip@),
        !(result matches Err(StoreError::InvalidNetwork)),
{
    match load_registry(connection) {
        Ok(registry) => Ok(registry.find_pending_encoded(peer_ip)),
        Err(error) => Err(error),
    }
}

/// The record for this file of this peer, as the database has it now.
pub fn find_by_name(connection: &rusqlite::Connection, peer_ip: &str, file_name: &str) -> (result: Result<
    Option<FilePointer>,
    StoreError,
>)
    ensures
        result matches Ok(Some(pointer)) ==> has_key(pointer@, peer_ip@, file_name@),
        !(result matches Err(StoreError::InvalidNetwork)),
{
    match load_registry(connection) {
        Ok(registry) => Ok(registry.find_by_name(peer_ip, file_name)),
        Err(error) => Err(error),
    }
}

/// Looks the file up and adds a row for it where there is none.
fn announce_in_transaction(connection: &rusqlite::Connection, peer_ip: &str, file_name: &str) -> (result: Result<
    FilePointer,
    StoreError,
>)
    ensures
        result matches Ok(pointer) ==> has_key(pointer@, peer_ip@, file_name@),
        !(result matches Err(StoreError::InvalidNetwork)),
{
    let found = match find_by_name(connection, peer_ip, file_name) {
        Ok(found) => found,
        Err(error) => {
            return Err(error);
        },
    };
    match plan_announce(found) {
        AnnounceStep::Known(pointer) => Ok(pointer),
        AnnounceStep::Insert => {
            match run(connection, &insert_pointer(peer_ip, file_name)) {
                Ok(()) => {},
                Err(error) => {
                    return Err(error);
                },
            }
            match find_by_name(connection, peer_ip, file_name) {
                Ok(found) => announced(found),
                Err(error) => Err(error),
            }
        },
    }
}

/// Records that a peer has announced a file: the first announcement adds a
/// row with nothing stored, a later one changes nothing. The look-up and the
/// insert are one transaction. Returns the record of the file.
pub fn announce_upload(connection: &rusqlite::Connection, peer_ip: &str, file_name: &str) -> (result: Result<
    FilePointer,
    StoreError,
>)
    ensures
        result matches Ok(pointer) ==> has_key(pointer@, peer_ip@, file_name@),
        !(result matches Err(StoreError::InvalidNetwork)),
{
    match ensure_schema(connection) {
        Ok(()) => {},
        Err(error) => {
            return Err(error);
        },
    }
    match run(connection, &begin()) {
        Ok(()) => {},
        Err(error) => {
            return Err(error);
        },
    }
    let outcome = announce_in_transaction(connection, peer_ip, file_name);
    settle(connection, outcome)
}

/// Runs the update of a flag, again after a failure, up to `FLAG_ATTEMPTS`
/// times in all.
fn update_flag(connection: &rusqlite::Connection, statement: &Statement) -> (result: Result<bool, StoreError>)
    ensures
        !(result matches Err(StoreError::MalformedRow)),
        !(result matches Err(StoreError::InvalidNetwork)),
{
    let mut made: usize = 0;
    while made < FLAG_ATTEMPTS
        invariant
            made <= FLAG_ATTEMPTS,
        decreases FLAG_ATTEMPTS - made,
    {
        made += 1;
        let changed = match execute(connection, statement) {
            Ok(count) => Some(count),
            Err(_) => None,
        };
        match judge_attempt(made, FLAG_ATTEMPTS, changed) {
            Attempt::Finished(result) => {
                return result;
            },
            Attempt::Again => {},
        }
    }
    Err(StoreError::Database)
}

/// Marks the dictionary of a file as stored, after its bytes were written.
/// An update that fails is tried again. Returns whether the table has a
/// record of the file.
pub fn persist_dictionary(connection: &rusqlite::Connection, peer_ip: &str, file_name: &str) -> (result: Result<
    bool,
    StoreError,
>)
    ensures
        !(result matches Err(StoreError::MalformedRow)),
        !(result matches Err(StoreError::InvalidNetwork)),
{
    update_flag(connection, &set_dictionary_flag(peer_ip, file_name))
}

/// Marks the encoded text of a file as stored, after its bytes were written.
/// An update that fails is tried again. Returns whether the table has a
/// record of the file.
pub fn persist_encoded(connection: &rusqlite::Connection, peer_ip: &str, file_name: &str) -> (result: Result<
    bool,
    StoreError,
>)
    ensures
        !(result matches Err(StoreError::MalformedRow)),
        !(result matches Err(StoreError::InvalidNetwork)),
{
    update_flag(connection, &set_encoded_flag(peer_ip, file_name))
}

/// Reads the stage of a peer, and writes the stage after the event where
/// the event moves the peer.
fn advance_in_transaction(connection: &rusqlite::Connection, table: &str, peer_ip: &str, event: Event) -> (result:
    Result<Stage, StoreError>)
    ensures
        result matches Ok(stage) ==> exists|current: Stage| stage == #[trigger] next_stage(current, event),
        !(result matches Err(StoreError::InvalidNetwork)),
{
    let rows = match query(connection, &select_stage(table, peer_ip)) {
        Ok(rows) => rows,
        Err(_) => {
            return Err(StoreError::Database);
        },
    };
    match plan_stage_write(&rows, event) {
        Ok((next, write)) => {
            match stage_statement(write, table, peer_ip, next) {
                Some(statement) => match run(connection, &statement) {
                    Ok(()) => Ok(next),
                    Err(error) => Err(error),
                },
                None => Ok(next),
            }
        },
        Err(error) => Err(error),
    }
}

/// The stage of a peer in a network, as the database has it now. A peer
/// without a row is idle.
pub fn load_stage(connection: &rusqlite::Connection, network_id: &str, peer_ip: &str) -> (result: Result<
    Stage,
    StoreError,
>)
    ensures
        result matches Err(StoreError::InvalidNetwork) <==> !valid_network(network_id@),
{
    let table = match stage_table_name(network_id) {
        Some(table) => table,
        None => {
            return Err(StoreError::InvalidNetwork);
        },
    };
    match run(connection, &create_stage_table(table.as_str())) {
        Ok(()) => {},
        Err(error) => {
            return Err(error);
        },
    }
    match query(connection, &select_stage(table.as_str(), peer_ip)) {
        Ok(rows) => stage_of_rows(&rows),
        Err(_) => Err(StoreError::Database),
    }
}

/// Moves a peer of a network on by an event: reads its stage, takes the
/// step of the state machine, and writes the new stage where it differs.
/// Reading and writing are one transaction, so that two connections of one
/// peer cannot both act on the same old stage. Returns the stage after the
/// event.
pub fn advance_stage(connection: &rusqlite::Connection, network_id: &str, peer_ip: &str, event: Event) -> (result:
    Result<Stage, StoreError>)
    ensures
        result matches Err(StoreError::InvalidNetwork) <==> !valid_network(network_id@),
        result matches Ok(stage) ==> exists|current: Stage| stage == #[trigger] next_stage(current, event),
{
    let table = match stage_table_name(network_id) {
        Some(table) => table,
        None => {
            return Err(StoreError::InvalidNetwork);
        },
    };
    match run(connection, &create_stage_table(table.as_str())) {
        Ok(()) => {},
        Err(error) => {
            return Err(error);
        },
    }
    match run(connection, &begin()) {
        Ok(()) => {},
        Err(error) => {
            return Err(error);
        },
    }
    let outcome = advance_in_transaction(connection, table.as_str(), peer_ip, event);
    settle(connection, outcome)
}

/// Reads the stage of a peer, lets the dispatcher decide on the message,
/// and writes the stage after the message where it differs.
fn take_in_transaction(
    connection: &rusqlite::Connection,
    table: &str,
    peer_ip: &str,
    channel: Channel,
    message: &[u8],
) -> (result: Result<Result<Dispatch, ProtocolError>, StoreError>)
    ensures
        match result {
            Ok(Ok(decision)) => exists|current: Stage|
                #[trigger] dispatch_of(channel, current, message@) == Ok::<Dispatch, ProtocolError>(decision),
            Ok(Err(refusal)) => exists|current: Stage|
                #[trigger] dispatch_of(channel, current, message@) == Err::<Dispatch, ProtocolError>(refusal),
            Err(error) => error != StoreError::InvalidNetwork,
        },
{
    let rows = match query(connection, &select_stage(table, peer_ip)) {
        Ok(rows) => rows,
        Err(_) => {
            return Err(StoreError::Database);
        },
    };
    match plan_message(&rows, channel, message) {
        Ok(Ok((decision, write))) => {
            match stage_statement(write, table, peer_ip, decision.stage) {
                Some(statement) => match run(connection, &statement) {
                    Ok(()) => Ok(Ok(decision)),
                    Err(error) => Err(error),
                },
                None => Ok(Ok(decision)),
            }
        },
        Ok(Err(refusal)) => Ok(Err(refusal)),
        Err(error) => Err(error),
    }
}

/// Takes a message of a peer: reads the peer's stage, lets the dispatcher
/// decide at that stage, and writes the stage after the message. Reading,
/// deciding and writing are one transaction, so that the decision stands on
/// the stage that is replaced. A message that the dispatcher refuses changes
/// nothing. Returns the decision.
pub fn take_message(
    connection: &rusqlite::Connection,
    network_id: &str,
    peer_ip: &str,
    channel: Channel,
    message: &[u8],
) -> (result: Result<Dispatch, MessageError>)
    ensures
        result matches Err(MessageError::Store(StoreError::InvalidNetwork)) <==> !valid_network(network_id@),
        result matches Ok(decision) ==> exists|current: Stage|
            #[trigger] dispatch_of(channel, current, message@) == Ok::<Dispatch, ProtocolError>(decision),
        result matches Err(MessageError::Protocol(refusal)) ==> exists|current: Stage|
            #[trigger] dispatch_of(channel, current, message@) == Err::<Dispatch, ProtocolError>(refusal),
{
    let table = match stage_table_name(network_id) {
        Some(table) => table,
        None => {
            return Err(MessageError::Store(StoreError::InvalidNetwork));
        },
    };
    match run(connection, &create_stage_table(table.as_str())) {
        Ok(()) => {},
        Err(error) => {
            return Err(MessageError::Store(error));
        },
    }
    match run(connection, &begin()) {
        Ok(()) => {},
        Err(error) => {
            return Err(MessageError::Store(error));
        },
    }
    let outcome = take_in_transaction(connection, table.as_str(), peer_ip, channel, message);
    match settle(connection, outcome) {
        Ok(Ok(decision)) => Ok(decision),
        Ok(Err(refusal)) => Err(MessageError::Protocol(refusal)),
        Err(error) => Err(MessageError::Store(error)),
    }
}

} // verus!

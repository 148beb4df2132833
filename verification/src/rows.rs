use vstd::prelude::*;
use crate::dispatch::{dispatch, dispatch_of, Channel, Dispatch, ProtocolError};
use crate::registry::{records_of, unique_records, FilePointer, PointerRecord, PointerRegistry};
use crate::stage::{next_stage, stage_code, stage_of_code, Event, Stage};
use crate::statements::{insert_stage, update_stage, Statement};
use crate::text::chars_of;

verus! {

/// Reading the database failed, or what it holds cannot be used.
#[derive(Clone, Copy, Debug, PartialEq, Eq, Structural)]
pub enum StoreError {
    /// The database refused a statement.
    Database,
    /// A row has not the columns or not the texts that the table calls for.
    MalformedRow,
    /// The table holds two rows where it may hold one.
    Integrity,
    /// The network identifier cannot be part of a table name.
    InvalidNetwork,
}

/// The flag that a text of the pointer table stands for.
pub open spec fn flag_of(text: Seq<char>) -> Option<bool> {
    if text == "TRUE"@ {
        Some(true)
    } else if text == "FALSE"@ {
        Some(false)
    } else {
        None
    }
}

/// The text that stands for a flag in the pointer table.
pub open spec fn flag_text(flag: bool) -> Seq<char> {
    if flag {
        "TRUE"@
    } else {
        "FALSE"@
    }
}

/// A flag is read back from its text.
pub proof fn lemma_flag_round_trip(flag: bool)
    ensures
        flag_of(flag_text(flag)) == Some(flag),
{
    reveal_strlit("TRUE");
    reveal_strlit("FALSE");
    assert("TRUE"@.len() != "FALSE"@.len());
}

/// Reads a flag of the pointer table.
pub fn parse_flag(text: &str) -> (flag: Option<bool>)
    ensures
        flag == flag_of(text@),
{
    if text.eq("TRUE") {
        Some(true)
    } else if text.eq("FALSE") {
        Some(false)
    } else {
        None
    }
}

/// The character is a decimal digit.
pub open spec fn is_digit(c: char) -> bool {
    '0' <= c <= '9'
}

/// Every character of the text is a decimal digit.
pub open spec fn all_digits(text: Seq<char>) -> bool {
    forall|i: int| 0 <= i < text.len() ==> is_digit(#[trigger] text[i])
}

/// The number that decimal digits spell.
pub open spec fn decimal_value(digits: Seq<char>) -> int
    decreases digits.len(),
{
    if digits.len() == 0 {
        0
    } else {
        10 * decimal_value(digits.drop_last()) + (digits.last() as int - '0' as int)
    }
}

/// The id that a text stands for: the text is made of decimal digits, at
/// least one, and spells a number that an id can hold.
pub open spec fn id_of(text: Seq<char>) -> Option<i32> {
    if text.len() > 0 && all_digits(text) && decimal_value(text) <= i32::MAX {
        Some(decimal_value(text) as i32)
    } else {
        None
    }
}

/// Digits spell no smaller a number than a start of them does.
pub proof fn lemma_decimal_grows(digits: Seq<char>, count: int)
    requires
        all_digits(digits),
        0 <= count <= digits.len(),
    ensures
        0 <= decimal_value(digits.take(count)) <= decimal_value(digits),
    decreases digits.len() - count,
{
    if count == digits.len() {
        assert(digits.take(count) =~= digits);
        lemma_decimal_nonnegative(digits);
    } else {
        lemma_decimal_grows(digits, count + 1);
        assert(digits.take(count + 1).drop_last() =~= digits.take(count));
        lemma_decimal_nonnegative(digits.take(count));
    }
}

/// Digits spell a number that is not negative.
pub proof fn lemma_decimal_nonnegative(digits: Seq<char>)
    requires
        all_digits(digits),
    ensures
        0 <= decimal_value(digits),
    decreases digits.len(),
{
    if digits.len() > 0 {
        lemma_decimal_nonnegative(digits.drop_last());
    }
}

/// The value of a decimal digit, and none for another character.
fn digit(c: char) -> (value: Option<i64>)
    ensures
        match value {
            Some(v) => is_digit(c) && v == c as int - '0' as int,
            None => !is_digit(c),
        },
{
    if '0' <= c && c <= '9' {
        Some((c as u32 - '0' as u32) as i64)
    } else {
        None
    }
}

/// Reads an id of the pointer table.
pub fn parse_id(text: &str) -> (id: Option<i32>)
    ensures
        id == id_of(text@),
{
    let digits = chars_of(text);
    if digits.len() == 0 {
        return None;
    }
    let mut value: i64 = 0;
    let mut i: usize = 0;
    while i < digits.len()
        invariant
            i <= digits.len(),
            digits@ == text@,
            all_digits(digits@.take(i as int)),
            value == decimal_value(digits@.take(i as int)),
            0 <= value <= i32::MAX,
        decreases digits.len() - i,
    {
        assert(digits@.take(i + 1).drop_last() =~= digits@.take(i as int));
        match digit(digits[i]) {
            Some(d) => {
                let grown = value * 10 + d;
                if grown > i32::MAX as i64 {
                    proof {
                        if all_digits(digits@) {
                            lemma_decimal_grows(digits@, i + 1);
                        }
                    }
                    return None;
                }
                value = grown;
            },
            None => {
                return None;
            },
        }
        i += 1;
    }
    assert(digits@.take(i as int) =~= digits@);
    Some(value as i32)
}

/// The texts of a row.
pub open spec fn row_texts(row: Vec<String>) -> Seq<Seq<char>> {
    row@.map_values(|text: String| text@)
}

/// The texts of the rows of a table.
pub open spec fn table_texts(rows: Seq<Vec<String>>) -> Seq<Seq<Seq<char>>> {
    rows.map_values(|row: Vec<String>| row_texts(row))
}

/// The row can be read as a pointer: it has five columns, the first an id
/// and the last two flags.
pub open spec fn readable(row: Seq<Seq<char>>) -> bool {
    row.len() == 5 && id_of(row[0]) is Some && flag_of(row[3]) is Some && flag_of(row[4]) is Some
}

/// The pointer that a row of the pointer table stands for: id, peer, file
/// name and the two flags, in this order.
pub open spec fn record_of_row(row: Seq<Seq<char>>) -> PointerRecord {
    PointerRecord {
        id: id_of(row[0])->0 as int,
        ip: row[1],
        file_name: row[2],
        dictionary_in_place: flag_of(row[3])->0,
        encoded_text_in_place: flag_of(row[4])->0,
    }
}

/// Every row of the table can be read as a pointer.
pub open spec fn all_readable(rows: Seq<Seq<Seq<char>>>) -> bool {
    forall|i: int| 0 <= i < rows.len() ==> readable(#[trigger] rows[i])
}

/// The pointers that the rows of the pointer table stand for.
pub open spec fn records_of_rows(rows: Seq<Seq<Seq<char>>>) -> Seq<PointerRecord> {
    rows.map_values(|row: Seq<Seq<char>>| record_of_row(row))
}

/// Reads a row of the pointer table.
pub fn pointer_of_row(row: &Vec<String>) -> (pointer: Option<FilePointer>)
    ensures
        match pointer {
            Some(found) => readable(row_texts(*row)) && found@ == record_of_row(row_texts(*row)),
            None => !readable(row_texts(*row)),
        },
{
    if row.len() != 5 {
        return None;
    }
    let ghost texts = row_texts(*row);
    assert(texts[0] == row@[0]@ && texts[1] == row@[1]@ && texts[2] == row@[2]@ && texts[3] == row@[3]@
        && texts[4] == row@[4]@);
    let id = match parse_id(row[0].as_str()) {
        Some(id) => id,
        None => {
            return None;
        },
    };
    let dictionary_in_place = match parse_flag(row[3].as_str()) {
        Some(flag) => flag,
        None => {
            return None;
        },
    };
    let encoded_text_in_place = match parse_flag(row[4].as_str()) {
        Some(flag) => flag,
        None => {
            return None;
        },
    };
    Some(
        FilePointer {
            id,
            ip: row[1].clone(),
            file_name: row[2].clone(),
            dictionary_in_place,
            encoded_text_in_place,
        },
    )
}

/// Builds the registry that the rows of the pointer table stand for. Rows
/// that cannot be read are refused, and so are rows of which two speak of
/// the same file of the same peer or have the same id.
pub fn registry_of_rows(rows: &Vec<Vec<String>>) -> (result: Result<PointerRegistry, StoreError>)
    ensures
        match result {
            Ok(registry) => {
                &&& all_readable(table_texts(rows@))
                &&& registry@ == records_of_rows(table_texts(rows@))
                &&& registry.wf()
            },
            Err(StoreError::MalformedRow) => !all_readable(table_texts(rows@)),
            Err(StoreError::Integrity) => all_readable(table_texts(rows@)) && !unique_records(
                records_of_rows(table_texts(rows@)),
            ),
            Err(_) => false,
        },
{
    let ghost texts = table_texts(rows@);
    let mut pointers: Vec<FilePointer> = Vec::new();
    let mut i: usize = 0;
    while i < rows.len()
        invariant
            i <= rows.len(),
            texts == table_texts(rows@),
            all_readable(texts.take(i as int)),
            records_of(pointers@) == records_of_rows(texts.take(i as int)),
        decreases rows.len() - i,
    {
        assert(texts[i as int] == row_texts(rows@[i as int]));
        match pointer_of_row(&rows[i]) {
            Some(pointer) => {
                let ghost before = records_of(pointers@);
                pointers.push(pointer);
                assert(records_of(pointers@) =~= before.push(record_of_row(texts[i as int])));
            },
            None => {
                return Err(StoreError::MalformedRow);
            },
        }
        i += 1;
    }
    assert(texts.take(i as int) =~= texts);
    match PointerRegistry::from_rows(pointers) {
        Ok(registry) => Ok(registry),
        Err(_) => Err(StoreError::Integrity),
    }
}

/// The stage that the rows found for a peer in a stage table stand for: a
/// peer without a row is idle, a peer has at most one row, and the row holds
/// the code of a stage.
pub open spec fn stage_in(rows: Seq<Seq<Seq<char>>>) -> Result<Stage, StoreError> {
    if rows.len() == 0 {
        Ok(Stage::Idle)
    } else if rows.len() > 1 {
        Err(StoreError::Integrity)
    } else if rows[0].len() == 1 && stage_of_code(rows[0][0]) is Some {
        Ok(stage_of_code(rows[0][0])->0)
    } else {
        Err(StoreError::MalformedRow)
    }
}

/// Reads the stage of a peer from the rows that a stage table has for it.
pub fn stage_of_rows(rows: &Vec<Vec<String>>) -> (result: Result<Stage, StoreError>)
    ensures
        result == stage_in(table_texts(rows@)),
{
    if rows.len() == 0 {
        return Ok(Stage::Idle);
    }
    if rows.len() > 1 {
        return Err(StoreError::Integrity);
    }
    if rows[0].len() != 1 {
        return Err(StoreError::MalformedRow);
    }
    match Stage::from_code(rows[0][0].as_str()) {
        Some(stage) => Ok(stage),
        None => Err(StoreError::MalformedRow),
    }
}

/// What an update of a flag came to, by the number of rows it changed:
/// whether the table has a record of the file. An update that changed
/// several rows shows that the table holds several records of one file.
pub open spec fn flag_result(changed: usize) -> Result<bool, StoreError> {
    if changed == 0 {
        Ok(false)
    } else if changed == 1 {
        Ok(true)
    } else {
        Err(StoreError::Integrity)
    }
}

/// What an update of a flag came to, by the number of rows it changed.
pub fn flag_outcome(changed: usize) -> (result: Result<bool, StoreError>)
    ensures
        result == flag_result(changed),
{
    if changed == 0 {
        Ok(false)
    } else if changed == 1 {
        Ok(true)
    } else {
        Err(StoreError::Integrity)
    }
}

/// What follows an attempt to update a flag: the update is over, with this
/// result, or it is tried again.
#[derive(Debug, PartialEq, Eq)]
pub enum Attempt {
    Finished(Result<bool, StoreError>),
    Again,
}

/// What follows the attempt that makes `made` attempts in all, of at most
/// `limit`. An attempt that the database carried out ends the update, with
/// what the number of changed rows tells. One that the database refused
/// (`changed` is `None`) is followed by another, until `limit` attempts are
/// made; then the update is given up as a failure of the database.
pub open spec fn after_attempt(made: usize, limit: usize, changed: Option<usize>) -> Attempt {
    match changed {
        Some(count) => Attempt::Finished(flag_result(count)),
        None => if made < limit {
            Attempt::Again
        } else {
            Attempt::Finished(Err(StoreError::Database))
        },
    }
}

/// Decides what follows an attempt to update a flag.
pub fn judge_attempt(made: usize, limit: usize, changed: Option<usize>) -> (next: Attempt)
    ensures
        next == after_attempt(made, limit, changed),
{
    match changed {
        Some(count) => Attempt::Finished(flag_outcome(count)),
        None => {
            if made < limit {
                Attempt::Again
            } else {
                Attempt::Finished(Err(StoreError::Database))
            }
        },
    }
}

/// What an announcement of a file asks of the pointer table.
#[derive(Debug)]
pub enum AnnounceStep {
    /// The table has a record of the file: it is the answer, and nothing is
    /// written.
    Known(FilePointer),
    /// The table has no record of the file: a row is added.
    Insert,
}

/// Decides what an announcement asks for, from what the look-up of the file
/// has found: a file that is known is not written again.
pub fn plan_announce(found: Option<FilePointer>) -> (step: AnnounceStep)
    ensures
        match found {
            Some(pointer) => step == AnnounceStep::Known(pointer),
            None => step is Insert,
        },
{
    match found {
        Some(pointer) => AnnounceStep::Known(pointer),
        None => AnnounceStep::Insert,
    }
}

/// The outcome of an announcement that has added a row, from what the
/// look-up after the insert has found: the record of the file, and a broken
/// table where the row that was just added is not there.
pub fn announced(found: Option<FilePointer>) -> (result: Result<FilePointer, StoreError>)
    ensures
        match found {
            Some(pointer) => result == Ok::<FilePointer, StoreError>(pointer),
            None => result == Err::<FilePointer, StoreError>(StoreError::Integrity),
        },
{
    match found {
        Some(pointer) => Ok(pointer),
        None => Err(StoreError::Integrity),
    }
}

/// What an event asks of a stage table: the stage of the peer after the
/// event, and whether the peer gets its first row, has its row changed, or
/// keeps what it has.
pub enum StageWrite {
    Keep,
    Insert,
    Update,
}

/// The stage after an event and the write that it asks for, given the rows
/// that the stage table has for the peer. An event that does not move the
/// peer writes nothing; one that moves a peer without a row adds the row.
pub open spec fn stage_plan(rows: Seq<Seq<Seq<char>>>, event: Event) -> Result<(Stage, StageWrite), StoreError> {
    match stage_in(rows) {
        Ok(current) => Ok(
            (
                next_stage(current, event),
                if next_stage(current, event) == current {
                    StageWrite::Keep
                } else if rows.len() == 0 {
                    StageWrite::Insert
                } else {
                    StageWrite::Update
                },
            ),
        ),
        Err(error) => Err(error),
    }
}

/// Takes the step of the state machine on the rows that the stage table has
/// for a peer, and says what is to be written.
pub fn plan_stage_write(rows: &Vec<Vec<String>>, event: Event) -> (result: Result<(Stage, StageWrite), StoreError>)
    ensures
        result == stage_plan(table_texts(rows@), event),
{
    match stage_of_rows(rows) {
        Ok(current) => {
            let next = current.next(event);
            let write = if next == current {
                StageWrite::Keep
            } else if rows.len() == 0 {
                StageWrite::Insert
            } else {
                StageWrite::Update
            };
            Ok((next, write))
        },
        Err(error) => Err(error),
    }
}

/// What the dispatcher makes of a message, given the rows that the stage
/// table has for the peer: its decision on the stage that the rows stand
/// for, and the write that brings the table to the stage after the message.
/// A message that is refused writes nothing.
pub open spec fn message_plan(rows: Seq<Seq<Seq<char>>>, channel: Channel, message: Seq<u8>) -> Result<
    Result<(Dispatch, StageWrite), ProtocolError>,
    StoreError,
> {
    match stage_in(rows) {
        Ok(current) => Ok(
            match dispatch_of(channel, current, message) {
                Ok(decision) => Ok(
                    (
                        decision,
                        if decision.stage == current {
                            StageWrite::Keep
                        } else if rows.len() == 0 {
                            StageWrite::Insert
                        } else {
                            StageWrite::Update
                        },
                    ),
                ),
                Err(refusal) => Err(refusal),
            },
        ),
        Err(error) => Err(error),
    }
}

/// Lets the dispatcher decide on a message at the stage that the rows of
/// the stage table give the peer, and says what is to be written.
pub fn plan_message(rows: &Vec<Vec<String>>, channel: Channel, message: &[u8]) -> (result: Result<
    Result<(Dispatch, StageWrite), ProtocolError>,
    StoreError,
>)
    ensures
        result == message_plan(table_texts(rows@), channel, message@),
{
    match stage_of_rows(rows) {
        Ok(current) => match dispatch(channel, current, message) {
            Ok(decision) => {
                let write = if decision.stage == current {
                    StageWrite::Keep
                } else if rows.len() == 0 {
                    StageWrite::Insert
                } else {
                    StageWrite::Update
                };
                Ok(Ok((decision, write)))
            },
            Err(refusal) => Ok(Err(refusal)),
        },
        Err(error) => Err(error),
    }
}

/// A message was not taken.
#[derive(Clone, Copy, Debug, PartialEq, Eq)]
pub enum MessageError {
    /// The message was refused, and nothing was changed.
    Protocol(ProtocolError),
    /// The stage table could not be read or written.
    Store(StoreError),
}

/// The statement that carries out a write of a stage, if anything is to be
/// written.
pub fn stage_statement(write: StageWrite, table: &str, peer_ip: &str, stage: Stage) -> (statement: Option<Statement>)
    ensures
        match write {
            StageWrite::Keep => statement is None,
            StageWrite::Insert => statement is Some && statement->0.is(
                "INSERT INTO "@ + table@ + " (ip, stage) VALUES (?1, ?2)"@,
                seq![peer_ip@, stage_code(stage)],
                0,
            ),
            StageWrite::Update => statement is Some && statement->0.is(
                "UPDATE "@ + table@ + " SET stage = ?2 WHERE ip = ?1"@,
                seq![peer_ip@, stage_code(stage)],
                0,
            ),
        },
{
    match write {
        StageWrite::Keep => None,
        StageWrite::Insert => Some(insert_stage(table, peer_ip, stage)),
        StageWrite::Update => Some(update_stage(table, peer_ip, stage)),
    }
}

} // verus!

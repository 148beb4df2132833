use dstorage::dispatch::{Channel, Header, ProtocolError, Route};
use dstorage::registry::FilePointer;
use dstorage::rows::{
    announced, flag_outcome, judge_attempt, parse_flag, parse_id, plan_announce, plan_message,
    plan_stage_write, pointer_of_row, registry_of_rows, stage_of_rows, stage_statement, AnnounceStep,
    Attempt, MessageError, StageWrite, StoreError,
};
use dstorage::stage::{Event, RequestCode, Stage, UploadKind};
use dstorage::statements::{
    begin, commit, create_pointer_table, create_stage_table, insert_pointer, insert_stage, rollback,
    select_pointers, select_stage, set_dictionary_flag, set_encoded_flag, stage_table_name,
    update_stage,
};
use dstorage::store::{
    advance_stage, announce_upload, ensure_schema, find_by_name, find_pending_dictionary,
    find_pending_encoded, load_registry, load_stage, persist_dictionary, persist_encoded, take_message,
};
use rusqlite::Connection;

fn names(pointers: &[FilePointer]) -> Vec<String> {
    pointers.iter().map(|pointer| pointer.file_name.clone()).collect()
}

fn row(texts: &[&str]) -> Vec<String> {
    texts.iter().map(|text| text.to_string()).collect()
}

#[test]
fn flags_are_read_from_their_texts() {
    assert_eq!(parse_flag("TRUE"), Some(true));
    assert_eq!(parse_flag("FALSE"), Some(false));
    assert_eq!(parse_flag("true"), None);
    assert_eq!(parse_flag(""), None);
    assert_eq!(parse_flag("TRUEE"), None);
}

#[test]
fn ids_are_read_from_decimal_digits() {
    assert_eq!(parse_id("0"), Some(0));
    assert_eq!(parse_id("7"), Some(7));
    assert_eq!(parse_id("1203"), Some(1203));
    assert_eq!(parse_id("007"), Some(7));
    assert_eq!(parse_id("2147483647"), Some(i32::MAX));
    assert_eq!(parse_id("2147483648"), None);
    assert_eq!(parse_id("99999999999999999999999999"), None);
    assert_eq!(parse_id(""), None);
    assert_eq!(parse_id("-3"), None);
    assert_eq!(parse_id("12a"), None);
    assert_eq!(parse_id("99999999999x"), None);
    assert_eq!(parse_id("١٢"), None);
}

#[test]
fn a_row_is_read_as_a_pointer() {
    let pointer = pointer_of_row(&row(&["12", "10.0.0.1", "a.txt", "TRUE", "FALSE"])).unwrap();
    assert_eq!(pointer.id, 12);
    assert_eq!(pointer.ip, "10.0.0.1");
    assert_eq!(pointer.file_name, "a.txt");
    assert!(pointer.dictionary_in_place);
    assert!(!pointer.encoded_text_in_place);
    assert!(pointer_of_row(&row(&["12", "10.0.0.1", "a.txt", "TRUE"])).is_none());
    assert!(pointer_of_row(&row(&["12", "10.0.0.1", "a.txt", "TRUE", "FALSE", "x"])).is_none());
    assert!(pointer_of_row(&row(&["x", "10.0.0.1", "a.txt", "TRUE", "FALSE"])).is_none());
    assert!(pointer_of_row(&row(&["12", "10.0.0.1", "a.txt", "yes", "FALSE"])).is_none());
    assert!(pointer_of_row(&row(&["12", "10.0.0.1", "a.txt", "TRUE", "0"])).is_none());
}

#[test]
fn rows_are_read_as_a_registry() {
    let rows = vec![
        row(&["1", "p", "x", "FALSE", "FALSE"]),
        row(&["2", "p", "y", "TRUE", "FALSE"]),
        row(&["5", "q", "x", "TRUE", "TRUE"]),
    ];
    let registry = registry_of_rows(&rows).unwrap();
    assert_eq!(registry.len(), 3);
    assert_eq!(names(&registry.find_pending_dictionary("p")), vec!["x"]);
    assert_eq!(registry.get(2).unwrap().id, 5);
    let malformed = vec![row(&["1", "p", "x", "FALSE", "FALSE"]), row(&["2", "p", "y", "TRUE"])];
    assert_eq!(registry_of_rows(&malformed).err(), Some(StoreError::MalformedRow));
    let repeated = vec![row(&["1", "p", "x", "FALSE", "FALSE"]), row(&["2", "p", "x", "TRUE", "TRUE"])];
    assert_eq!(registry_of_rows(&repeated).err(), Some(StoreError::Integrity));
    assert_eq!(registry_of_rows(&Vec::new()).unwrap().len(), 0);
}

#[test]
fn stage_rows_are_read_as_a_stage() {
    assert_eq!(stage_of_rows(&Vec::new()), Ok(Stage::Idle));
    assert_eq!(stage_of_rows(&vec![row(&["0011"])]), Ok(Stage::UploadAnnounced));
    assert_eq!(stage_of_rows(&vec![row(&["0111"])]), Ok(Stage::UploadComplete));
    assert_eq!(stage_of_rows(&vec![row(&["9"])]), Err(StoreError::MalformedRow));
    assert_eq!(stage_of_rows(&vec![row(&["0011", "x"])]), Err(StoreError::MalformedRow));
    assert_eq!(stage_of_rows(&vec![row(&[])]), Err(StoreError::MalformedRow));
    assert_eq!(stage_of_rows(&vec![row(&["0011"]), row(&["0011"])]), Err(StoreError::Integrity));
}

#[test]
fn the_count_of_changed_rows_tells_what_an_update_did() {
    assert_eq!(flag_outcome(0), Ok(false));
    assert_eq!(flag_outcome(1), Ok(true));
    assert_eq!(flag_outcome(2), Err(StoreError::Integrity));
}

#[test]
fn a_refused_update_is_tried_again_until_the_limit() {
    assert_eq!(judge_attempt(1, 3, None), Attempt::Again);
    assert_eq!(judge_attempt(2, 3, None), Attempt::Again);
    assert_eq!(judge_attempt(3, 3, None), Attempt::Finished(Err(StoreError::Database)));
    assert_eq!(judge_attempt(1, 3, Some(1)), Attempt::Finished(Ok(true)));
    assert_eq!(judge_attempt(3, 3, Some(0)), Attempt::Finished(Ok(false)));
    assert_eq!(judge_attempt(2, 3, Some(4)), Attempt::Finished(Err(StoreError::Integrity)));
    assert_eq!(judge_attempt(1, 1, None), Attempt::Finished(Err(StoreError::Database)));
}

#[test]
fn a_known_file_is_not_written_again() {
    let known = FilePointer::new(4, "p".to_string(), "x".to_string());
    match plan_announce(Some(known)) {
        AnnounceStep::Known(pointer) => {
            assert_eq!((pointer.id, pointer.ip.as_str(), pointer.file_name.as_str()), (4, "p", "x"))
        }
        AnnounceStep::Insert => panic!("a known file was written again"),
    }
    assert!(matches!(plan_announce(None), AnnounceStep::Insert));
    let added = FilePointer::new(9, "q".to_string(), "y".to_string());
    assert_eq!(announced(Some(added)).unwrap().id, 9);
    assert_eq!(announced(None).err(), Some(StoreError::Integrity));
}

#[test]
fn the_schema_is_created_once() {
    let connection = Connection::open_in_memory().unwrap();
    assert_eq!(ensure_schema(&connection), Ok(()));
    announce_upload(&connection, "p", "x").unwrap();
    assert_eq!(ensure_schema(&connection), Ok(()));
    assert_eq!(load_registry(&connection).unwrap().len(), 1);
}

#[test]
fn a_missing_table_is_made_on_the_first_read() {
    let connection = Connection::open_in_memory().unwrap();
    assert!(find_pending_dictionary(&connection, "p").unwrap().is_empty());
    assert!(find_by_name(&connection, "p", "x").unwrap().is_none());
}

#[test]
fn announced_files_are_kept_in_the_database() {
    let connection = Connection::open_in_memory().unwrap();
    let first = announce_upload(&connection, "10.0.0.1", "a.txt").unwrap();
    assert_eq!(first.id, 1);
    assert_eq!(first.ip, "10.0.0.1");
    assert_eq!(first.file_name, "a.txt");
    assert!(!first.dictionary_in_place && !first.encoded_text_in_place);
    let second = announce_upload(&connection, "10.0.0.1", "b.txt").unwrap();
    assert_eq!(second.id, 2);
    let again = announce_upload(&connection, "10.0.0.1", "a.txt").unwrap();
    assert_eq!(again.id, 1);
    assert_eq!(load_registry(&connection).unwrap().len(), 2);
    let found = find_by_name(&connection, "10.0.0.1", "b.txt").unwrap().unwrap();
    assert_eq!(found.id, 2);
    assert!(find_by_name(&connection, "10.0.0.2", "b.txt").unwrap().is_none());
}

#[test]
fn a_persisted_artifact_is_no_longer_pending_in_the_database() {
    let connection = Connection::open_in_memory().unwrap();
    announce_upload(&connection, "p", "x").unwrap();
    announce_upload(&connection, "p", "y").unwrap();
    announce_upload(&connection, "q", "x").unwrap();
    assert_eq!(names(&find_pending_dictionary(&connection, "p").unwrap()), vec!["x", "y"]);
    assert_eq!(persist_dictionary(&connection, "p", "x"), Ok(true));
    assert_eq!(names(&find_pending_dictionary(&connection, "p").unwrap()), vec!["y"]);
    assert_eq!(names(&find_pending_dictionary(&connection, "q").unwrap()), vec!["x"]);
    assert_eq!(names(&find_pending_encoded(&connection, "p").unwrap()), vec!["x", "y"]);
    assert_eq!(persist_encoded(&connection, "p", "y"), Ok(true));
    assert_eq!(names(&find_pending_encoded(&connection, "p").unwrap()), vec!["x"]);
    let x = find_by_name(&connection, "p", "x").unwrap().unwrap();
    assert!(x.dictionary_in_place && !x.encoded_text_in_place);
    let y = find_by_name(&connection, "p", "y").unwrap().unwrap();
    assert!(!y.dictionary_in_place && y.encoded_text_in_place);
    let other = find_by_name(&connection, "q", "x").unwrap().unwrap();
    assert!(!other.dictionary_in_place && !other.encoded_text_in_place);
    assert_eq!(persist_dictionary(&connection, "p", "x"), Ok(true));
    assert_eq!(persist_dictionary(&connection, "p", "z"), Ok(false));
}

#[test]
fn names_with_quotes_are_bound_not_spliced() {
    let connection = Connection::open_in_memory().unwrap();
    let name = "it's'); DROP TABLE file_pointers; --";
    announce_upload(&connection, "1.1.1.1", name).unwrap();
    assert_eq!(find_by_name(&connection, "1.1.1.1", name).unwrap().unwrap().file_name, name);
    assert_eq!(persist_dictionary(&connection, "1.1.1.1", name), Ok(true));
    assert_eq!(load_registry(&connection).unwrap().len(), 1);
}

#[test]
fn the_database_refuses_a_second_row_for_a_file() {
    let connection = Connection::open_in_memory().unwrap();
    announce_upload(&connection, "p", "x").unwrap();
    let second = connection.execute(
        "INSERT INTO file_pointers (ip, fileName, dictionaryInPlace, encodedTextInPlace) VALUES ('p', 'x', 'FALSE', 'FALSE')",
        [],
    );
    assert!(second.is_err());
}

#[test]
fn a_table_with_a_bad_flag_is_refused() {
    let connection = Connection::open_in_memory().unwrap();
    ensure_schema(&connection).unwrap();
    connection
        .execute(
            "INSERT INTO file_pointers (ip, fileName, dictionaryInPlace, encodedTextInPlace) VALUES ('p', 'x', 'maybe', 'FALSE')",
            [],
        )
        .unwrap();
    assert_eq!(load_registry(&connection).err(), Some(StoreError::MalformedRow));
    assert_eq!(find_pending_dictionary(&connection, "p").err(), Some(StoreError::MalformedRow));
}

#[test]
fn a_table_of_another_shape_is_a_database_error() {
    let connection = Connection::open_in_memory().unwrap();
    connection.execute("CREATE TABLE file_pointers (id INTEGER PRIMARY KEY, ip TEXT)", []).unwrap();
    assert_eq!(load_registry(&connection).err(), Some(StoreError::Database));
    assert_eq!(announce_upload(&connection, "p", "x").err(), Some(StoreError::Database));
    assert_eq!(persist_dictionary(&connection, "p", "x"), Err(StoreError::Database));
}

#[test]
fn a_table_with_two_rows_for_a_file_is_refused() {
    let connection = Connection::open_in_memory().unwrap();
    connection
        .execute(
            "CREATE TABLE file_pointers (id INTEGER PRIMARY KEY, ip TEXT NOT NULL, fileName TEXT NOT NULL, dictionaryInPlace TEXT NOT NULL, encodedTextInPlace TEXT NOT NULL)",
            [],
        )
        .unwrap();
    for _ in 0..2 {
        connection
            .execute(
                "INSERT INTO file_pointers (ip, fileName, dictionaryInPlace, encodedTextInPlace) VALUES ('p', 'x', 'FALSE', 'FALSE')",
                [],
            )
            .unwrap();
    }
    assert_eq!(load_registry(&connection).err(), Some(StoreError::Integrity));
    assert_eq!(find_by_name(&connection, "p", "x").err(), Some(StoreError::Integrity));
    assert_eq!(persist_dictionary(&connection, "p", "x"), Err(StoreError::Integrity));
}

#[test]
fn stage_tables_are_named_by_their_network() {
    assert_eq!(stage_table_name("some_id"), Some("connectionssome_id".to_string()));
    assert_eq!(stage_table_name("Net42"), Some("connectionsNet42".to_string()));
    assert_eq!(stage_table_name(""), Some("connections".to_string()));
    assert_eq!(stage_table_name("a b"), None);
    assert_eq!(stage_table_name("x; DROP TABLE y"), None);
    assert_eq!(stage_table_name("né"), None);
    assert_eq!(stage_table_name("a-b"), None);
}

#[test]
fn a_peer_moves_through_the_stages_in_the_database() {
    let connection = Connection::open_in_memory().unwrap();
    assert_eq!(load_stage(&connection, "net", "10.0.0.1"), Ok(Stage::Idle));
    let upload = Event::Request(RequestCode::Upload);
    assert_eq!(advance_stage(&connection, "net", "10.0.0.1", upload), Ok(Stage::UploadAnnounced));
    assert_eq!(load_stage(&connection, "net", "10.0.0.1"), Ok(Stage::UploadAnnounced));
    assert_eq!(load_stage(&connection, "net", "10.0.0.2"), Ok(Stage::Idle));
    assert_eq!(load_stage(&connection, "other", "10.0.0.1"), Ok(Stage::Idle));
    let payload = Event::Payload(UploadKind::Dictionary);
    assert_eq!(advance_stage(&connection, "net", "10.0.0.1", payload), Ok(Stage::Uploading));
    assert_eq!(advance_stage(&connection, "net", "10.0.0.1", upload), Ok(Stage::Uploading));
    let leave = Event::Request(RequestCode::Leave);
    assert_eq!(advance_stage(&connection, "net", "10.0.0.1", leave), Ok(Stage::UploadComplete));
    assert_eq!(advance_stage(&connection, "net", "10.0.0.1", Event::Reset), Ok(Stage::Idle));
    assert_eq!(load_stage(&connection, "net", "10.0.0.1"), Ok(Stage::Idle));
    let rows: i64 = connection
        .query_row("SELECT COUNT(*) FROM connectionsnet WHERE ip = '10.0.0.1'", [], |row| row.get(0))
        .unwrap();
    assert_eq!(rows, 1);
}

#[test]
fn an_event_that_does_not_fit_writes_nothing() {
    let connection = Connection::open_in_memory().unwrap();
    let leave = Event::Request(RequestCode::Leave);
    assert_eq!(advance_stage(&connection, "net", "10.0.0.1", leave), Ok(Stage::Idle));
    let rows: i64 = connection.query_row("SELECT COUNT(*) FROM connectionsnet", [], |row| row.get(0)).unwrap();
    assert_eq!(rows, 0);
}

#[test]
fn a_network_that_is_no_name_is_refused() {
    let connection = Connection::open_in_memory().unwrap();
    let upload = Event::Request(RequestCode::Upload);
    assert_eq!(advance_stage(&connection, "n t", "10.0.0.1", upload), Err(StoreError::InvalidNetwork));
    assert_eq!(load_stage(&connection, "x;y", "10.0.0.1"), Err(StoreError::InvalidNetwork));
}

#[test]
fn a_stage_row_that_is_no_code_is_refused() {
    let connection = Connection::open_in_memory().unwrap();
    load_stage(&connection, "net", "p").unwrap();
    connection.execute("INSERT INTO connectionsnet (ip, stage) VALUES ('p', 'what')", []).unwrap();
    assert_eq!(load_stage(&connection, "net", "p"), Err(StoreError::MalformedRow));
    assert_eq!(advance_stage(&connection, "net", "p", Event::Reset), Err(StoreError::MalformedRow));
    let rows: i64 = connection.query_row("SELECT COUNT(*) FROM connectionsnet", [], |row| row.get(0)).unwrap();
    assert_eq!(rows, 1);
    assert!(connection.is_autocommit());
}

#[test]
fn statements_bind_what_a_peer_sends() {
    let insert = insert_pointer("10.0.0.1", "a'b");
    assert_eq!(
        insert.sql,
        "INSERT INTO file_pointers (ip, fileName, dictionaryInPlace, encodedTextInPlace) VALUES (?1, ?2, 'FALSE', 'FALSE')"
    );
    assert_eq!(insert.params, vec!["10.0.0.1", "a'b"]);
    assert_eq!(insert.width, 0);
    let dictionary = set_dictionary_flag("p", "x");
    assert_eq!(
        dictionary.sql,
        "UPDATE file_pointers SET dictionaryInPlace = 'TRUE' WHERE ip = ?1 AND fileName = ?2"
    );
    assert_eq!(dictionary.params, vec!["p", "x"]);
    let encoded = set_encoded_flag("p", "x");
    assert_eq!(
        encoded.sql,
        "UPDATE file_pointers SET encodedTextInPlace = 'TRUE' WHERE ip = ?1 AND fileName = ?2"
    );
    assert_eq!(encoded.params, vec!["p", "x"]);
    let select = select_pointers();
    assert_eq!(select.width, 5);
    assert!(select.params.is_empty());
    assert!(select.sql.ends_with("FROM file_pointers ORDER BY id"));
    assert!(create_pointer_table().sql.contains("UNIQUE (ip, fileName)"));
    assert_eq!(begin().sql, "BEGIN IMMEDIATE");
    assert_eq!(commit().sql, "COMMIT");
    assert_eq!(rollback().sql, "ROLLBACK");
}

#[test]
fn stage_statements_name_their_table() {
    assert_eq!(
        create_stage_table("connectionsnet").sql,
        "CREATE TABLE IF NOT EXISTS connectionsnet (ip TEXT NOT NULL PRIMARY KEY, stage TEXT NOT NULL)"
    );
    let select = select_stage("connectionsnet", "10.0.0.1");
    assert_eq!(select.sql, "SELECT stage FROM connectionsnet WHERE ip = ?1");
    assert_eq!(select.params, vec!["10.0.0.1"]);
    assert_eq!(select.width, 1);
    let insert = insert_stage("connectionsnet", "10.0.0.1", Stage::UploadAnnounced);
    assert_eq!(insert.sql, "INSERT INTO connectionsnet (ip, stage) VALUES (?1, ?2)");
    assert_eq!(insert.params, vec!["10.0.0.1", "0011"]);
    let update = update_stage("connectionsnet", "10.0.0.1", Stage::Idle);
    assert_eq!(update.sql, "UPDATE connectionsnet SET stage = ?2 WHERE ip = ?1");
    assert_eq!(update.params, vec!["10.0.0.1", "0000"]);
}

#[test]
fn a_stage_is_written_only_where_it_changes() {
    let upload = Event::Request(RequestCode::Upload);
    let first = plan_stage_write(&Vec::new(), upload).unwrap();
    assert_eq!(first.0, Stage::UploadAnnounced);
    assert!(matches!(first.1, StageWrite::Insert));
    let kept = plan_stage_write(&Vec::new(), Event::Reset).unwrap();
    assert_eq!(kept.0, Stage::Idle);
    assert!(matches!(kept.1, StageWrite::Keep));
    let changed = plan_stage_write(&vec![row(&["0011"])], Event::Payload(UploadKind::EncodedData)).unwrap();
    assert_eq!(changed.0, Stage::Uploading);
    assert!(matches!(changed.1, StageWrite::Update));
    let same = plan_stage_write(&vec![row(&["0011"])], upload).unwrap();
    assert_eq!(same.0, Stage::UploadAnnounced);
    assert!(matches!(same.1, StageWrite::Keep));
    assert_eq!(plan_stage_write(&vec![row(&["zz"])], upload).err(), Some(StoreError::MalformedRow));
    assert_eq!(
        plan_stage_write(&vec![row(&["0011"]), row(&["0000"])], upload).err(),
        Some(StoreError::Integrity)
    );
    assert!(stage_statement(StageWrite::Keep, "t", "p", Stage::Idle).is_none());
    assert_eq!(
        stage_statement(StageWrite::Insert, "t", "p", Stage::Uploading).unwrap().sql,
        "INSERT INTO t (ip, stage) VALUES (?1, ?2)"
    );
    let update = stage_statement(StageWrite::Update, "t", "p", Stage::Uploading).unwrap();
    assert_eq!(update.sql, "UPDATE t SET stage = ?2 WHERE ip = ?1");
    assert_eq!(update.params, vec!["p", "0010"]);
}

#[test]
fn a_message_is_planned_on_the_stage_of_the_rows() {
    let (decision, write) = plan_message(&Vec::new(), Channel::Control, &[0, 0, 0, 3]).unwrap().unwrap();
    assert_eq!(decision.route, Route::StageTransition);
    assert_eq!(decision.stage, Stage::UploadAnnounced);
    assert!(matches!(write, StageWrite::Insert));
    let announced = vec![row(&["0011"])];
    let (decision, write) = plan_message(&announced, Channel::Upload, &[1, 9]).unwrap().unwrap();
    assert_eq!(decision.route, Route::DictionaryUpload);
    assert_eq!(decision.stage, Stage::Uploading);
    assert!(matches!(write, StageWrite::Update));
    let (decision, write) = plan_message(&announced, Channel::Control, &[0, 0, 0, 1]).unwrap().unwrap();
    assert_eq!(decision.route, Route::Ignore);
    assert_eq!(decision.stage, Stage::UploadAnnounced);
    assert!(matches!(write, StageWrite::Keep));
    assert_eq!(
        plan_message(&announced, Channel::Control, &[0, 0]).unwrap().err(),
        Some(ProtocolError::ShortHeader)
    );
    assert_eq!(
        plan_message(&vec![row(&["zz"])], Channel::Control, &[0, 0, 0, 3]).err(),
        Some(StoreError::MalformedRow)
    );
}

#[test]
fn a_message_is_taken_in_the_database() {
    let connection = Connection::open_in_memory().unwrap();
    let decision = take_message(&connection, "net", "10.0.0.1", Channel::Control, &[0, 0, 0, 3]).unwrap();
    assert_eq!(decision.header, Header::Request(RequestCode::Upload));
    assert_eq!(decision.route, Route::StageTransition);
    assert_eq!(decision.stage, Stage::UploadAnnounced);
    assert_eq!(load_stage(&connection, "net", "10.0.0.1"), Ok(Stage::UploadAnnounced));
    let decision = take_message(&connection, "net", "10.0.0.1", Channel::Upload, &[0, 1, 2]).unwrap();
    assert_eq!(decision.route, Route::DataUpload);
    assert_eq!(load_stage(&connection, "net", "10.0.0.1"), Ok(Stage::Uploading));
    let ignored = take_message(&connection, "net", "10.0.0.1", Channel::Control, &[0, 0, 0, 1]).unwrap();
    assert_eq!(ignored.route, Route::Ignore);
    assert_eq!(load_stage(&connection, "net", "10.0.0.1"), Ok(Stage::Uploading));
    assert_eq!(
        take_message(&connection, "net", "10.0.0.1", Channel::Control, &[0, 0, 0, 9]),
        Err(MessageError::Protocol(ProtocolError::UnknownCode(9)))
    );
    assert_eq!(load_stage(&connection, "net", "10.0.0.1"), Ok(Stage::Uploading));
    assert!(connection.is_autocommit());
    assert_eq!(
        take_message(&connection, "n t", "10.0.0.1", Channel::Control, &[0, 0, 0, 3]),
        Err(MessageError::Store(StoreError::InvalidNetwork))
    );
    let other = take_message(&connection, "net", "10.0.0.2", Channel::Control, &[0, 0, 0, 1]).unwrap();
    assert_eq!(other.route, Route::Download);
    assert_eq!(load_stage(&connection, "net", "10.0.0.2"), Ok(Stage::DownloadRequested));
}

use dstorage::dispatch::{
    declined_message, dispatch, download_reply, follow_up, not_in_network_message, not_ready_message,
    parse_header, parse_request, parse_upload, request_payload, route, upload_targets, Channel, Dispatch,
    DownloadReply, Header, ProtocolError, Route, Step,
};
use dstorage::registry::{FilePointer, PointerRegistry};
use dstorage::stage::{Event, RequestCode, Stage, UploadKind};

#[test]
fn a_request_code_is_four_bytes_big_endian() {
    assert_eq!(parse_request(&[0, 0, 0, 0b0011]), Ok(RequestCode::Upload));
    assert_eq!(parse_request(&[0, 0, 0, 1, 9, 9]), Ok(RequestCode::Download));
    assert_eq!(parse_request(&[0, 0, 0, 0b0111]), Ok(RequestCode::Leave));
    assert_eq!(parse_request(&[0, 0, 0, 0b1111]), Ok(RequestCode::Join));
    assert_eq!(parse_request(&[3, 0, 0, 0]), Err(ProtocolError::UnknownCode(0x0300_0000)));
    assert_eq!(parse_request(&[1, 2, 3, 4]), Err(ProtocolError::UnknownCode(0x0102_0304)));
    assert_eq!(parse_request(&[255, 255, 255, 255]), Err(ProtocolError::UnknownCode(u32::MAX)));
}

#[test]
fn a_short_header_is_refused() {
    assert_eq!(parse_request(&[]), Err(ProtocolError::ShortHeader));
    assert_eq!(parse_request(&[0, 0, 3]), Err(ProtocolError::ShortHeader));
    assert_eq!(parse_upload(&[]), Err(ProtocolError::ShortHeader));
    assert_eq!(parse_header(Channel::Upload, &[]), Err(ProtocolError::ShortHeader));
    assert_eq!(parse_header(Channel::Control, &[1]), Err(ProtocolError::ShortHeader));
}

#[test]
fn an_upload_message_is_a_control_byte_and_a_payload() {
    assert_eq!(parse_upload(&[1, 7, 8, 9]), Ok((UploadKind::Dictionary, vec![7, 8, 9])));
    assert_eq!(parse_upload(&[0, 7]), Ok((UploadKind::EncodedData, vec![7])));
    assert_eq!(parse_upload(&[0]), Ok((UploadKind::EncodedData, vec![])));
    assert_eq!(parse_upload(&[2, 7]), Err(ProtocolError::UnknownControl(2)));
}

#[test]
fn the_channel_decides_how_a_header_is_read() {
    let message = [0, 0, 0, 1];
    assert_eq!(parse_header(Channel::Control, &message), Ok(Header::Request(RequestCode::Download)));
    assert_eq!(parse_header(Channel::Upload, &message), Ok(Header::Upload(UploadKind::EncodedData)));
    assert_eq!(parse_header(Channel::Upload, &[1]), Ok(Header::Upload(UploadKind::Dictionary)));
    assert_eq!(parse_header(Channel::Upload, &[3, 0, 0, 0]), Err(ProtocolError::UnknownControl(3)));
}

#[test]
fn messages_go_to_their_handlers() {
    let dictionary = Header::Upload(UploadKind::Dictionary);
    let data = Header::Upload(UploadKind::EncodedData);
    assert_eq!(route(Stage::UploadAnnounced, dictionary), Route::DictionaryUpload);
    assert_eq!(route(Stage::Uploading, dictionary), Route::DictionaryUpload);
    assert_eq!(route(Stage::UploadAnnounced, data), Route::DataUpload);
    assert_eq!(route(Stage::Uploading, data), Route::DataUpload);
    assert_eq!(route(Stage::Idle, data), Route::Ignore);
    assert_eq!(route(Stage::UploadComplete, dictionary), Route::Ignore);
    assert_eq!(route(Stage::DownloadRequested, dictionary), Route::Ignore);
    assert_eq!(route(Stage::Idle, Header::Request(RequestCode::Download)), Route::Download);
    assert_eq!(route(Stage::Uploading, Header::Request(RequestCode::Download)), Route::Ignore);
    assert_eq!(route(Stage::Idle, Header::Request(RequestCode::Upload)), Route::StageTransition);
    assert_eq!(route(Stage::Uploading, Header::Request(RequestCode::Leave)), Route::StageTransition);
    assert_eq!(route(Stage::Idle, Header::Request(RequestCode::Leave)), Route::Ignore);
    assert_eq!(route(Stage::Idle, Header::Request(RequestCode::Join)), Route::Ignore);
    assert_eq!(route(Stage::UploadAnnounced, Header::Request(RequestCode::Upload)), Route::Ignore);
}

#[test]
fn the_dispatcher_gives_handler_and_next_stage() {
    assert_eq!(
        dispatch(Channel::Control, Stage::Idle, &[0, 0, 0, 3]),
        Ok(Dispatch { header: Header::Request(RequestCode::Upload), route: Route::StageTransition, stage: Stage::UploadAnnounced })
    );
    assert_eq!(
        dispatch(Channel::Upload, Stage::UploadAnnounced, &[1, 42]),
        Ok(Dispatch { header: Header::Upload(UploadKind::Dictionary), route: Route::DictionaryUpload, stage: Stage::Uploading })
    );
    assert_eq!(
        dispatch(Channel::Upload, Stage::Uploading, &[0, 42]),
        Ok(Dispatch { header: Header::Upload(UploadKind::EncodedData), route: Route::DataUpload, stage: Stage::Uploading })
    );
    assert_eq!(
        dispatch(Channel::Control, Stage::Uploading, &[0, 0, 0, 7]),
        Ok(Dispatch { header: Header::Request(RequestCode::Leave), route: Route::StageTransition, stage: Stage::UploadComplete })
    );
    assert_eq!(
        dispatch(Channel::Control, Stage::Idle, &[0, 0, 0, 1]),
        Ok(Dispatch { header: Header::Request(RequestCode::Download), route: Route::Download, stage: Stage::DownloadRequested })
    );
    assert_eq!(
        dispatch(Channel::Upload, Stage::Idle, &[1, 42]),
        Ok(Dispatch { header: Header::Upload(UploadKind::Dictionary), route: Route::Ignore, stage: Stage::Idle })
    );
    assert_eq!(
        dispatch(Channel::Control, Stage::UploadComplete, &[0, 0, 0, 15]),
        Ok(Dispatch { header: Header::Request(RequestCode::Join), route: Route::Ignore, stage: Stage::UploadComplete })
    );
    assert_eq!(dispatch(Channel::Control, Stage::Idle, &[0, 0, 0, 2]), Err(ProtocolError::UnknownCode(2)));
    assert_eq!(dispatch(Channel::Control, Stage::Idle, &[0, 3]), Err(ProtocolError::ShortHeader));
    assert_eq!(dispatch(Channel::Upload, Stage::Uploading, &[9]), Err(ProtocolError::UnknownControl(9)));
}

#[test]
fn a_header_is_an_event_for_the_state_machine() {
    assert_eq!(Header::Request(RequestCode::Leave).event(), Event::Request(RequestCode::Leave));
    assert_eq!(Header::Upload(UploadKind::Dictionary).event(), Event::Payload(UploadKind::Dictionary));
}

#[test]
fn the_name_of_the_file_follows_the_code() {
    assert_eq!(request_payload(&[0, 0, 0, 3, b'a', b'.', b't']), vec![b'a', b'.', b't']);
    assert_eq!(request_payload(&[0, 0, 0, 3]), Vec::<u8>::new());
    assert_eq!(request_payload(&[0, 0, 3]), Vec::<u8>::new());
    assert_eq!(request_payload(&[]), Vec::<u8>::new());
}

#[test]
fn what_is_left_to_do_follows_from_the_decision() {
    let after = |channel, stage, message: &[u8]| follow_up(dispatch(channel, stage, message).unwrap());
    assert_eq!(after(Channel::Control, Stage::Idle, &[0, 0, 0, 3]), vec![Step::RecordFile]);
    assert_eq!(after(Channel::Control, Stage::Uploading, &[0, 0, 0, 7]), vec![Step::Reset]);
    assert_eq!(after(Channel::Control, Stage::Idle, &[0, 0, 0, 1]), vec![Step::Serve, Step::Reset]);
    assert_eq!(after(Channel::Upload, Stage::UploadAnnounced, &[1, 5]), vec![Step::StoreDictionary]);
    assert_eq!(after(Channel::Upload, Stage::Uploading, &[0, 5]), vec![Step::StoreEncoded]);
    assert_eq!(after(Channel::Upload, Stage::Idle, &[0, 5]), Vec::<Step>::new());
    assert_eq!(after(Channel::Control, Stage::Idle, &[0, 0, 0, 7]), Vec::<Step>::new());
    assert_eq!(after(Channel::Control, Stage::Idle, &[0, 0, 0, 15]), Vec::<Step>::new());
    assert_eq!(after(Channel::Control, Stage::Uploading, &[0, 0, 0, 3]), Vec::<Step>::new());
}

#[test]
fn an_upload_is_stored_for_the_files_that_wait_for_it() {
    let mut registry = PointerRegistry::new();
    registry.announce("p", "one").unwrap();
    registry.announce("p", "two").unwrap();
    registry.announce("q", "one").unwrap();
    registry.mark_dictionary_stored("p", "one");
    let names = |targets: Vec<FilePointer>| targets.into_iter().map(|t| t.file_name).collect::<Vec<_>>();
    assert_eq!(names(upload_targets(&registry, "p", UploadKind::Dictionary)), vec!["two"]);
    assert_eq!(names(upload_targets(&registry, "p", UploadKind::EncodedData)), vec!["one", "two"]);
    assert!(upload_targets(&registry, "r", UploadKind::EncodedData).is_empty());
}

#[test]
fn a_download_is_served_declined_or_put_off() {
    assert!(matches!(download_reply(&None), DownloadReply::Declined));
    let mut pointer = FilePointer::new(1, "10.1.1.1".to_string(), "book".to_string());
    assert!(matches!(download_reply(&Some(pointer.duplicate())), DownloadReply::NotReady));
    pointer.dictionary_in_place = true;
    assert!(matches!(download_reply(&Some(pointer.duplicate())), DownloadReply::NotReady));
    pointer.encoded_text_in_place = true;
    match download_reply(&Some(pointer)) {
        DownloadReply::SendEncoded { path } => assert_eq!(path, "10.1.1.1/book_encoded_text.txt"),
        _ => panic!("a stored file was not served"),
    }
}

#[test]
fn the_answers_to_a_peer_have_their_texts() {
    assert_eq!(not_ready_message(), "Encoded text not available yet");
    assert_eq!(declined_message("book", "10.1.1.1"), "Declined: No file 'book' found for IP 10.1.1.1");
    assert_eq!(not_in_network_message(), "Declined: not part of network");
}

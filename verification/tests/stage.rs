use dstorage::stage::{
    Event, RequestCode, Stage, UploadKind, DOWNLOAD_CODE, JOIN_CODE, LEAVE_CODE, UPLOAD_CODE,
};

const STAGES: [Stage; 5] = [
    Stage::Idle,
    Stage::UploadAnnounced,
    Stage::Uploading,
    Stage::UploadComplete,
    Stage::DownloadRequested,
];

#[test]
fn an_upload_code_announces_an_upload() {
    assert_eq!(Stage::Idle.on_code(0b0011), Stage::UploadAnnounced);
    assert_eq!(Stage::Idle.on_code(UPLOAD_CODE), Stage::UploadAnnounced);
}

#[test]
fn an_unrecognized_code_changes_nothing() {
    for stage in STAGES {
        for code in [0, 2, 4, 0b1011, 16, 0x0300_0000, u32::MAX] {
            assert_eq!(stage.on_code(code), stage);
        }
    }
}

#[test]
fn an_upload_runs_through_its_stages() {
    let mut stage = Stage::Idle;
    stage = stage.next(Event::Request(RequestCode::Upload));
    assert_eq!(stage, Stage::UploadAnnounced);
    stage = stage.next(Event::Payload(UploadKind::Dictionary));
    assert_eq!(stage, Stage::Uploading);
    stage = stage.next(Event::Payload(UploadKind::EncodedData));
    assert_eq!(stage, Stage::Uploading);
    stage = stage.on_code(LEAVE_CODE);
    assert_eq!(stage, Stage::UploadComplete);
    stage = stage.next(Event::Reset);
    assert_eq!(stage, Stage::Idle);
}

#[test]
fn a_download_is_requested_and_reset() {
    let stage = Stage::Idle.on_code(DOWNLOAD_CODE);
    assert_eq!(stage, Stage::DownloadRequested);
    assert_eq!(stage.next(Event::Reset), Stage::Idle);
}

#[test]
fn events_that_do_not_fit_the_stage_change_nothing() {
    assert_eq!(Stage::Idle.next(Event::Payload(UploadKind::Dictionary)), Stage::Idle);
    assert_eq!(Stage::Idle.next(Event::Reset), Stage::Idle);
    assert_eq!(Stage::Idle.on_code(LEAVE_CODE), Stage::Idle);
    assert_eq!(Stage::Idle.on_code(JOIN_CODE), Stage::Idle);
    assert_eq!(Stage::UploadAnnounced.on_code(UPLOAD_CODE), Stage::UploadAnnounced);
    assert_eq!(Stage::UploadAnnounced.on_code(DOWNLOAD_CODE), Stage::UploadAnnounced);
    assert_eq!(Stage::UploadAnnounced.on_code(LEAVE_CODE), Stage::UploadAnnounced);
    assert_eq!(Stage::Uploading.next(Event::Reset), Stage::Uploading);
    assert_eq!(Stage::Uploading.on_code(DOWNLOAD_CODE), Stage::Uploading);
    assert_eq!(Stage::UploadComplete.on_code(UPLOAD_CODE), Stage::UploadComplete);
    assert_eq!(Stage::DownloadRequested.on_code(UPLOAD_CODE), Stage::DownloadRequested);
    assert_eq!(
        Stage::DownloadRequested.next(Event::Payload(UploadKind::EncodedData)),
        Stage::DownloadRequested
    );
}

#[test]
fn wire_codes_are_read_and_written() {
    assert_eq!(RequestCode::from_wire(0b1111), Some(RequestCode::Join));
    assert_eq!(RequestCode::from_wire(0b0111), Some(RequestCode::Leave));
    assert_eq!(RequestCode::from_wire(0b0011), Some(RequestCode::Upload));
    assert_eq!(RequestCode::from_wire(0b0001), Some(RequestCode::Download));
    assert_eq!(RequestCode::from_wire(0), None);
    assert_eq!(RequestCode::from_wire(5), None);
    for request in [RequestCode::Join, RequestCode::Leave, RequestCode::Upload, RequestCode::Download] {
        assert_eq!(RequestCode::from_wire(request.wire()), Some(request));
    }
}

#[test]
fn control_bytes_are_read_and_written() {
    assert_eq!(UploadKind::from_control(1), Some(UploadKind::Dictionary));
    assert_eq!(UploadKind::from_control(0), Some(UploadKind::EncodedData));
    assert_eq!(UploadKind::from_control(2), None);
    assert_eq!(UploadKind::from_control(255), None);
    assert_eq!(UploadKind::Dictionary.control(), 1);
    assert_eq!(UploadKind::EncodedData.control(), 0);
}

#[test]
fn stage_codes_are_read_and_written() {
    assert_eq!(Stage::Idle.code(), "0000");
    assert_eq!(Stage::UploadAnnounced.code(), "0011");
    assert_eq!(Stage::UploadComplete.code(), "0111");
    assert_eq!(Stage::DownloadRequested.code(), "0001");
    for stage in STAGES {
        assert_eq!(stage.code().chars().count(), 4);
        assert_eq!(Stage::from_code(stage.code()), Some(stage));
    }
    assert_eq!(Stage::from_code("0011"), Some(Stage::UploadAnnounced));
    assert_eq!(Stage::from_code("1111"), None);
    assert_eq!(Stage::from_code("011"), None);
    assert_eq!(Stage::from_code(""), None);
}

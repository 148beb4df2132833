use vstd::prelude::*;

verus! {

/// How far a peer has come in the upload or download protocol.
#[derive(Clone, Copy, Debug, PartialEq, Eq, Structural)]
pub enum Stage {
    /// Nothing is going on.
    Idle,
    /// The peer has announced an upload.
    UploadAnnounced,
    /// A dictionary or encoded data of the upload has arrived.
    Uploading,
    /// The peer has finished the upload.
    UploadComplete,
    /// The peer has asked for a download.
    DownloadRequested,
}

/// The codes of the stage-transition messages.
#[derive(Clone, Copy, Debug, PartialEq, Eq, Structural)]
pub enum RequestCode {
    Join,
    /// The peer leaves what it has begun: this ends an upload.
    Leave,
    /// The peer announces an upload.
    Upload,
    /// The peer asks for a download.
    Download,
}

/// What an upload message carries.
#[derive(Clone, Copy, Debug, PartialEq, Eq, Structural)]
pub enum UploadKind {
    Dictionary,
    EncodedData,
}

/// What can move a peer from one stage to the next.
#[derive(Clone, Copy, Debug, PartialEq, Eq, Structural)]
pub enum Event {
    /// A stage-transition message with this code.
    Request(RequestCode),
    /// An upload message with this payload.
    Payload(UploadKind),
    /// The request is over: the download was served or declined, or the
    /// finished upload was put away.
    Reset,
}

pub const JOIN_CODE: u32 = 0b1111;

pub const LEAVE_CODE: u32 = 0b0111;

pub const UPLOAD_CODE: u32 = 0b0011;

pub const DOWNLOAD_CODE: u32 = 0b0001;

/// The request that a wire code stands for, if it stands for one.
pub open spec fn request_of(code: u32) -> Option<RequestCode> {
    if code == JOIN_CODE {
        Some(RequestCode::Join)
    } else if code == LEAVE_CODE {
        Some(RequestCode::Leave)
    } else if code == UPLOAD_CODE {
        Some(RequestCode::Upload)
    } else if code == DOWNLOAD_CODE {
        Some(RequestCode::Download)
    } else {
        None
    }
}

/// The payload that the control byte of an upload message announces: 1 a
/// dictionary, 0 encoded data.
pub open spec fn upload_kind_of(control: u8) -> Option<UploadKind> {
    if control == 1 {
        Some(UploadKind::Dictionary)
    } else if control == 0 {
        Some(UploadKind::EncodedData)
    } else {
        None
    }
}

/// The stage after an event. An upload announcement moves an idle peer on,
/// a payload an announced upload, a leave a running upload; a download
/// request moves an idle peer on; a reset brings a finished upload or a
/// download request back to idle. Any other event changes nothing.
pub open spec fn next_stage(stage: Stage, event: Event) -> Stage {
    match (stage, event) {
        (Stage::Idle, Event::Request(RequestCode::Upload)) => Stage::UploadAnnounced,
        (Stage::UploadAnnounced, Event::Payload(_)) => Stage::Uploading,
        (Stage::Uploading, Event::Request(RequestCode::Leave)) => Stage::UploadComplete,
        (Stage::UploadComplete, Event::Reset) => Stage::Idle,
        (Stage::Idle, Event::Request(RequestCode::Download)) => Stage::DownloadRequested,
        (Stage::DownloadRequested, Event::Reset) => Stage::Idle,
        _ => stage,
    }
}

/// The stage after a stage-transition message with the given wire code: that
/// after the request it stands for, and the same stage for any other code.
pub open spec fn stage_after_code(stage: Stage, code: u32) -> Stage {
    match request_of(code) {
        Some(request) => next_stage(stage, Event::Request(request)),
        None => stage,
    }
}

/// The four characters that stand for a stage in a stage table.
pub open spec fn stage_code(stage: Stage) -> Seq<char> {
    match stage {
        Stage::Idle => "0000"@,
        Stage::UploadAnnounced => "0011"@,
        Stage::Uploading => "0010"@,
        Stage::UploadComplete => "0111"@,
        Stage::DownloadRequested => "0001"@,
    }
}

/// The stage that a text of a stage table stands for, if it stands for one.
pub open spec fn stage_of_code(text: Seq<char>) -> Option<Stage> {
    if text == stage_code(Stage::Idle) {
        Some(Stage::Idle)
    } else if text == stage_code(Stage::UploadAnnounced) {
        Some(Stage::UploadAnnounced)
    } else if text == stage_code(Stage::Uploading) {
        Some(Stage::Uploading)
    } else if text == stage_code(Stage::UploadComplete) {
        Some(Stage::UploadComplete)
    } else if text == stage_code(Stage::DownloadRequested) {
        Some(Stage::DownloadRequested)
    } else {
        None
    }
}

/// Each stage has a code of its own, so that a code leads back to its stage.
pub proof fn lemma_stage_code_round_trip(stage: Stage)
    ensures
        stage_of_code(stage_code(stage)) == Some(stage),
        stage_code(stage).len() == 4,
{
    reveal_strlit("0000");
    reveal_strlit("0011");
    reveal_strlit("0010");
    reveal_strlit("0111");
    reveal_strlit("0001");
    assert("0000"@[2] != "0011"@[2] && "0000"@[2] != "0010"@[2] && "0000"@[1] != "0111"@[1] && "0000"@[3] != "0001"@[3]);
    assert("0011"@[3] != "0010"@[3] && "0011"@[1] != "0111"@[1] && "0011"@[2] != "0001"@[2]);
}

impl RequestCode {
    /// Reads a wire code.
    pub fn from_wire(code: u32) -> (request: Option<RequestCode>)
        ensures
            request == request_of(code),
    {
        if code == JOIN_CODE {
            Some(RequestCode::Join)
        } else if code == LEAVE_CODE {
            Some(RequestCode::Leave)
        } else if code == UPLOAD_CODE {
            Some(RequestCode::Upload)
        } else if code == DOWNLOAD_CODE {
            Some(RequestCode::Download)
        } else {
            None
        }
    }

    /// The wire code of the request.
    pub fn wire(self) -> (code: u32)
        ensures
            request_of(code) == Some(self),
    {
        match self {
            RequestCode::Join => JOIN_CODE,
            RequestCode::Leave => LEAVE_CODE,
            RequestCode::Upload => UPLOAD_CODE,
            RequestCode::Download => DOWNLOAD_CODE,
        }
    }
}

impl UploadKind {
    /// Reads the control byte of an upload message.
    pub fn from_control(control: u8) -> (kind: Option<UploadKind>)
        ensures
            kind == upload_kind_of(control),
    {
        if control == 1 {
            Some(UploadKind::Dictionary)
        } else if control == 0 {
            Some(UploadKind::EncodedData)
        } else {
            None
        }
    }

    /// The control byte that announces the payload.
    pub fn control(self) -> (byte: u8)
        ensures
            upload_kind_of(byte) == Some(self),
    {
        match self {
            UploadKind::Dictionary => 1,
            UploadKind::EncodedData => 0,
        }
    }
}

impl Stage {
    /// The code that stands for the stage in a stage table.
    pub fn code(self) -> (text: &'static str)
        ensures
            text@ == stage_code(self),
    {
        match self {
            Stage::Idle => "0000",
            Stage::UploadAnnounced => "0011",
            Stage::Uploading => "0010",
            Stage::UploadComplete => "0111",
            Stage::DownloadRequested => "0001",
        }
    }

    /// Reads the code of a stage table; a text that is no code gives none.
    pub fn from_code(text: &str) -> (stage: Option<Stage>)
        ensures
            stage == stage_of_code(text@),
    {
        if text.eq("0000") {
            Some(Stage::Idle)
        } else if text.eq("0011") {
            Some(Stage::UploadAnnounced)
        } else if text.eq("0010") {
            Some(Stage::Uploading)
        } else if text.eq("0111") {
            Some(Stage::UploadComplete)
        } else if text.eq("0001") {
            Some(Stage::DownloadRequested)
        } else {
            None
        }
    }

    /// The stage after an event.
    pub fn next(self, event: Event) -> (stage: Stage)
        ensures
            stage == next_stage(self, event),
    {
        match (self, event) {
            (Stage::Idle, Event::Request(RequestCode::Upload)) => Stage::UploadAnnounced,
            (Stage::UploadAnnounced, Event::Payload(_)) => Stage::Uploading,
            (Stage::Uploading, Event::Request(RequestCode::Leave)) => Stage::UploadComplete,
            (Stage::UploadComplete, Event::Reset) => Stage::Idle,
            (Stage::Idle, Event::Request(RequestCode::Download)) => Stage::DownloadRequested,
            (Stage::DownloadRequested, Event::Reset) => Stage::Idle,
            _ => self,
        }
    }

    /// The stage after a stage-transition message with the given wire code.
    /// A code that stands for no request changes nothing.
    pub fn on_code(self, code: u32) -> (stage: Stage)
        ensures
            stage == stage_after_code(self, code),
            request_of(code) is None ==> stage == self,
            self == Stage::Idle && code == UPLOAD_CODE ==> stage == Stage::UploadAnnounced,
    {
        match RequestCode::from_wire(code) {
            Some(request) => self.next(Event::Request(request)),
            None => self,
        }
    }
}

/// State machine: the transitions out of each stage.
pub proof fn lemma_transitions()
    ensures
        next_stage(Stage::Idle, Event::Request(RequestCode::Upload)) == Stage::UploadAnnounced,
        forall|kind: UploadKind| next_stage(Stage::UploadAnnounced, Event::Payload(kind)) == Stage::Uploading,
        next_stage(Stage::Uploading, Event::Request(RequestCode::Leave)) == Stage::UploadComplete,
        next_stage(Stage::UploadComplete, Event::Reset) == Stage::Idle,
        next_stage(Stage::Idle, Event::Request(RequestCode::Download)) == Stage::DownloadRequested,
        next_stage(Stage::DownloadRequested, Event::Reset) == Stage::Idle,
{
}

/// State machine: from `Idle` the upload code leads to `UploadAnnounced`,
/// and a code that stands for no request leaves every stage as it is.
pub proof fn lemma_codes(stage: Stage, code: u32)
    ensures
        stage_after_code(Stage::Idle, UPLOAD_CODE) == Stage::UploadAnnounced,
        code != JOIN_CODE && code != LEAVE_CODE && code != UPLOAD_CODE && code != DOWNLOAD_CODE
            ==> stage_after_code(stage, code) == stage,
{
}

/// State machine: an event either leaves the stage or takes one of the six
/// steps of the protocol.
pub proof fn lemma_only_protocol_steps(stage: Stage, event: Event)
    ensures
        next_stage(stage, event) == stage || {
            ||| stage == Stage::Idle && next_stage(stage, event) == Stage::UploadAnnounced
            ||| stage == Stage::UploadAnnounced && next_stage(stage, event) == Stage::Uploading
            ||| stage == Stage::Uploading && next_stage(stage, event) == Stage::UploadComplete
            ||| stage == Stage::UploadComplete && next_stage(stage, event) == Stage::Idle
            ||| stage == Stage::Idle && next_stage(stage, event) == Stage::DownloadRequested
            ||| stage == Stage::DownloadRequested && next_stage(stage, event) == Stage::Idle
        },
{
}

} // verus!

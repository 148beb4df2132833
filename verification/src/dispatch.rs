use vstd::prelude::*;
use vstd::string::StringExecFns;
use crate::paths::{artifact_path, encoded_text_suffix};
use crate::registry::{
    pending_dictionary, pending_encoded, records_of, FilePointer, PointerRecord, PointerRegistry,
};
use crate::stage::{next_stage, request_of, upload_kind_of, Event, RequestCode, Stage, UploadKind};

verus! {

/// The endpoint that accepted a connection. It decides how the first bytes
/// of a message are read: their value alone does not.
#[derive(Clone, Copy, Debug, PartialEq, Eq, Structural)]
pub enum Channel {
    /// Stage-transition messages: a code of four bytes.
    Control,
    /// Upload messages: one control byte, then the payload.
    Upload,
}

/// A message was refused.
#[derive(Clone, Copy, Debug, PartialEq, Eq, Structural)]
pub enum ProtocolError {
    /// The message is shorter than its header.
    ShortHeader,
    /// The four bytes of the header are no request code.
    UnknownCode(u32),
    /// The control byte announces no payload.
    UnknownControl(u8),
}

/// The header of a message.
#[derive(Clone, Copy, Debug, PartialEq, Eq, Structural)]
pub enum Header {
    Request(RequestCode),
    Upload(UploadKind),
}

/// The handler that a message goes to.
#[derive(Clone, Copy, Debug, PartialEq, Eq, Structural)]
pub enum Route {
    DictionaryUpload,
    DataUpload,
    Download,
    StageTransition,
    /// The message is not valid at this stage and changes nothing.
    Ignore,
}

/// The number that the first four bytes of a message spell, the first byte
/// being the highest.
pub open spec fn wire_code(message: Seq<u8>) -> int
    recommends
        message.len() >= 4,
{
    message[0] as int * 0x100_0000 + message[1] as int * 0x1_0000 + message[2] as int * 0x100 + message[3] as int
}

/// What a message of the control channel holds.
pub open spec fn request_in(message: Seq<u8>) -> Result<RequestCode, ProtocolError> {
    if message.len() < 4 {
        Err(ProtocolError::ShortHeader)
    } else {
        match request_of(wire_code(message) as u32) {
            Some(request) => Ok(request),
            None => Err(ProtocolError::UnknownCode(wire_code(message) as u32)),
        }
    }
}

/// What a message of the upload channel announces.
pub open spec fn upload_in(message: Seq<u8>) -> Result<UploadKind, ProtocolError> {
    if message.len() < 1 {
        Err(ProtocolError::ShortHeader)
    } else {
        match upload_kind_of(message[0]) {
            Some(kind) => Ok(kind),
            None => Err(ProtocolError::UnknownControl(message[0])),
        }
    }
}

/// The header of a message that came in on the channel.
pub open spec fn header_in(channel: Channel, message: Seq<u8>) -> Result<Header, ProtocolError> {
    match channel {
        Channel::Control => match request_in(message) {
            Ok(request) => Ok(Header::Request(request)),
            Err(error) => Err(error),
        },
        Channel::Upload => match upload_in(message) {
            Ok(kind) => Ok(Header::Upload(kind)),
            Err(error) => Err(error),
        },
    }
}

/// The event that a header is for the state machine.
pub open spec fn event_of(header: Header) -> Event {
    match header {
        Header::Request(request) => Event::Request(request),
        Header::Upload(kind) => Event::Payload(kind),
    }
}

/// The handler for a header at a stage. A payload goes to its upload handler
/// while an upload is announced or running. A download request of an idle
/// peer goes to the download handler. Any other request that moves the stage
/// goes to the stage-transition handler. All else is ignored.
pub open spec fn route_of(stage: Stage, header: Header) -> Route {
    match header {
        Header::Upload(kind) => if stage == Stage::UploadAnnounced || stage == Stage::Uploading {
            match kind {
                UploadKind::Dictionary => Route::DictionaryUpload,
                UploadKind::EncodedData => Route::DataUpload,
            }
        } else {
            Route::Ignore
        },
        Header::Request(request) => if next_stage(stage, Event::Request(request)) == stage {
            Route::Ignore
        } else if request == RequestCode::Download {
            Route::Download
        } else {
            Route::StageTransition
        },
    }
}

impl Header {
    /// The event that the header is for the state machine.
    pub fn event(self) -> (event: Event)
        ensures
            event == event_of(self),
    {
        match self {
            Header::Request(request) => Event::Request(request),
            Header::Upload(kind) => Event::Payload(kind),
        }
    }
}

/// Reads the request code of a message of the control channel.
pub fn parse_request(message: &[u8]) -> (result: Result<RequestCode, ProtocolError>)
    ensures
        result == request_in(message@),
{
    if message.len() < 4 {
        return Err(ProtocolError::ShortHeader);
    }
    let code: u32 = (message[0] as u32) * 0x100_0000 + (message[1] as u32) * 0x1_0000 + (message[2] as u32)
        * 0x100 + (message[3] as u32);
    match RequestCode::from_wire(code) {
        Some(request) => Ok(request),
        None => Err(ProtocolError::UnknownCode(code)),
    }
}

/// The bytes that follow the code of a stage-transition message: the name
/// of the file that the request is about. A message shorter than its code
/// has none.
pub fn request_payload(message: &[u8]) -> (payload: Vec<u8>)
    ensures
        payload@ == if message@.len() >= 4 {
            message@.skip(4)
        } else {
            Seq::<u8>::empty()
        },
{
    let mut payload: Vec<u8> = Vec::new();
    let mut i: usize = 4;
    while i < message.len()
        invariant
            4 <= i,
            i <= message.len() || message.len() < 4,
            message.len() >= 4 ==> payload@ == message@.subrange(4, i as int),
            message.len() < 4 ==> payload@ == Seq::<u8>::empty(),
        decreases message.len() - i,
    {
        payload.push(message[i]);
        i += 1;
    }
    if message.len() >= 4 {
        assert(message@.subrange(4, i as int) =~= message@.skip(4));
    }
    payload
}

/// Reads an upload message: what its control byte announces, and the
/// payload that follows the byte.
pub fn parse_upload(message: &[u8]) -> (result: Result<(UploadKind, Vec<u8>), ProtocolError>)
    ensures
        match result {
            Ok((kind, payload)) => upload_in(message@) == Ok::<UploadKind, ProtocolError>(kind) && payload@
                == message@.skip(1),
            Err(error) => upload_in(message@) == Err::<UploadKind, ProtocolError>(error),
        },
{
    if message.len() < 1 {
        return Err(ProtocolError::ShortHeader);
    }
    match UploadKind::from_control(message[0]) {
        Some(kind) => {
            let mut payload: Vec<u8> = Vec::new();
            let mut i: usize = 1;
            while i < message.len()
                invariant
                    1 <= i <= message.len(),
                    payload@ == message@.subrange(1, i as int),
                decreases message.len() - i,
            {
                payload.push(message[i]);
                i += 1;
            }
            Ok((kind, payload))
        },
        None => Err(ProtocolError::UnknownControl(message[0])),
    }
}

/// Reads the header of a message by the channel it came in on.
pub fn parse_header(channel: Channel, message: &[u8]) -> (result: Result<Header, ProtocolError>)
    ensures
        result == header_in(channel, message@),
{
    match channel {
        Channel::Control => match parse_request(message) {
            Ok(request) => Ok(Header::Request(request)),
            Err(error) => Err(error),
        },
        Channel::Upload => {
            if message.len() < 1 {
                return Err(ProtocolError::ShortHeader);
            }
            match UploadKind::from_control(message[0]) {
                Some(kind) => Ok(Header::Upload(kind)),
                None => Err(ProtocolError::UnknownControl(message[0])),
            }
        },
    }
}

/// Picks the handler for a header at the peer's stage.
pub fn route(stage: Stage, header: Header) -> (handler: Route)
    ensures
        handler == route_of(stage, header),
{
    match header {
        Header::Upload(kind) => {
            if stage == Stage::UploadAnnounced || stage == Stage::Uploading {
                match kind {
                    UploadKind::Dictionary => Route::DictionaryUpload,
                    UploadKind::EncodedData => Route::DataUpload,
                }
            } else {
                Route::Ignore
            }
        },
        Header::Request(request) => {
            if stage.next(Event::Request(request)) == stage {
                Route::Ignore
            } else if request == RequestCode::Download {
                Route::Download
            } else {
                Route::StageTransition
            }
        },
    }
}

/// What the dispatcher does with a message: the header it has read, the
/// handler the message goes to and the stage of the peer after it.
#[derive(Clone, Copy, Debug, PartialEq, Eq, Structural)]
pub struct Dispatch {
    pub header: Header,
    pub route: Route,
    pub stage: Stage,
}

/// What the dispatcher does with a message that came in on a channel from a
/// peer at a stage. An ignored message leaves the stage as it is.
pub open spec fn dispatch_of(channel: Channel, stage: Stage, message: Seq<u8>) -> Result<Dispatch, ProtocolError> {
    match header_in(channel, message) {
        Ok(header) => Ok(
            Dispatch {
                header,
                route: route_of(stage, header),
                stage: if route_of(stage, header) == Route::Ignore {
                    stage
                } else {
                    next_stage(stage, event_of(header))
                },
            },
        ),
        Err(error) => Err(error),
    }
}

/// Decides what to do with a message: reads its header by the channel, picks
/// the handler by the peer's stage, and gives the stage after the message. A
/// message that cannot be read is refused and changes nothing.
pub fn dispatch(channel: Channel, stage: Stage, message: &[u8]) -> (result: Result<Dispatch, ProtocolError>)
    ensures
        result == dispatch_of(channel, stage, message@),
{
    match parse_header(channel, message) {
        Ok(header) => {
            let handler = route(stage, header);
            let after = if handler == Route::Ignore {
                stage
            } else {
                stage.next(header.event())
            };
            Ok(Dispatch { header, route: handler, stage: after })
        },
        Err(error) => Err(error),
    }
}

/// What is left to do once the dispatcher has taken a message.
#[derive(Clone, Copy, Debug, PartialEq, Eq, Structural)]
pub enum Step {
    /// Record the file that the message names: the peer has announced it.
    RecordFile,
    /// Store the payload as the dictionary of the files that wait for one.
    StoreDictionary,
    /// Store the payload as the encoded text of the files that wait for one.
    StoreEncoded,
    /// Answer the download request.
    Serve,
    /// Bring the peer back to idle.
    Reset,
}

/// What is left to do after a message, in this order. An upload that was
/// announced has its file recorded; an upload that was finished is reset at
/// once; a payload is stored; a download is served and then reset. An
/// ignored message asks for nothing.
pub open spec fn steps_of(decision: Dispatch) -> Seq<Step> {
    match decision.route {
        Route::StageTransition => if decision.stage == Stage::UploadAnnounced {
            seq![Step::RecordFile]
        } else if decision.stage == Stage::UploadComplete {
            seq![Step::Reset]
        } else {
            Seq::empty()
        },
        Route::DictionaryUpload => seq![Step::StoreDictionary],
        Route::DataUpload => seq![Step::StoreEncoded],
        Route::Download => seq![Step::Serve, Step::Reset],
        Route::Ignore => Seq::empty(),
    }
}

/// Lists what is left to do after the dispatcher has taken a message.
pub fn follow_up(decision: Dispatch) -> (steps: Vec<Step>)
    ensures
        steps@ == steps_of(decision),
{
    let mut steps: Vec<Step> = Vec::new();
    match decision.route {
        Route::StageTransition => {
            if decision.stage == Stage::UploadAnnounced {
                steps.push(Step::RecordFile);
            } else if decision.stage == Stage::UploadComplete {
                steps.push(Step::Reset);
            }
        },
        Route::DictionaryUpload => {
            steps.push(Step::StoreDictionary);
        },
        Route::DataUpload => {
            steps.push(Step::StoreEncoded);
        },
        Route::Download => {
            steps.push(Step::Serve);
            steps.push(Step::Reset);
        },
        Route::Ignore => {},
    }
    assert(steps@ =~= steps_of(decision));
    steps
}

/// Whatever the dispatcher decides: a message goes to the stage-transition
/// handler only where it announces an upload of an idle peer or ends a
/// running upload; a payload that is stored leaves the upload running; a
/// download that is served was asked for by an idle peer; and where the last
/// thing left to do is a reset, the reset brings the peer back to idle.
pub proof fn lemma_follow_up(channel: Channel, stage: Stage, message: Seq<u8>)
    requires
        dispatch_of(channel, stage, message) is Ok,
    ensures
        ({
            let decision = dispatch_of(channel, stage, message)->Ok_0;
            let steps = steps_of(decision);
            &&& decision.route == Route::StageTransition ==> {
                ||| stage == Stage::Idle && decision.header == Header::Request(RequestCode::Upload)
                    && steps == seq![Step::RecordFile]
                ||| stage == Stage::Uploading && decision.header == Header::Request(RequestCode::Leave)
                    && steps == seq![Step::Reset]
            }
            &&& decision.route == Route::DictionaryUpload || decision.route == Route::DataUpload
                ==> decision.stage == Stage::Uploading
            &&& decision.route == Route::Download ==> stage == Stage::Idle && decision.stage
                == Stage::DownloadRequested
            &&& steps.len() > 0 && steps.last() == Step::Reset ==> next_stage(decision.stage, Event::Reset)
                == Stage::Idle
        }),
{
}

/// The records that an upload message of a peer is stored for: those of the
/// peer that still wait for an artifact of the kind the message carries.
pub fn upload_targets(registry: &PointerRegistry, peer_ip: &str, kind: UploadKind) -> (targets: Vec<FilePointer>)
    ensures
        records_of(targets@) == match kind {
            UploadKind::Dictionary => pending_dictionary(registry@, peer_ip@),
            UploadKind::EncodedData => pending_encoded(registry@, peer_ip@),
        },
{
    match kind {
        UploadKind::Dictionary => registry.find_pending_dictionary(peer_ip),
        UploadKind::EncodedData => registry.find_pending_encoded(peer_ip),
    }
}

/// The answer to a download request.
#[derive(Debug)]
pub enum DownloadReply {
    /// The encoded text is stored under this path and is sent.
    SendEncoded { path: String },
    /// The file is known, but its encoded text is not stored yet.
    NotReady,
    /// The peer has no such file.
    Declined,
}

/// The answer to a download request, as a mathematical value.
pub enum ReplyModel {
    SendEncoded { path: Seq<char> },
    NotReady,
    Declined,
}

/// The mathematical value of an answer.
pub open spec fn reply_model(reply: DownloadReply) -> ReplyModel {
    match reply {
        DownloadReply::SendEncoded { path } => ReplyModel::SendEncoded { path: path@ },
        DownloadReply::NotReady => ReplyModel::NotReady,
        DownloadReply::Declined => ReplyModel::Declined,
    }
}

/// The answer that the record of a file calls for.
pub open spec fn reply_for(found: Option<PointerRecord>) -> ReplyModel {
    match found {
        Some(record) => if record.encoded_text_in_place {
            ReplyModel::SendEncoded { path: artifact_path(record.ip, record.file_name, encoded_text_suffix()) }
        } else {
            ReplyModel::NotReady
        },
        None => ReplyModel::Declined,
    }
}

/// The record as a mathematical value, if there is one.
pub open spec fn found_record(found: Option<FilePointer>) -> Option<PointerRecord> {
    match found {
        Some(pointer) => Some(pointer@),
        None => None,
    }
}

/// Answers a download request from what the registry has found for the file.
pub fn download_reply(found: &Option<FilePointer>) -> (reply: DownloadReply)
    ensures
        reply_model(reply) == reply_for(found_record(*found)),
{
    match found {
        Some(pointer) => {
            if pointer.encoded_text_in_place {
                DownloadReply::SendEncoded { path: pointer.encoded_text_path() }
            } else {
                DownloadReply::NotReady
            }
        },
        None => DownloadReply::Declined,
    }
}

/// The text sent to a peer whose file is known but not stored yet.
pub fn not_ready_message() -> (text: String)
    ensures
        text@ == "Encoded text not available yet"@,
{
    String::from_str("Encoded text not available yet")
}

/// The text sent to a peer that asks for a file it has not uploaded.
pub fn declined_message(file_name: &str, peer_ip: &str) -> (text: String)
    ensures
        text@ == "Declined: No file '"@ + file_name@ + "' found for IP "@ + peer_ip@,
{
    let mut text = String::from_str("Declined: No file '");
    text.append(file_name);
    text.append("' found for IP ");
    text.append(peer_ip);
    text
}

/// The text sent to a peer that is not part of the network.
pub fn not_in_network_message() -> (text: String)
    ensures
        text@ == "Declined: not part of network"@,
{
    String::from_str("Declined: not part of network")
}

} // verus!

//! A DBI serving session as a state machine. The caller performs the I/O
//! that each step asks for (polling the stop flag, USB enumeration and
//! transfers, file reads, sleeping) and hands the outcome back as the next
//! event; the session decides everything else: which replies to send, when
//! to reconnect, what to log, and when the session ends.

use vstd::prelude::*;
use vstd::bytes::{spec_u32_from_le_bytes, spec_u64_from_le_bytes};
use vstd::utf8::encode_utf8;
use crate::files::{FileList, entries_map, entry_names};
use crate::protocol::{
    build_header, chunk_size, list_payload, parse_file_range, parse_header,
    should_report_progress, CommandHeader,
    header_bytes, parse_header_spec, names_text, reports_progress, utf8_lossy, CMD_ID_EXIT,
    CMD_ID_FILE_RANGE, CMD_ID_LIST, CMD_TYPE_ACK, CMD_TYPE_RESPONSE, SWITCH_PRODUCT_ID,
    SWITCH_VENDOR_ID, BUFFER_SEGMENT_DATA_SIZE,
};
use crate::stats::{TransferStats, summary_text};
use crate::text::{decimal, format_size, push_decimal, size_text};

verus! {

/// Severity of a log line shown to the user.
#[derive(Clone, Copy, Debug, PartialEq, Eq, Structural)]
pub enum LogLevel {
    Info,
    Success,
    Warn,
    Error,
}

/// The name under which the frontend knows a level.
pub open spec fn level_name(l: LogLevel) -> Seq<char> {
    match l {
        LogLevel::Info => "info"@,
        LogLevel::Success => "success"@,
        LogLevel::Warn => "warn"@,
        LogLevel::Error => "error"@,
    }
}

impl LogLevel {
    /// The name under which the frontend knows this level.
    pub fn name(&self) -> (s: &'static str)
        ensures
            s@ == level_name(*self),
    {
        match self {
            LogLevel::Info => "info",
            LogLevel::Success => "success",
            LogLevel::Warn => "warn",
            LogLevel::Error => "error",
        }
    }
}

/// Something to show the user; it asks for no answer.
#[derive(Debug, PartialEq, Eq)]
pub enum Notice {
    /// A log line.
    Log { message: String, level: LogLevel },
    /// Whether the Switch is connected.
    Connection(bool),
    /// How far the transfer of a file range has come.
    Progress { file: String, bytes_sent: u64, total_bytes: u64 },
}

/// Why the server stopped.
#[derive(Debug, PartialEq, Eq)]
pub enum StopReason {
    /// The Switch sent the exit command; the text sums up the session.
    Completed(String),
    /// The user asked the server to stop.
    UserStopped,
    /// An unrecoverable error occurred.
    Error(String),
}

/// A USB device as enumeration reports it.
#[derive(Clone, Copy, Debug, PartialEq, Eq, Structural)]
pub struct UsbDevice {
    pub vendor_id: u16,
    pub product_id: u16,
}

/// The I/O that the session asks its caller to perform next.
#[derive(Debug, PartialEq, Eq)]
pub enum Request {
    /// Read the stop flag; answer `StopFlag`.
    PollStop,
    /// Enumerate USB devices; answer `Devices`.
    ListDevices,
    /// Open the device at this index of the last enumeration; answer `Done`.
    OpenDevice(usize),
    /// Claim interface 0 of the open device; answer `Done`.
    ClaimInterface,
    /// Open the bulk IN endpoint; answer `Done`.
    OpenInEndpoint,
    /// Open the bulk OUT endpoint; answer `Done`.
    OpenOutEndpoint,
    /// Read exactly this many bytes from the IN endpoint; answer `Data`.
    ReadUsb(usize),
    /// Write these bytes to the OUT endpoint and flush; answer `Done`.
    WriteUsb(Vec<u8>),
    /// Open the file at this path for reading; answer `FileOpened` with the
    /// file's length, when it can be read.
    OpenFile(String),
    /// Seek the open file to this offset; answer `Done`.
    SeekFile(u64),
    /// Read exactly this many bytes from the open file; answer `Data`.
    ReadFile(usize),
    /// Sleep this many milliseconds; answer `Slept`.
    Sleep(u64),
    /// The session is over.
    Finish(StopReason),
}

/// The outcome of a request, handed back to the session.
#[derive(Debug, PartialEq, Eq)]
pub enum Event {
    StopFlag(bool),
    Devices(Result<Vec<UsbDevice>, String>),
    Done(Result<(), String>),
    Data(Result<Vec<u8>, String>),
    FileOpened(Result<Option<u64>, String>),
    Slept,
}

/// What one step of the session produces: notices to show, in order, and
/// then the request to perform.
#[derive(Debug, PartialEq, Eq)]
pub struct Step {
    pub notices: Vec<Notice>,
    pub request: Request,
}

/// Where the session stands, named by what it waits for.
#[derive(Clone, Copy, Debug, PartialEq, Eq, Structural)]
pub enum Phase {
    /// Top of the connection loop: waits for the stop flag.
    Start,
    /// Top of the device search: waits for the stop flag.
    Search,
    /// Waits for the device list.
    ListingDevices,
    /// Waits for the device to open.
    OpeningDevice,
    /// No Switch found: the k-th short nap, waiting for the stop flag.
    Idle(u32),
    /// No Switch found: sleeping the k-th short nap.
    Napping(u32),
    /// Sleeping after a failure; then back to the search (`true`) or to the
    /// top of the connection loop (`false`).
    Backoff(bool),
    /// Waits for interface 0 to be claimed.
    Claiming,
    /// Waits for the IN endpoint.
    OpeningIn,
    /// Waits for the OUT endpoint.
    OpeningOut,
    /// Connected, between commands: waits for the stop flag.
    Ready,
    /// Waits for a command header.
    AwaitingHeader,
    /// Waits for the reply to the exit command to be written.
    ExitReply,
    /// Waits for the list reply header to be written.
    ListHeader,
    /// Waits for the Switch's acknowledgement of the list header.
    ListAck,
    /// Waits for the list to be written.
    ListBody,
    /// Waits for the acknowledgement of a file-range command to be written.
    RangeAck,
    /// Waits for the file-range request.
    RangeRequest,
    /// Waits for the range reply header to be written.
    RangeReply,
    /// Waits for the Switch's acknowledgement of the range reply.
    RangeReplyAck,
    /// Waits for the file to open.
    FileOpening,
    /// Waits for the seek to the range's offset.
    FileSeeking,
    /// Before a chunk: waits for the stop flag.
    ChunkStop,
    /// Waits for a chunk of file data.
    ChunkRead,
    /// Waits for a chunk to be written to the Switch.
    ChunkWrite,
    /// A file-range command failed: waits for the stop flag.
    RangeFailed,
    /// The session is over.
    Finished,
}

/// A notice, as values.
pub enum NoticeView {
    Log(Seq<char>, LogLevel),
    Connection(bool),
    Progress(Seq<char>, u64, u64),
}

/// A stop reason, as values.
pub enum StopReasonView {
    Completed(Seq<char>),
    UserStopped,
    Error(Seq<char>),
}

/// A request, as values.
pub enum RequestView {
    PollStop,
    ListDevices,
    OpenDevice(usize),
    ClaimInterface,
    OpenInEndpoint,
    OpenOutEndpoint,
    ReadUsb(usize),
    WriteUsb(Seq<u8>),
    OpenFile(Seq<char>),
    SeekFile(u64),
    ReadFile(usize),
    Sleep(u64),
    Finish(StopReasonView),
}

/// An event, as values.
pub enum EventView {
    StopFlag(bool),
    Devices(Result<Seq<UsbDevice>, Seq<char>>),
    Done(Result<(), Seq<char>>),
    Data(Result<Seq<u8>, Seq<char>>),
    FileOpened(Result<Option<u64>, Seq<char>>),
    Slept,
}

/// A step, as values.
pub struct StepView {
    pub notices: Seq<NoticeView>,
    pub request: RequestView,
}

impl View for Notice {
    type V = NoticeView;

    open spec fn view(&self) -> NoticeView {
        match self {
            Notice::Log { message, level } => NoticeView::Log(message@, *level),
            Notice::Connection(c) => NoticeView::Connection(*c),
            Notice::Progress { file, bytes_sent, total_bytes } => NoticeView::Progress(
                file@,
                *bytes_sent,
                *total_bytes,
            ),
        }
    }
}

impl View for StopReason {
    type V = StopReasonView;

    open spec fn view(&self) -> StopReasonView {
        match self {
            StopReason::Completed(s) => StopReasonView::Completed(s@),
            StopReason::UserStopped => StopReasonView::UserStopped,
            StopReason::Error(s) => StopReasonView::Error(s@),
        }
    }
}

impl View for Request {
    type V = RequestView;

    open spec fn view(&self) -> RequestView {
        match self {
            Request::PollStop => RequestView::PollStop,
            Request::ListDevices => RequestView::ListDevices,
            Request::OpenDevice(i) => RequestView::OpenDevice(*i),
            Request::ClaimInterface => RequestView::ClaimInterface,
            Request::OpenInEndpoint => RequestView::OpenInEndpoint,
            Request::OpenOutEndpoint => RequestView::OpenOutEndpoint,
            Request::ReadUsb(n) => RequestView::ReadUsb(*n),
            Request::WriteUsb(b) => RequestView::WriteUsb(b@),
            Request::OpenFile(p) => RequestView::OpenFile(p@),
            Request::SeekFile(o) => RequestView::SeekFile(*o),
            Request::ReadFile(n) => RequestView::ReadFile(*n),
            Request::Sleep(ms) => RequestView::Sleep(*ms),
            Request::Finish(r) => RequestView::Finish(r@),
        }
    }
}

impl View for Event {
    type V = EventView;

    open spec fn view(&self) -> EventView {
        match self {
            Event::StopFlag(b) => EventView::StopFlag(*b),
            Event::Devices(r) => EventView::Devices(
                match r {
                    Ok(v) => Ok(v@),
                    Err(m) => Err(m@),
                },
            ),
            Event::Done(r) => EventView::Done(
                match r {
                    Ok(()) => Ok(()),
                    Err(m) => Err(m@),
                },
            ),
            Event::Data(r) => EventView::Data(
                match r {
                    Ok(v) => Ok(v@),
                    Err(m) => Err(m@),
                },
            ),
            Event::FileOpened(r) => EventView::FileOpened(
                match r {
                    Ok(n) => Ok(*n),
                    Err(m) => Err(m@),
                },
            ),
            Event::Slept => EventView::Slept,
        }
    }
}

impl View for Step {
    type V = StepView;

    open spec fn view(&self) -> StepView {
        StepView { notices: self.notices@.map_values(|n: Notice| n@), request: self.request@ }
    }
}

/// Whether `phase` waits for an event of the kind of `e`.
pub open spec fn accepts(phase: Phase, e: EventView) -> bool {
    match e {
        EventView::StopFlag(_) => phase is Start || phase is Search || phase is Idle || phase is Ready
            || phase is ChunkStop || phase is RangeFailed,
        EventView::Devices(_) => phase is ListingDevices,
        EventView::Done(_) => phase is OpeningDevice || phase is Claiming || phase is OpeningIn
            || phase is OpeningOut || phase is ExitReply || phase is ListHeader || phase is ListBody
            || phase is RangeAck || phase is RangeReply || phase is FileSeeking || phase is ChunkWrite,
        EventView::Data(_) => phase is AwaitingHeader || phase is ListAck || phase is RangeRequest
            || phase is RangeReplyAck || phase is ChunkRead,
        EventView::FileOpened(_) => phase is FileOpening,
        EventView::Slept => phase is Napping || phase is Backoff,
    }
}

/// The session as values.
pub struct SessionView {
    /// The files served, in list order.
    pub files: Seq<(Seq<char>, Seq<char>)>,
    /// Ranges completed so far and their bytes.
    pub stats: TransferStats,
    pub phase: Phase,
    /// Size of the file-range request announced by the last command header.
    pub request_size: u32,
    /// The file of the current range.
    pub name: Seq<char>,
    pub range_size: u32,
    pub range_offset: u64,
    /// Bytes of the current range sent, and still to send.
    pub sent: u64,
    pub remaining: u64,
    /// Size of the chunk being read or written.
    pub chunk: usize,
    /// The length of the file of the current range, when it could be read.
    pub file_len: Option<u64>,
    /// The file-list reply being sent.
    pub payload: Seq<u8>,
}

/// Is this device a Switch in DBI's backend mode?
pub open spec fn is_switch(d: UsbDevice) -> bool {
    d.vendor_id == SWITCH_VENDOR_ID && d.product_id == SWITCH_PRODUCT_ID
}

/// The index of the first Switch among `ds`.
pub open spec fn first_switch(ds: Seq<UsbDevice>) -> Option<int>
    decreases ds.len(),
{
    if ds.len() == 0 {
        None
    } else {
        match first_switch(ds.drop_last()) {
            Some(i) => Some(i),
            None => if is_switch(ds.last()) {
                Some(ds.len() - 1)
            } else {
                None
            },
        }
    }
}

/// A log line.
pub open spec fn log(m: Seq<char>, l: LogLevel) -> NoticeView {
    NoticeView::Log(m, l)
}

/// Moves to `phase`, showing `notices` and asking for `request`.
pub open spec fn go(s: SessionView, phase: Phase, notices: Seq<NoticeView>, request: RequestView) -> (
    SessionView,
    StepView,
) {
    (SessionView { phase, ..s }, StepView { notices, request })
}

/// Ends the session.
pub open spec fn finish(s: SessionView, notices: Seq<NoticeView>, reason: StopReasonView) -> (
    SessionView,
    StepView,
) {
    go(s, Phase::Finished, notices, RequestView::Finish(reason))
}

/// The log line of a stop asked for by the user.
pub open spec fn stopped_text() -> Seq<char> {
    "Server stopped by user"@
}

/// A failure while serving the file list: log it, drop the connection, and
/// go back to the top of the connection loop.
pub open spec fn list_failed(s: SessionView, m: Seq<char>) -> (SessionView, StepView) {
    go(
        s,
        Phase::Start,
        seq![log("Error: "@ + m, LogLevel::Error), NoticeView::Connection(false)],
        RequestView::PollStop,
    )
}

/// A failure while serving a file range: log it, drop the connection, and
/// look at the stop flag.
pub open spec fn range_failed(s: SessionView, m: Seq<char>) -> (SessionView, StepView) {
    go(
        s,
        Phase::RangeFailed,
        seq![log("Error: "@ + m, LogLevel::Error), NoticeView::Connection(false)],
        RequestView::PollStop,
    )
}

/// The log line that announces a range.
pub open spec fn sending_text(name: Seq<char>, offset: u64, size: u32) -> Seq<char> {
    "Sending: "@ + name + " (offset="@ + size_text(offset as nat) + ", size="@ + size_text(
        size as nat,
    ) + ")"@
}

/// The log line for a completed range that starts a file or ends it.
pub open spec fn completed_text(name: Seq<char>, size: u32) -> Seq<char> {
    "Completed: "@ + name + " ("@ + size_text(size as nat) + ")"@
}

/// The log line after the file list went out.
pub open spec fn sent_list_text(count: nat) -> Seq<char> {
    "Sent file list ("@ + decimal(count) + " files)"@
}

/// Whether the current range is the last of its file: it ends where the
/// file ends.
pub open spec fn ends_file(s: SessionView) -> bool {
    s.file_len matches Some(n) && n == s.range_offset + s.range_size
}

/// After a chunk or the seek: the next chunk, or the end of the range,
/// which counts it in the statistics, logs it as completed when it started
/// at offset 0 or is the last range of its file, and returns to the command
/// loop.
pub open spec fn continue_range(s: SessionView, notices: Seq<NoticeView>) -> (SessionView, StepView) {
    if s.remaining > 0 {
        go(s, Phase::ChunkStop, notices, RequestView::PollStop)
    } else {
        let stats = TransferStats {
            files_transferred: (s.stats.files_transferred + 1) as u32,
            total_bytes_sent: (s.stats.total_bytes_sent + s.sent) as u64,
        };
        let done = if s.range_offset == 0 || ends_file(s) {
            seq![log(completed_text(s.name, s.range_size), LogLevel::Success)]
        } else {
            Seq::empty()
        };
        (
            SessionView { phase: Phase::Ready, stats, ..s },
            StepView { notices: notices + done, request: RequestView::PollStop },
        )
    }
}

/// One step of the protocol: from the session `s` and the outcome `e` of its
/// last request, the next session, the notices, and the next request.
pub open spec fn next(s: SessionView, e: EventView) -> (SessionView, StepView) {
    let none = Seq::<NoticeView>::empty();
    match s.phase {
        Phase::Start => if e == EventView::StopFlag(true) {
            finish(
                s,
                seq![log(stopped_text(), LogLevel::Warn), NoticeView::Connection(false)],
                StopReasonView::UserStopped,
            )
        } else {
            go(
                s,
                Phase::Search,
                seq![log("Waiting for Switch..."@, LogLevel::Info), NoticeView::Connection(false)],
                RequestView::PollStop,
            )
        },
        Phase::Search => if e == EventView::StopFlag(true) {
            finish(s, seq![log(stopped_text(), LogLevel::Warn)], StopReasonView::UserStopped)
        } else {
            go(s, Phase::ListingDevices, none, RequestView::ListDevices)
        },
        Phase::ListingDevices => match e {
            EventView::Devices(Ok(ds)) => match first_switch(ds) {
                Some(i) => go(s, Phase::OpeningDevice, none, RequestView::OpenDevice(i as usize)),
                None => go(s, Phase::Idle(0), none, RequestView::PollStop),
            },
            EventView::Devices(Err(m)) => go(
                s,
                Phase::Backoff(true),
                seq![log("USB enumeration error: "@ + m, LogLevel::Error)],
                RequestView::Sleep(2000),
            ),
            _ => (s, StepView { notices: none, request: RequestView::PollStop }),
        },
        Phase::OpeningDevice => match e {
            EventView::Done(Ok(())) => go(s, Phase::Claiming, none, RequestView::ClaimInterface),
            EventView::Done(Err(m)) => go(
                s,
                Phase::Backoff(true),
                seq![log("Failed to open device: "@ + m, LogLevel::Error)],
                RequestView::Sleep(2000),
            ),
            _ => (s, StepView { notices: none, request: RequestView::PollStop }),
        },
        Phase::Idle(k) => if e == EventView::StopFlag(true) {
            finish(s, seq![log(stopped_text(), LogLevel::Warn)], StopReasonView::UserStopped)
        } else {
            go(s, Phase::Napping(k), none, RequestView::Sleep(100))
        },
        Phase::Napping(k) => if k + 1 < 10 {
            go(s, Phase::Idle((k + 1) as u32), none, RequestView::PollStop)
        } else {
            go(s, Phase::Search, none, RequestView::PollStop)
        },
        Phase::Backoff(to_search) => if to_search {
            go(s, Phase::Search, none, RequestView::PollStop)
        } else {
            go(s, Phase::Start, none, RequestView::PollStop)
        },
        Phase::Claiming => match e {
            EventView::Done(Ok(())) => go(s, Phase::OpeningIn, none, RequestView::OpenInEndpoint),
            EventView::Done(Err(m)) => go(
                s,
                Phase::Backoff(false),
                seq![log("Failed to claim interface: "@ + m, LogLevel::Error)],
                RequestView::Sleep(2000),
            ),
            _ => (s, StepView { notices: none, request: RequestView::PollStop }),
        },
        Phase::OpeningIn => match e {
            EventView::Done(Ok(())) => go(s, Phase::OpeningOut, none, RequestView::OpenOutEndpoint),
            EventView::Done(Err(m)) => go(
                s,
                Phase::Backoff(false),
                seq![log("Failed to open IN endpoint: "@ + m, LogLevel::Error)],
                RequestView::Sleep(2000),
            ),
            _ => (s, StepView { notices: none, request: RequestView::PollStop }),
        },
        Phase::OpeningOut => match e {
            EventView::Done(Ok(())) => go(
                s,
                Phase::Ready,
                seq![log("Switch connected!"@, LogLevel::Success), NoticeView::Connection(true)],
                RequestView::PollStop,
            ),
            EventView::Done(Err(m)) => go(
                s,
                Phase::Backoff(false),
                seq![log("Failed to open OUT endpoint: "@ + m, LogLevel::Error)],
                RequestView::Sleep(2000),
            ),
            _ => (s, StepView { notices: none, request: RequestView::PollStop }),
        },
        Phase::Ready => if e == EventView::StopFlag(true) {
            finish(
                s,
                seq![log(stopped_text(), LogLevel::Warn), NoticeView::Connection(false)],
                StopReasonView::UserStopped,
            )
        } else {
            go(s, Phase::AwaitingHeader, none, RequestView::ReadUsb(16))
        },
        Phase::AwaitingHeader => match e {
            EventView::Data(Err(m)) => go(
                s,
                Phase::Start,
                seq![log("Connection lost: "@ + m, LogLevel::Warn), NoticeView::Connection(false)],
                RequestView::PollStop,
            ),
            EventView::Data(Ok(b)) => match parse_header_spec(b) {
                None => go(s, Phase::Ready, none, RequestView::PollStop),
                Some(h) => if h.cmd_id == CMD_ID_EXIT {
                    go(
                        s,
                        Phase::ExitReply,
                        seq![log("Switch sent exit command"@, LogLevel::Info)],
                        RequestView::WriteUsb(header_bytes(CMD_TYPE_RESPONSE, CMD_ID_EXIT, 0)),
                    )
                } else if h.cmd_id == CMD_ID_LIST {
                    let payload = encode_utf8(names_text(entry_names(s.files)));
                    (
                        SessionView { phase: Phase::ListHeader, payload, ..s },
                        StepView {
                            notices: seq![log("Switch requested file list"@, LogLevel::Info)],
                            request: RequestView::WriteUsb(
                                header_bytes(
                                    CMD_TYPE_RESPONSE,
                                    CMD_ID_LIST,
                                    (payload.len() % 0x1_0000_0000) as u32,
                                ),
                            ),
                        },
                    )
                } else if h.cmd_id == CMD_ID_FILE_RANGE {
                    (
                        SessionView { phase: Phase::RangeAck, request_size: h.data_size, ..s },
                        StepView {
                            notices: none,
                            request: RequestView::WriteUsb(
                                header_bytes(CMD_TYPE_ACK, CMD_ID_FILE_RANGE, h.data_size),
                            ),
                        },
                    )
                } else {
                    go(
                        s,
                        Phase::Ready,
                        seq![log("Unknown command: "@ + decimal(h.cmd_id as nat), LogLevel::Warn)],
                        RequestView::PollStop,
                    )
                },
            },
            _ => (s, StepView { notices: none, request: RequestView::PollStop }),
        },
        Phase::ExitReply => {
            let summary = summary_text(
                s.stats.files_transferred as nat,
                s.stats.total_bytes_sent as nat,
            );
            finish(
                s,
                seq![log(summary, LogLevel::Success), NoticeView::Connection(false)],
                StopReasonView::Completed(summary),
            )
        },
        Phase::ListHeader => match e {
            EventView::Done(Err(m)) => list_failed(s, m),
            _ => if s.payload.len() % 0x1_0000_0000 > 0 {
                go(s, Phase::ListAck, none, RequestView::ReadUsb(16))
            } else {
                go(
                    s,
                    Phase::Ready,
                    seq![log(sent_list_text(s.files.len()), LogLevel::Success)],
                    RequestView::PollStop,
                )
            },
        },
        Phase::ListAck => match e {
            EventView::Data(Err(m)) => list_failed(s, m),
            _ => go(s, Phase::ListBody, none, RequestView::WriteUsb(s.payload)),
        },
        Phase::ListBody => match e {
            EventView::Done(Err(m)) => list_failed(s, m),
            _ => go(
                s,
                Phase::Ready,
                seq![log(sent_list_text(s.files.len()), LogLevel::Success)],
                RequestView::PollStop,
            ),
        },
        Phase::RangeAck => match e {
            EventView::Done(Err(m)) => range_failed(s, m),
            _ => go(s, Phase::RangeRequest, none, RequestView::ReadUsb(s.request_size as usize)),
        },
        Phase::RangeRequest => match e {
            EventView::Data(Ok(b)) => if b.len() < 16 {
                range_failed(s, "File range header too short"@)
            } else {
                let size = spec_u32_from_le_bytes(b.subrange(0, 4));
                let offset = spec_u64_from_le_bytes(b.subrange(4, 12));
                let name = utf8_lossy(b.subrange(16, b.len() as int));
                (
                    SessionView {
                        phase: Phase::RangeReply,
                        name,
                        range_size: size,
                        range_offset: offset,
                        sent: 0,
                        remaining: size as u64,
                        ..s
                    },
                    StepView {
                        notices: seq![log(sending_text(name, offset, size), LogLevel::Info)],
                        request: RequestView::WriteUsb(
                            header_bytes(CMD_TYPE_RESPONSE, CMD_ID_FILE_RANGE, size),
                        ),
                    },
                )
            },
            EventView::Data(Err(m)) => range_failed(s, m),
            _ => (s, StepView { notices: none, request: RequestView::PollStop }),
        },
        Phase::RangeReply => match e {
            EventView::Done(Err(m)) => range_failed(s, m),
            _ => go(s, Phase::RangeReplyAck, none, RequestView::ReadUsb(16)),
        },
        Phase::RangeReplyAck => match e {
            EventView::Data(Err(m)) => range_failed(s, m),
            _ => if entries_map(s.files).dom().contains(s.name) {
                go(
                    s,
                    Phase::FileOpening,
                    none,
                    RequestView::OpenFile(entries_map(s.files)[s.name]),
                )
            } else {
                range_failed(s, "File not found: "@ + s.name)
            },
        },
        Phase::FileOpening => match e {
            EventView::FileOpened(Err(m)) => range_failed(s, "Failed to open file: "@ + m),
            EventView::FileOpened(Ok(len)) => (
                SessionView { phase: Phase::FileSeeking, file_len: len, ..s },
                StepView { notices: none, request: RequestView::SeekFile(s.range_offset) },
            ),
            _ => (s, StepView { notices: none, request: RequestView::PollStop }),
        },
        Phase::FileSeeking => match e {
            EventView::Done(Err(m)) => range_failed(s, "Failed to seek: "@ + m),
            _ => continue_range(s, none),
        },
        Phase::ChunkStop => if e == EventView::StopFlag(true) {
            range_failed(s, stopped_text())
        } else {
            let c = if s.remaining < BUFFER_SEGMENT_DATA_SIZE {
                s.remaining as usize
            } else {
                BUFFER_SEGMENT_DATA_SIZE
            };
            (
                SessionView { phase: Phase::ChunkRead, chunk: c, ..s },
                StepView { notices: none, request: RequestView::ReadFile(c) },
            )
        },
        Phase::ChunkRead => match e {
            EventView::Data(Ok(b)) => go(s, Phase::ChunkWrite, none, RequestView::WriteUsb(b)),
            EventView::Data(Err(m)) => range_failed(s, "Failed to read file: "@ + m),
            _ => (s, StepView { notices: none, request: RequestView::PollStop }),
        },
        Phase::ChunkWrite => match e {
            EventView::Done(Err(m)) => range_failed(s, m),
            _ => {
                let sent = (s.sent + s.chunk) as u64;
                let remaining = (s.remaining - s.chunk) as u64;
                let s2 = SessionView { sent, remaining, ..s };
                let notices = if reports_progress(sent, remaining) {
                    seq![NoticeView::Progress(s.name, sent, s.range_size as u64)]
                } else {
                    none
                };
                continue_range(s2, notices)
            },
        },
        Phase::RangeFailed => if e == EventView::StopFlag(true) {
            finish(s, none, StopReasonView::UserStopped)
        } else {
            go(s, Phase::Start, none, RequestView::PollStop)
        },
        Phase::Finished => (s, StepView { notices: none, request: RequestView::Finish(StopReasonView::UserStopped) }),
    }
}

/// Whether the next step may complete the current range and so count it:
/// after the seek when nothing is to be sent, or when the chunk in flight is
/// the last one.
pub open spec fn may_record(s: SessionView) -> bool {
    ||| s.phase is FileSeeking && s.remaining == 0
    ||| s.phase is ChunkWrite && s.remaining == s.chunk
}

/// Whether counting the current range fits the totals.
pub open spec fn can_record(s: SessionView) -> bool {
    &&& s.stats.files_transferred < u32::MAX
    &&& s.stats.total_bytes_sent + s.range_size <= u64::MAX
}

/// The next step does not overflow the totals.
pub open spec fn step_safe(s: SessionView) -> bool {
    may_record(s) ==> can_record(s)
}

/// What every session keeps: distinct file names, the bytes of the current
/// range accounted for, a chunk in flight that fits what remains, and the
/// nap counter below ten.
pub open spec fn session_wf(s: SessionView) -> bool {
    &&& crate::files::names_distinct(s.files)
    &&& s.sent + s.remaining == s.range_size
    &&& s.phase is ChunkStop ==> s.remaining > 0
    &&& (s.phase is ChunkRead || s.phase is ChunkWrite) ==> 0 < s.chunk <= s.remaining
    &&& s.phase matches Phase::Idle(k) ==> k < 10
    &&& s.phase matches Phase::Napping(k) ==> k < 10
}

/// The device chosen is the first one with the Switch's vendor id 0x057E and
/// product id 0x3000, and none is chosen only when no device has both.
pub proof fn law_first_switch_is_the_switch(ds: Seq<UsbDevice>)
    ensures
        match first_switch(ds) {
            Some(i) => {
                &&& 0 <= i < ds.len()
                &&& ds[i].vendor_id == 0x057E && ds[i].product_id == 0x3000
                &&& forall|j: int|
                    0 <= j < i ==> !(ds[j].vendor_id == 0x057E && ds[j].product_id == 0x3000)
            },
            None => forall|j: int|
                0 <= j < ds.len() ==> !(ds[j].vendor_id == 0x057E && ds[j].product_id == 0x3000),
        },
    decreases ds.len(),
{
    assert(SWITCH_VENDOR_ID == 0x057E && SWITCH_PRODUCT_ID == 0x3000);
    if ds.len() > 0 {
        let t = ds.drop_last();
        law_first_switch_is_the_switch(t);
        match first_switch(t) {
            Some(i) => {
                assert(t[i] == ds[i]);
                assert forall|j: int| 0 <= j < i implies !(ds[j].vendor_id == 0x057E
                    && ds[j].product_id == 0x3000) by {
                    assert(t[j] == ds[j]);
                }
            },
            None => {
                assert forall|j: int| 0 <= j < ds.len() - 1 implies !(ds[j].vendor_id == 0x057E
                    && ds[j].product_id == 0x3000) by {
                    assert(t[j] == ds[j]);
                }
            },
        }
    }
}

/// A device list answered to the enumeration request makes the session open
/// the first device with vendor id 0x057E and product id 0x3000, or, when
/// there is none, wait and poll again.
pub proof fn law_opens_the_switch(s: SessionView, ds: Seq<UsbDevice>)
    requires
        s.phase is ListingDevices,
        ds.len() <= usize::MAX,
    ensures
        ({
            let o = next(s, EventView::Devices(Ok(ds))).1;
            match o.request {
                RequestView::OpenDevice(i) => {
                    &&& i < ds.len()
                    &&& ds[i as int].vendor_id == 0x057E && ds[i as int].product_id == 0x3000
                    &&& forall|j: int|
                        0 <= j < i ==> !(ds[j].vendor_id == 0x057E && ds[j].product_id == 0x3000)
                },
                RequestView::PollStop => forall|j: int|
                    0 <= j < ds.len() ==> !(ds[j].vendor_id == 0x057E && ds[j].product_id == 0x3000),
                _ => false,
            }
        }),
{
    law_first_switch_is_the_switch(ds);
}

/// A serving session: the files it offers, its statistics, and where it
/// stands in the protocol.
pub struct Session {
    files: FileList,
    stats: TransferStats,
    phase: Phase,
    request_size: u32,
    name: String,
    range_size: u32,
    range_offset: u64,
    sent: u64,
    remaining: u64,
    chunk: usize,
    file_len: Option<u64>,
    payload: Vec<u8>,
}

impl View for Session {
    type V = SessionView;

    closed spec fn view(&self) -> SessionView {
        SessionView {
            files: self.files@,
            stats: self.stats,
            phase: self.phase,
            request_size: self.request_size,
            name: self.name@,
            range_size: self.range_size,
            range_offset: self.range_offset,
            sent: self.sent,
            remaining: self.remaining,
            chunk: self.chunk,
            file_len: self.file_len,
            payload: self.payload@,
        }
    }
}

/// `a` followed by `b`.
fn concat(a: &str, b: &str) -> (s: String)
    ensures
        s@ == a@ + b@,
{
    let mut s = String::from_str(a);
    s.append(b);
    s
}

fn log_notice(message: String, level: LogLevel) -> (n: Notice)
    ensures
        n@ == log(message@, level),
{
    Notice::Log { message, level }
}

fn no_notices() -> (v: Vec<Notice>)
    ensures
        v@.map_values(|n: Notice| n@) == Seq::<NoticeView>::empty(),
{
    let v = Vec::new();
    assert(v@.map_values(|n: Notice| n@) =~= Seq::<NoticeView>::empty());
    v
}

fn one_notice(a: Notice) -> (v: Vec<Notice>)
    ensures
        v@.map_values(|n: Notice| n@) == seq![a@],
{
    let ghost av = a@;
    let mut v = Vec::new();
    v.push(a);
    assert(v@.map_values(|n: Notice| n@) =~= seq![av]);
    v
}

fn two_notices(a: Notice, b: Notice) -> (v: Vec<Notice>)
    ensures
        v@.map_values(|n: Notice| n@) == seq![a@, b@],
{
    let ghost av = a@;
    let ghost bv = b@;
    let mut v = Vec::new();
    v.push(a);
    v.push(b);
    assert(v@.map_values(|n: Notice| n@) =~= seq![av, bv]);
    v
}

/// The index of the first Switch in `ds`.
pub fn find_switch(ds: &Vec<UsbDevice>) -> (r: Option<usize>)
    ensures
        match r {
            Some(i) => first_switch(ds@) == Some(i as int),
            None => first_switch(ds@) is None,
        },
        match r {
            Some(i) => {
                &&& i < ds@.len()
                &&& ds@[i as int].vendor_id == 0x057E && ds@[i as int].product_id == 0x3000
                &&& forall|j: int|
                    0 <= j < i ==> !(ds@[j].vendor_id == 0x057E && ds@[j].product_id == 0x3000)
            },
            None => forall|j: int|
                0 <= j < ds@.len() ==> !(ds@[j].vendor_id == 0x057E && ds@[j].product_id == 0x3000),
        },
{
    proof {
        law_first_switch_is_the_switch(ds@);
    }
    let mut i: usize = 0;
    proof {
        assert(ds@.take(0) =~= Seq::<UsbDevice>::empty());
    }
    while i < ds.len()
        invariant
            i <= ds@.len(),
            first_switch(ds@.take(i as int)) is None,
        decreases ds@.len() - i,
    {
        let d = ds[i];
        proof {
            assert(ds@.take(i + 1).drop_last() =~= ds@.take(i as int));
        }
        if d.vendor_id == SWITCH_VENDOR_ID && d.product_id == SWITCH_PRODUCT_ID {
            proof {
                lemma_first_switch_prefix(ds@, i + 1);
                law_first_switch_is_the_switch(ds@);
            }
            return Some(i);
        }
        i = i + 1;
    }
    proof {
        assert(ds@.take(i as int) =~= ds@);
    }
    None
}

proof fn lemma_first_switch_prefix(ds: Seq<UsbDevice>, n: int)
    requires
        0 < n <= ds.len(),
        first_switch(ds.take(n)) == Some(n - 1),
    ensures
        first_switch(ds) == Some(n - 1),
    decreases ds.len(),
{
    if n < ds.len() {
        assert(ds.drop_last().take(n) =~= ds.take(n));
        lemma_first_switch_prefix(ds.drop_last(), n);
    } else {
        assert(ds.take(n) =~= ds);
    }
}

impl Session {
    /// A new session over `files`; its first request is to poll the stop
    /// flag.
    pub fn new(files: FileList) -> (r: (Session, Step))
        requires
            files.wf(),
        ensures
            r.0@ == (SessionView {
                files: files@,
                stats: TransferStats { files_transferred: 0, total_bytes_sent: 0 },
                phase: Phase::Start,
                request_size: 0,
                name: Seq::empty(),
                range_size: 0,
                range_offset: 0,
                sent: 0,
                remaining: 0,
                chunk: 0,
                file_len: None,
                payload: Seq::empty(),
            }),
            r.1@ == (StepView { notices: Seq::empty(), request: RequestView::PollStop }),
            session_wf(r.0@),
    {
        let session = Session {
            files,
            stats: TransferStats::new(),
            phase: Phase::Start,
            request_size: 0,
            name: String::new(),
            range_size: 0,
            range_offset: 0,
            sent: 0,
            remaining: 0,
            chunk: 0,
            file_len: None,
            payload: Vec::new(),
        };
        (session, Step { notices: no_notices(), request: Request::PollStop })
    }

    /// Where the session stands.
    pub fn phase(&self) -> (p: Phase)
        ensures
            p == self@.phase,
    {
        self.phase
    }

    /// The statistics so far.
    pub fn stats(&self) -> (t: &TransferStats)
        ensures
            *t == self@.stats,
    {
        &self.stats
    }

    /// Whether the next step can count what it completes without the totals
    /// overflowing: true unless the step may complete the current range and
    /// counting it would overflow.
    pub fn counts_safely(&self) -> (b: bool)
        ensures
            b == step_safe(self@),
    {
        let may_record = match self.phase {
            Phase::FileSeeking => self.remaining == 0,
            Phase::ChunkWrite => self.remaining == self.chunk as u64,
            _ => false,
        };
        !may_record || (self.stats.files_transferred < u32::MAX && self.range_size as u64
            <= u64::MAX - self.stats.total_bytes_sent)
    }

    /// Whether the session waits for an event of this kind.
    pub fn accepts(&self, event: &Event) -> (b: bool)
        ensures
            b == accepts(self@.phase, event@),
    {
        let p = self.phase;
        match event {
            Event::StopFlag(_) => match p {
                Phase::Start | Phase::Search | Phase::Idle(_) | Phase::Ready | Phase::ChunkStop
                | Phase::RangeFailed => true,
                _ => false,
            },
            Event::Devices(_) => match p {
                Phase::ListingDevices => true,
                _ => false,
            },
            Event::Done(_) => match p {
                Phase::OpeningDevice | Phase::Claiming | Phase::OpeningIn | Phase::OpeningOut
                | Phase::ExitReply | Phase::ListHeader | Phase::ListBody | Phase::RangeAck
                | Phase::RangeReply | Phase::FileSeeking | Phase::ChunkWrite => true,
                _ => false,
            },
            Event::Data(_) => match p {
                Phase::AwaitingHeader | Phase::ListAck | Phase::RangeRequest | Phase::RangeReplyAck
                | Phase::ChunkRead => true,
                _ => false,
            },
            Event::FileOpened(_) => match p {
                Phase::FileOpening => true,
                _ => false,
            },
            Event::Slept => match p {
                Phase::Napping(_) | Phase::Backoff(_) => true,
                _ => false,
            },
        }
    }
}

impl Session {
    /// Moves to `phase` and asks for `request` after `notices`.
    fn go(&mut self, phase: Phase, notices: Vec<Notice>, request: Request) -> (out: Step)
        ensures
            final(self)@ == (SessionView { phase, ..old(self)@ }),
            out.notices == notices,
            out.request == request,
    {
        self.phase = phase;
        Step { notices, request }
    }

    fn stopped_by_user(&mut self, with_connection: bool) -> (out: Step)
        ensures
            final(self)@ == (SessionView { phase: Phase::Finished, ..old(self)@ }),
            out@ == (StepView {
                notices: if with_connection {
                    seq![log(stopped_text(), LogLevel::Warn), NoticeView::Connection(false)]
                } else {
                    seq![log(stopped_text(), LogLevel::Warn)]
                },
                request: RequestView::Finish(StopReasonView::UserStopped),
            }),
    {
        let m = log_notice(String::from_str("Server stopped by user"), LogLevel::Warn);
        let notices = if with_connection {
            two_notices(m, Notice::Connection(false))
        } else {
            one_notice(m)
        };
        self.go(Phase::Finished, notices, Request::Finish(StopReason::UserStopped))
    }

    fn backoff(&mut self, to_search: bool, prefix: &str, m: &String) -> (out: Step)
        ensures
            (final(self)@, out@) == go(
                old(self)@,
                Phase::Backoff(to_search),
                seq![log(prefix@ + m@, LogLevel::Error)],
                RequestView::Sleep(2000),
            ),
    {
        let n = log_notice(concat(prefix, m.as_str()), LogLevel::Error);
        self.go(Phase::Backoff(to_search), one_notice(n), Request::Sleep(2000))
    }

    /// The steps of the connection phase.
    fn step_connect(&mut self, event: Event) -> (out: Step)
        requires
            accepts(old(self)@.phase, event@),
            old(self)@.phase is Start || old(self)@.phase is Search || old(self)@.phase is ListingDevices
                || old(self)@.phase is OpeningDevice || old(self)@.phase is Idle
                || old(self)@.phase is Napping || old(self)@.phase is Backoff
                || old(self)@.phase is Claiming || old(self)@.phase is OpeningIn
                || old(self)@.phase is OpeningOut,
        ensures
            (final(self)@, out@) == next(old(self)@, event@),
    {
        match self.phase {
            Phase::Start => match event {
                Event::StopFlag(true) => self.stopped_by_user(true),
                _ => {
                    let n = log_notice(String::from_str("Waiting for Switch..."), LogLevel::Info);
                    self.go(Phase::Search, two_notices(n, Notice::Connection(false)), Request::PollStop)
                },
            },
            Phase::Search => match event {
                Event::StopFlag(true) => self.stopped_by_user(false),
                _ => self.go(Phase::ListingDevices, no_notices(), Request::ListDevices),
            },
            Phase::ListingDevices => match event {
                Event::Devices(Ok(ds)) => match find_switch(&ds) {
                    Some(i) => self.go(Phase::OpeningDevice, no_notices(), Request::OpenDevice(i)),
                    None => self.go(Phase::Idle(0), no_notices(), Request::PollStop),
                },
                Event::Devices(Err(m)) => self.backoff(true, "USB enumeration error: ", &m),
                _ => self.go(self.phase, no_notices(), Request::PollStop),
            },
            Phase::OpeningDevice => match event {
                Event::Done(Ok(())) => self.go(Phase::Claiming, no_notices(), Request::ClaimInterface),
                Event::Done(Err(m)) => self.backoff(true, "Failed to open device: ", &m),
                _ => self.go(self.phase, no_notices(), Request::PollStop),
            },
            Phase::Idle(k) => match event {
                Event::StopFlag(true) => self.stopped_by_user(false),
                _ => self.go(Phase::Napping(k), no_notices(), Request::Sleep(100)),
            },
            Phase::Napping(k) => {
                if k < 9 {
                    self.go(Phase::Idle(k + 1), no_notices(), Request::PollStop)
                } else {
                    self.go(Phase::Search, no_notices(), Request::PollStop)
                }
            },
            Phase::Backoff(to_search) => {
                if to_search {
                    self.go(Phase::Search, no_notices(), Request::PollStop)
                } else {
                    self.go(Phase::Start, no_notices(), Request::PollStop)
                }
            },
            Phase::Claiming => match event {
                Event::Done(Ok(())) => self.go(Phase::OpeningIn, no_notices(), Request::OpenInEndpoint),
                Event::Done(Err(m)) => self.backoff(false, "Failed to claim interface: ", &m),
                _ => self.go(self.phase, no_notices(), Request::PollStop),
            },
            Phase::OpeningIn => match event {
                Event::Done(Ok(())) => self.go(Phase::OpeningOut, no_notices(), Request::OpenOutEndpoint),
                Event::Done(Err(m)) => self.backoff(false, "Failed to open IN endpoint: ", &m),
                _ => self.go(self.phase, no_notices(), Request::PollStop),
            },
            _ => match event {
                Event::Done(Ok(())) => {
                    let n = log_notice(String::from_str("Switch connected!"), LogLevel::Success);
                    self.go(Phase::Ready, two_notices(n, Notice::Connection(true)), Request::PollStop)
                },
                Event::Done(Err(m)) => self.backoff(false, "Failed to open OUT endpoint: ", &m),
                _ => self.go(self.phase, no_notices(), Request::PollStop),
            },
        }
    }
}

impl Session {
    fn list_failed(&mut self, m: &String) -> (out: Step)
        ensures
            (final(self)@, out@) == list_failed(old(self)@, m@),
    {
        let n = log_notice(concat("Error: ", m.as_str()), LogLevel::Error);
        self.go(Phase::Start, two_notices(n, Notice::Connection(false)), Request::PollStop)
    }

    fn list_sent(&mut self) -> (out: Step)
        ensures
            (final(self)@, out@) == go(
                old(self)@,
                Phase::Ready,
                seq![log(sent_list_text(old(self)@.files.len()), LogLevel::Success)],
                RequestView::PollStop,
            ),
    {
        let mut text = String::from_str("Sent file list (");
        push_decimal(&mut text, self.files.len() as u64);
        text.append(" files)");
        let n = log_notice(text, LogLevel::Success);
        self.go(Phase::Ready, one_notice(n), Request::PollStop)
    }

    /// The steps between commands, of the exit and list commands, and after
    /// a failed file range.
    fn step_command(&mut self, event: Event) -> (out: Step)
        requires
            accepts(old(self)@.phase, event@),
            old(self)@.phase is Ready || old(self)@.phase is AwaitingHeader
                || old(self)@.phase is ExitReply || old(self)@.phase is ListHeader
                || old(self)@.phase is ListAck || old(self)@.phase is ListBody
                || old(self)@.phase is RangeFailed,
            crate::files::names_distinct(old(self)@.files),
        ensures
            (final(self)@, out@) == next(old(self)@, event@),
    {
        match self.phase {
            Phase::Ready => match event {
                Event::StopFlag(true) => self.stopped_by_user(true),
                _ => self.go(Phase::AwaitingHeader, no_notices(), Request::ReadUsb(16)),
            },
            Phase::AwaitingHeader => match event {
                Event::Data(Err(m)) => {
                    let n = log_notice(concat("Connection lost: ", m.as_str()), LogLevel::Warn);
                    self.go(Phase::Start, two_notices(n, Notice::Connection(false)), Request::PollStop)
                },
                Event::Data(Ok(b)) => match parse_header(b.as_slice()) {
                    None => self.go(Phase::Ready, no_notices(), Request::PollStop),
                    Some(h) => {
                        if h.cmd_id == CMD_ID_EXIT {
                            let n = log_notice(
                                String::from_str("Switch sent exit command"),
                                LogLevel::Info,
                            );
                            self.go(
                                Phase::ExitReply,
                                one_notice(n),
                                Request::WriteUsb(build_header(CMD_TYPE_RESPONSE, CMD_ID_EXIT, 0)),
                            )
                        } else if h.cmd_id == CMD_ID_LIST {
                            let payload = list_payload(&self.files);
                            let size = (payload.len() as u64 % 0x1_0000_0000) as u32;
                            let header = build_header(CMD_TYPE_RESPONSE, CMD_ID_LIST, size);
                            self.payload = payload;
                            let n = log_notice(
                                String::from_str("Switch requested file list"),
                                LogLevel::Info,
                            );
                            self.go(Phase::ListHeader, one_notice(n), Request::WriteUsb(header))
                        } else if h.cmd_id == CMD_ID_FILE_RANGE {
                            self.request_size = h.data_size;
                            let header = build_header(CMD_TYPE_ACK, CMD_ID_FILE_RANGE, h.data_size);
                            self.go(Phase::RangeAck, no_notices(), Request::WriteUsb(header))
                        } else {
                            let mut text = String::from_str("Unknown command: ");
                            push_decimal(&mut text, h.cmd_id as u64);
                            let n = log_notice(text, LogLevel::Warn);
                            self.go(Phase::Ready, one_notice(n), Request::PollStop)
                        }
                    },
                },
                _ => self.go(self.phase, no_notices(), Request::PollStop),
            },
            Phase::ExitReply => {
                let summary = self.stats.summary();
                let n = log_notice(summary.clone(), LogLevel::Success);
                self.go(
                    Phase::Finished,
                    two_notices(n, Notice::Connection(false)),
                    Request::Finish(StopReason::Completed(summary)),
                )
            },
            Phase::ListHeader => match event {
                Event::Done(Err(m)) => self.list_failed(&m),
                _ => {
                    if self.payload.len() as u64 % 0x1_0000_0000 > 0 {
                        self.go(Phase::ListAck, no_notices(), Request::ReadUsb(16))
                    } else {
                        self.list_sent()
                    }
                },
            },
            Phase::ListAck => match event {
                Event::Data(Err(m)) => self.list_failed(&m),
                _ => {
                    let body = self.payload.clone();
                    self.go(Phase::ListBody, no_notices(), Request::WriteUsb(body))
                },
            },
            Phase::ListBody => match event {
                Event::Done(Err(m)) => self.list_failed(&m),
                _ => self.list_sent(),
            },
            _ => match event {
                Event::StopFlag(true) => self.go(
                    Phase::Finished,
                    no_notices(),
                    Request::Finish(StopReason::UserStopped),
                ),
                _ => self.go(Phase::Start, no_notices(), Request::PollStop),
            },
        }
    }
}

impl Session {
    fn range_failed(&mut self, m: &str) -> (out: Step)
        ensures
            (final(self)@, out@) == range_failed(old(self)@, m@),
    {
        let n = log_notice(concat("Error: ", m), LogLevel::Error);
        self.go(Phase::RangeFailed, two_notices(n, Notice::Connection(false)), Request::PollStop)
    }

    /// The next chunk, or the end of the range.
    fn continue_range(&mut self, notices: Vec<Notice>) -> (out: Step)
        requires
            old(self)@.remaining == 0 ==> old(self)@.stats.files_transferred < u32::MAX
                && old(self)@.stats.total_bytes_sent + old(self)@.sent <= u64::MAX,
            old(self)@.sent <= u32::MAX,
        ensures
            (final(self)@, out@) == continue_range(old(self)@, notices@.map_values(|n: Notice| n@)),
    {
        if self.remaining > 0 {
            self.go(Phase::ChunkStop, notices, Request::PollStop)
        } else {
            self.stats.record(self.sent);
            let mut notices = notices;
            let ghost before = notices@.map_values(|n: Notice| n@);
            let ends_file = match self.file_len {
                Some(n) => n >= self.range_offset && n - self.range_offset == self.range_size as u64,
                None => false,
            };
            if self.range_offset == 0 || ends_file {
                let mut text = String::from_str("Completed: ");
                text.append(self.name.as_str());
                text.append(" (");
                let size = format_size(self.range_size as u64);
                text.append(size.as_str());
                text.append(")");
                let n = log_notice(text, LogLevel::Success);
                let ghost nv = n@;
                notices.push(n);
                proof {
                    assert(notices@.map_values(|n: Notice| n@) =~= before + seq![nv]);
                }
            } else {
                proof {
                    assert(before + Seq::<NoticeView>::empty() =~= before);
                }
            }
            self.go(Phase::Ready, notices, Request::PollStop)
        }
    }

    /// The steps of a file-range command.
    fn step_range(&mut self, event: Event) -> (out: Step)
        requires
            accepts(old(self)@.phase, event@),
            old(self)@.phase is RangeAck || old(self)@.phase is RangeRequest
                || old(self)@.phase is RangeReply || old(self)@.phase is RangeReplyAck
                || old(self)@.phase is FileOpening || old(self)@.phase is FileSeeking
                || old(self)@.phase is ChunkStop || old(self)@.phase is ChunkRead
                || old(self)@.phase is ChunkWrite,
            session_wf(old(self)@),
            step_safe(old(self)@),
        ensures
            (final(self)@, out@) == next(old(self)@, event@),
    {
        proof {
            if self.phase is ChunkStop {
                assert(self@.phase is ChunkStop);
            }
        }
        match self.phase {
            Phase::RangeAck => match event {
                Event::Done(Err(m)) => self.range_failed(m.as_str()),
                _ => {
                    let n = self.request_size as usize;
                    self.go(Phase::RangeRequest, no_notices(), Request::ReadUsb(n))
                },
            },
            Phase::RangeRequest => match event {
                Event::Data(Ok(b)) => match parse_file_range(b.as_slice()) {
                    None => self.range_failed("File range header too short"),
                    Some(req) => {
                        let mut text = String::from_str("Sending: ");
                        text.append(req.name.as_str());
                        text.append(" (offset=");
                        let offset_text = format_size(req.range_offset);
                        text.append(offset_text.as_str());
                        text.append(", size=");
                        let size_text = format_size(req.range_size as u64);
                        text.append(size_text.as_str());
                        text.append(")");
                        let n = log_notice(text, LogLevel::Info);
                        self.name = req.name;
                        self.range_size = req.range_size;
                        self.range_offset = req.range_offset;
                        self.sent = 0;
                        self.remaining = req.range_size as u64;
                        let header = build_header(
                            CMD_TYPE_RESPONSE,
                            CMD_ID_FILE_RANGE,
                            req.range_size,
                        );
                        self.go(Phase::RangeReply, one_notice(n), Request::WriteUsb(header))
                    },
                },
                Event::Data(Err(m)) => self.range_failed(m.as_str()),
                _ => self.go(self.phase, no_notices(), Request::PollStop),
            },
            Phase::RangeReply => match event {
                Event::Done(Err(m)) => self.range_failed(m.as_str()),
                _ => self.go(Phase::RangeReplyAck, no_notices(), Request::ReadUsb(16)),
            },
            Phase::RangeReplyAck => match event {
                Event::Data(Err(m)) => self.range_failed(m.as_str()),
                _ => {
                    let found = match self.files.get(&self.name) {
                        Some(path) => Some(path.clone()),
                        None => None,
                    };
                    match found {
                        Some(path) => self.go(Phase::FileOpening, no_notices(), Request::OpenFile(path)),
                        None => {
                            let m = concat("File not found: ", self.name.as_str());
                            self.range_failed(m.as_str())
                        },
                    }
                },
            },
            Phase::FileOpening => match event {
                Event::FileOpened(Err(m)) => {
                    let m = concat("Failed to open file: ", m.as_str());
                    self.range_failed(m.as_str())
                },
                Event::FileOpened(Ok(len)) => {
                    self.file_len = len;
                    let offset = self.range_offset;
                    self.go(Phase::FileSeeking, no_notices(), Request::SeekFile(offset))
                },
                _ => self.go(self.phase, no_notices(), Request::PollStop),
            },
            Phase::FileSeeking => match event {
                Event::Done(Err(m)) => {
                    let m = concat("Failed to seek: ", m.as_str());
                    self.range_failed(m.as_str())
                },
                _ => self.continue_range(no_notices()),
            },
            Phase::ChunkStop => match event {
                Event::StopFlag(true) => self.range_failed("Server stopped by user"),
                _ => {
                    let c = chunk_size(self.remaining);
                    self.chunk = c;
                    self.go(Phase::ChunkRead, no_notices(), Request::ReadFile(c))
                },
            },
            Phase::ChunkRead => match event {
                Event::Data(Ok(b)) => self.go(Phase::ChunkWrite, no_notices(), Request::WriteUsb(b)),
                Event::Data(Err(m)) => {
                    let m = concat("Failed to read file: ", m.as_str());
                    self.range_failed(m.as_str())
                },
                _ => self.go(self.phase, no_notices(), Request::PollStop),
            },
            _ => match event {
                Event::Done(Err(m)) => self.range_failed(m.as_str()),
                _ => {
                    self.sent = self.sent + self.chunk as u64;
                    self.remaining = self.remaining - self.chunk as u64;
                    let notices = if should_report_progress(self.sent, self.remaining) {
                        let file = self.name.clone();
                        one_notice(
                            Notice::Progress {
                                file,
                                bytes_sent: self.sent,
                                total_bytes: self.range_size as u64,
                            },
                        )
                    } else {
                        no_notices()
                    };
                    self.continue_range(notices)
                },
            },
        }
    }
}

/// Every step keeps a well-formed session well-formed: the file names stay
/// distinct, the bytes of the current range stay accounted for (sent plus
/// remaining is the range's size), a chunk in flight is never empty nor
/// larger than what remains, and the nap counter stays below ten.
pub proof fn law_step_keeps_well_formed(s: SessionView, e: EventView)
    requires
        session_wf(s),
        accepts(s.phase, e),
    ensures
        session_wf(next(s, e).0),
{
}

/// Whether the session polls the stop flag in this phase.
pub open spec fn polls_stop(p: Phase) -> bool {
    p is Start || p is Search || p is Idle || p is Ready || p is ChunkStop || p is RangeFailed
}

/// A raised stop flag is obeyed: wherever the session polls the flag, a
/// raised flag ends the session as stopped by the user at once, except in
/// the middle of a range, where the range fails first and the next poll
/// (with the flag still raised) ends the session.
pub proof fn law_stop_is_honoured(s: SessionView)
    requires
        polls_stop(s.phase),
    ensures
        !(s.phase is ChunkStop) ==> next(s, EventView::StopFlag(true)).1.request == RequestView::Finish(
            StopReasonView::UserStopped,
        ),
        s.phase is ChunkStop ==> {
            let (s2, o) = next(s, EventView::StopFlag(true));
            &&& s2.phase is RangeFailed
            &&& o.request == RequestView::PollStop
            &&& next(s2, EventView::StopFlag(true)).1.request == RequestView::Finish(
                StopReasonView::UserStopped,
            )
        },
{
}

/// The session ends as completed only on the Switch's exit command, and
/// then with the summary of its statistics.
pub proof fn law_completion_carries_summary(s: SessionView, e: EventView, text: Seq<char>)
    requires
        next(s, e).1.request == RequestView::Finish(StopReasonView::Completed(text)),
    ensures
        s.phase is ExitReply,
        text == summary_text(s.stats.files_transferred as nat, s.stats.total_bytes_sent as nat),
{
}

/// The statistics change only when a file range has been sent in full:
/// one more range, and its whole size added to the bytes sent.
pub proof fn law_stats_count_whole_ranges(s: SessionView, e: EventView)
    requires
        session_wf(s),
        step_safe(s),
        accepts(s.phase, e),
    ensures
        ({
            let s2 = next(s, e).0;
            ||| s2.stats == s.stats
            ||| {
                &&& s.phase is FileSeeking || s.phase is ChunkWrite
                &&& s2.phase is Ready
                &&& s2.sent == s.range_size
                &&& s2.stats.files_transferred == s.stats.files_transferred + 1
                &&& s2.stats.total_bytes_sent == s.stats.total_bytes_sent + s.range_size
            }
        }),
{
}

/// What the session writes to the Switch is a well-formed reply header (of
/// type response or acknowledgement), the file-list reply, or file data
/// just read.
pub proof fn law_writes_are_framed(s: SessionView, e: EventView, b: Seq<u8>)
    requires
        accepts(s.phase, e),
        next(s, e).1.request == RequestView::WriteUsb(b),
    ensures
        ({
            ||| parse_header_spec(b) matches Some(h) && (h.cmd_type == CMD_TYPE_RESPONSE
                || h.cmd_type == CMD_TYPE_ACK)
            ||| s.phase is ListAck && b == s.payload
            ||| s.phase is ChunkRead && e == EventView::Data(Ok(b))
        }),
{
    if s.phase is AwaitingHeader || s.phase is RangeRequest {
        match e {
            EventView::Data(Ok(d)) => {
                if s.phase is AwaitingHeader {
                    let h = parse_header_spec(d)->0;
                    if h.cmd_id == CMD_ID_EXIT {
                        crate::protocol::law_header_roundtrip(CMD_TYPE_RESPONSE, CMD_ID_EXIT, 0);
                    } else if h.cmd_id == CMD_ID_LIST {
                        let payload = encode_utf8(names_text(entry_names(s.files)));
                        crate::protocol::law_header_roundtrip(
                            CMD_TYPE_RESPONSE,
                            CMD_ID_LIST,
                            (payload.len() % 0x1_0000_0000) as u32,
                        );
                    } else {
                        crate::protocol::law_header_roundtrip(
                            CMD_TYPE_ACK,
                            CMD_ID_FILE_RANGE,
                            h.data_size,
                        );
                    }
                } else {
                    crate::protocol::law_header_roundtrip(
                        CMD_TYPE_RESPONSE,
                        CMD_ID_FILE_RANGE,
                        spec_u32_from_le_bytes(d.subrange(0, 4)),
                    );
                }
            },
            _ => {},
        }
    }
}

/// File data is read in chunks of at most 1 MiB, never empty and never
/// past the end of the range.
pub proof fn law_chunks_fit(s: SessionView, e: EventView, n: usize)
    requires
        session_wf(s),
        accepts(s.phase, e),
        next(s, e).1.request == RequestView::ReadFile(n),
    ensures
        0 < n <= BUFFER_SEGMENT_DATA_SIZE,
        n <= s.remaining,
{
}

/// A header without the magic changes nothing: the session goes back to
/// waiting between commands.
pub proof fn law_bad_header_ignored(s: SessionView, b: Seq<u8>)
    requires
        s.phase is AwaitingHeader,
        parse_header_spec(b) is None,
    ensures
        next(s, EventView::Data(Ok(b))).0 == (SessionView { phase: Phase::Ready, ..s }),
        next(s, EventView::Data(Ok(b))).1.notices.len() == 0,
        next(s, EventView::Data(Ok(b))).1.request == RequestView::PollStop,
{
}

/// The session after the events `es`, one step each.
pub open spec fn run(s: SessionView, es: Seq<EventView>) -> SessionView
    decreases es.len(),
{
    if es.len() == 0 {
        s
    } else {
        run(next(s, es[0]).0, es.drop_first())
    }
}

/// The events `es` can be handed to the session one after another: each
/// is of the kind the session waits for, and no step overflows the totals.
pub open spec fn valid_trace(s: SessionView, es: Seq<EventView>) -> bool
    decreases es.len(),
{
    es.len() == 0 || {
        &&& accepts(s.phase, es[0])
        &&& step_safe(s)
        &&& valid_trace(next(s, es[0]).0, es.drop_first())
    }
}

/// The step on `e` completes the current range.
pub open spec fn completes_range(s: SessionView, e: EventView) -> bool {
    may_record(s) && e == EventView::Done(Ok(()))
}

/// How many ranges the events `es` complete.
pub open spec fn ranges_completed(s: SessionView, es: Seq<EventView>) -> nat
    decreases es.len(),
{
    if es.len() == 0 {
        0
    } else {
        (if completes_range(s, es[0]) {
            1nat
        } else {
            0nat
        }) + ranges_completed(next(s, es[0]).0, es.drop_first())
    }
}

/// How many bytes the ranges that the events `es` complete hold.
pub open spec fn bytes_completed(s: SessionView, es: Seq<EventView>) -> nat
    decreases es.len(),
{
    if es.len() == 0 {
        0
    } else {
        (if completes_range(s, es[0]) {
            s.range_size as nat
        } else {
            0nat
        }) + bytes_completed(next(s, es[0]).0, es.drop_first())
    }
}

proof fn lemma_step_stats(s: SessionView, e: EventView)
    requires
        session_wf(s),
        step_safe(s),
        accepts(s.phase, e),
    ensures
        completes_range(s, e) ==> next(s, e).0.stats.files_transferred
            == s.stats.files_transferred + 1 && next(s, e).0.stats.total_bytes_sent
            == s.stats.total_bytes_sent + s.range_size,
        !completes_range(s, e) ==> next(s, e).0.stats == s.stats,
{
    match e {
        EventView::Done(Ok(u)) => {
            assert(e == EventView::Done(Ok(())));
        },
        _ => {},
    }
}

/// The totals count every range completed during the whole session, across
/// any number of lost connections and reconnections: after any events,
/// the ranges counted grew by the ranges those events completed, and the
/// bytes counted by their sizes.
pub proof fn law_totals_span_the_session(s: SessionView, es: Seq<EventView>)
    requires
        session_wf(s),
        valid_trace(s, es),
    ensures
        run(s, es).stats.files_transferred == s.stats.files_transferred + ranges_completed(s, es),
        run(s, es).stats.total_bytes_sent == s.stats.total_bytes_sent + bytes_completed(s, es),
        session_wf(run(s, es)),
    decreases es.len(),
{
    if es.len() > 0 {
        lemma_step_stats(s, es[0]);
        law_step_keeps_well_formed(s, es[0]);
        law_totals_span_the_session(next(s, es[0]).0, es.drop_first());
    }
}

/// When the Switch ends the session, the summary counts every range
/// completed since the session began, whatever reconnections came between.
pub proof fn law_summary_spans_the_session(s: SessionView, es: Seq<EventView>, e: EventView, text: Seq<char>)
    requires
        session_wf(s),
        valid_trace(s, es),
        next(run(s, es), e).1.request == RequestView::Finish(StopReasonView::Completed(text)),
    ensures
        text == summary_text(
            (s.stats.files_transferred + ranges_completed(s, es)) as nat,
            (s.stats.total_bytes_sent + bytes_completed(s, es)) as nat,
        ),
{
    law_totals_span_the_session(s, es);
    law_completion_carries_summary(run(s, es), e, text);
}

/// A range that completes is logged as completed, with its name and size,
/// exactly when it started at offset 0 or ended where its file ends.
pub proof fn law_completion_logged(s: SessionView, e: EventView)
    requires
        session_wf(s),
        completes_range(s, e),
    ensures
        (s.range_offset == 0 || ends_file(s)) ==> next(s, e).1.notices.last() == log(
            completed_text(s.name, s.range_size),
            LogLevel::Success,
        ),
        !(s.range_offset == 0 || ends_file(s)) ==> forall|i: int|
            0 <= i < next(s, e).1.notices.len() ==> !(#[trigger] next(s, e).1.notices[i] is Log),
{
}

/// The session ends only as stopped by the user, or, right after the reply
/// to the Switch's exit command, as completed; it never ends in error.
pub proof fn law_finish_reasons(s: SessionView, e: EventView, r: StopReasonView)
    requires
        accepts(s.phase, e),
        next(s, e).1.request == RequestView::Finish(r),
    ensures
        r == StopReasonView::UserStopped || (s.phase is ExitReply && r is Completed),
{
}

/// The files a session serves stay those it was started with, whatever
/// happens to the list it was copied from: every step, and so every run of
/// steps, keeps them.
pub proof fn law_served_files_fixed(s: SessionView, es: Seq<EventView>)
    ensures
        run(s, es).files == s.files,
    decreases es.len(),
{
    if es.len() > 0 {
        law_served_files_fixed(next(s, es[0]).0, es.drop_first());
    }
}

/// A range is read from the offset its request names: after the request
/// bytes `b`, the reply, the Switch's acknowledgement and the opening of the
/// file served under the requested name, the session opens that file's path
/// and seeks to the little-endian offset in bytes 4..12 of `b`.
pub proof fn law_range_read_from_its_offset(
    s: SessionView,
    b: Seq<u8>,
    ack: Seq<u8>,
    len: Option<u64>,
)
    requires
        s.phase is RangeRequest,
        b.len() >= 16,
        entries_map(s.files).dom().contains(utf8_lossy(b.subrange(16, b.len() as int))),
    ensures
        ({
            let s1 = next(s, EventView::Data(Ok(b))).0;
            let s2 = next(s1, EventView::Done(Ok(()))).0;
            let (s3, o3) = next(s2, EventView::Data(Ok(ack)));
            let o4 = next(s3, EventView::FileOpened(Ok(len))).1;
            &&& o3.request == RequestView::OpenFile(
                entries_map(s.files)[utf8_lossy(b.subrange(16, b.len() as int))],
            )
            &&& o4.request == RequestView::SeekFile(spec_u64_from_le_bytes(b.subrange(4, 12)))
        }),
{
}

/// The reply to the list command announces, as its data size, the number of
/// bytes of the list that follows it (modulo 2^32): the UTF-8 of every
/// served name with a newline; and after the Switch's acknowledgement it is
/// exactly those bytes that are written.
pub proof fn law_list_header_announces_its_bytes(s: SessionView, b: Seq<u8>, ack: Seq<u8>)
    requires
        s.phase is AwaitingHeader,
        parse_header_spec(b) matches Some(h) && h.cmd_id == 3,
    ensures
        ({
            let bytes = encode_utf8(names_text(entry_names(s.files)));
            let (s1, o1) = next(s, EventView::Data(Ok(b)));
            &&& o1.request == RequestView::WriteUsb(
                header_bytes(1, 3, (bytes.len() % 0x1_0000_0000) as u32),
            )
            &&& parse_header_spec(header_bytes(1, 3, (bytes.len() % 0x1_0000_0000) as u32))
                == Some(
                CommandHeader { cmd_type: 1, cmd_id: 3, data_size: (bytes.len() % 0x1_0000_0000) as u32 },
            )
            &&& bytes.len() % 0x1_0000_0000 > 0 ==> {
                let s2 = next(s1, EventView::Done(Ok(()))).0;
                next(s2, EventView::Data(Ok(ack))).1.request == RequestView::WriteUsb(bytes)
            }
        }),
{
    let bytes = encode_utf8(names_text(entry_names(s.files)));
    crate::protocol::law_header_roundtrip(1, 3, (bytes.len() % 0x1_0000_0000) as u32);
}

/// How many steps, at most, the session takes to end once every poll of
/// the stop flag finds it raised.
pub open spec fn stop_bound(p: Phase) -> nat {
    match p {
        Phase::Finished => 0,
        Phase::Start | Phase::Search | Phase::Idle(_) | Phase::Ready | Phase::RangeFailed
        | Phase::ExitReply => 1,
        Phase::ChunkStop | Phase::Napping(_) | Phase::Backoff(_) | Phase::ListBody => 2,
        Phase::OpeningOut | Phase::ListAck | Phase::ChunkWrite | Phase::FileSeeking => 3,
        Phase::OpeningIn | Phase::ListHeader | Phase::ChunkRead | Phase::FileOpening => 4,
        Phase::Claiming | Phase::RangeReplyAck => 5,
        Phase::OpeningDevice | Phase::RangeReply => 6,
        Phase::ListingDevices | Phase::RangeRequest => 7,
        Phase::RangeAck => 8,
        Phase::AwaitingHeader => 9,
    }
}

/// The event reports a raised stop flag, if it reports the flag at all.
pub open spec fn stop_raised(e: EventView) -> bool {
    e is StopFlag ==> e == EventView::StopFlag(true)
}

/// With the stop flag raised, every step brings the session closer to its
/// end, and a raised flag never lets file data be read.
pub proof fn law_stop_step_progresses(s: SessionView, e: EventView)
    requires
        accepts(s.phase, e),
        stop_raised(e),
    ensures
        next(s, e).0.phase is Finished || stop_bound(next(s, e).0.phase) < stop_bound(s.phase),
        stop_bound(s.phase) > 0,
        !(next(s, e).1.request is ReadFile),
{
}

/// Once the stop flag stays raised, the session ends within nine more
/// steps, whatever the other requests report: no sequence of events that
/// the session accepts, with every poll finding the flag raised, is longer
/// than the bound of the phase it starts in, which is at most nine.
pub proof fn law_raised_stop_ends_session(s: SessionView, es: Seq<EventView>)
    requires
        valid_trace(s, es),
        forall|i: int| 0 <= i < es.len() ==> stop_raised(#[trigger] es[i]),
    ensures
        es.len() <= stop_bound(s.phase) <= 9,
        forall|i: int| 0 <= i < es.len() ==> !(next(run(s, es.take(i)), es[i]).1.request is ReadFile),
    decreases es.len(),
{
    assert(stop_bound(s.phase) <= 9);
    if es.len() > 0 {
        let s2 = next(s, es[0]).0;
        let rest = es.drop_first();
        law_stop_step_progresses(s, es[0]);
        assert(valid_trace(s2, rest));
        assert forall|i: int| 0 <= i < rest.len() implies stop_raised(#[trigger] rest[i]) by {
            assert(rest[i] == es[i + 1]);
        }
        if s2.phase is Finished {
            if rest.len() > 0 {
                assert(!accepts(s2.phase, rest[0]));
            }
        } else {
            law_raised_stop_ends_session(s2, rest);
        }
        assert forall|i: int| 0 <= i < es.len() implies !(next(run(s, es.take(i)), es[i]).1.request is ReadFile) by {
            if i == 0 {
                assert(es.take(0) =~= Seq::<EventView>::empty());
            } else {
                assert(es.take(i).drop_first() =~= rest.take(i - 1));
                assert(es.take(i)[0] == es[0]);
                assert(rest[i - 1] == es[i]);
                if s2.phase is Finished {
                    assert(false);
                }
            }
        }
    }
}

impl Session {
    /// Performs one step of the protocol: consumes the outcome of the last
    /// request and returns the notices to show and the next request.
    pub fn step(&mut self, event: Event) -> (out: Step)
        requires
            session_wf(old(self)@),
            step_safe(old(self)@),
            accepts(old(self)@.phase, event@),
        ensures
            session_wf(final(self)@),
            (final(self)@, out@) == next(old(self)@, event@),
    {
        proof {
            law_step_keeps_well_formed(self@, event@);
        }
        match self.phase {
            Phase::Start | Phase::Search | Phase::ListingDevices | Phase::OpeningDevice
            | Phase::Idle(_) | Phase::Napping(_) | Phase::Backoff(_) | Phase::Claiming
            | Phase::OpeningIn | Phase::OpeningOut => self.step_connect(event),
            Phase::Ready | Phase::AwaitingHeader | Phase::ExitReply | Phase::ListHeader
            | Phase::ListAck | Phase::ListBody | Phase::RangeFailed => self.step_command(event),
            _ => self.step_range(event),
        }
    }
}

} // verus!

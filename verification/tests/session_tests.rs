use dbi_backend::files::FileList;
use dbi_backend::protocol::build_header;
use dbi_backend::session::{
    Event, LogLevel, Notice, Phase, Request, Session, StopReason, UsbDevice,
};

fn log(message: &str, level: LogLevel) -> Notice {
    Notice::Log { message: message.to_string(), level }
}

fn served() -> FileList {
    let mut files = FileList::new();
    files.insert("game.nsp".to_string(), "/tmp/game.nsp".to_string());
    files
}

fn step(session: &mut Session, event: Event) -> (Vec<Notice>, Request) {
    assert!(session.accepts(&event), "{:?} in {:?}", event, session.phase());
    assert!(session.counts_safely());
    let out = session.step(event);
    (out.notices, out.request)
}

fn ok() -> Event {
    Event::Done(Ok(()))
}

fn opened(len: Option<u64>) -> Event {
    Event::FileOpened(Ok(len))
}

fn data(b: Vec<u8>) -> Event {
    Event::Data(Ok(b))
}

fn connect(session: &mut Session) {
    let (n, r) = step(session, Event::StopFlag(false));
    assert_eq!(n, vec![log("Waiting for Switch...", LogLevel::Info), Notice::Connection(false)]);
    assert_eq!(r, Request::PollStop);
    let (_, r) = step(session, Event::StopFlag(false));
    assert_eq!(r, Request::ListDevices);
    let devices = vec![
        UsbDevice { vendor_id: 0x1234, product_id: 0x3000 },
        UsbDevice { vendor_id: 0x057E, product_id: 0x3000 },
    ];
    let (_, r) = step(session, Event::Devices(Ok(devices)));
    assert_eq!(r, Request::OpenDevice(1));
    assert_eq!(step(session, ok()).1, Request::ClaimInterface);
    assert_eq!(step(session, ok()).1, Request::OpenInEndpoint);
    assert_eq!(step(session, ok()).1, Request::OpenOutEndpoint);
    let (n, r) = step(session, ok());
    assert_eq!(n, vec![log("Switch connected!", LogLevel::Success), Notice::Connection(true)]);
    assert_eq!(r, Request::PollStop);
}

fn range_request(size: u32, offset: u64, name: &str) -> Vec<u8> {
    let mut b = Vec::new();
    b.extend_from_slice(&size.to_le_bytes());
    b.extend_from_slice(&offset.to_le_bytes());
    b.extend_from_slice(&(name.len() as u32).to_le_bytes());
    b.extend_from_slice(name.as_bytes());
    b
}

#[test]
fn full_session_list_range_exit() {
    let (mut s, first) = Session::new(served());
    assert_eq!(first.request, Request::PollStop);
    assert!(first.notices.is_empty());
    connect(&mut s);

    // The Switch asks for the list.
    assert_eq!(step(&mut s, Event::StopFlag(false)).1, Request::ReadUsb(16));
    let (n, r) = step(&mut s, data(build_header(0, 3, 0)));
    assert_eq!(n, vec![log("Switch requested file list", LogLevel::Info)]);
    assert_eq!(r, Request::WriteUsb(build_header(1, 3, 9)));
    assert_eq!(step(&mut s, ok()).1, Request::ReadUsb(16));
    assert_eq!(step(&mut s, data(vec![0; 16])).1, Request::WriteUsb(b"game.nsp\n".to_vec()));
    let (n, r) = step(&mut s, ok());
    assert_eq!(n, vec![log("Sent file list (1 files)", LogLevel::Success)]);
    assert_eq!(r, Request::PollStop);

    // Then a range of three bytes from the start of the file.
    assert_eq!(step(&mut s, Event::StopFlag(false)).1, Request::ReadUsb(16));
    let req = range_request(3, 0, "game.nsp");
    let (n, r) = step(&mut s, data(build_header(0, 2, req.len() as u32)));
    assert!(n.is_empty());
    assert_eq!(r, Request::WriteUsb(build_header(2, 2, 24)));
    assert_eq!(step(&mut s, ok()).1, Request::ReadUsb(24));
    let (n, r) = step(&mut s, data(req));
    assert_eq!(n, vec![log("Sending: game.nsp (offset=0 B, size=3 B)", LogLevel::Info)]);
    assert_eq!(r, Request::WriteUsb(build_header(1, 2, 3)));
    assert_eq!(step(&mut s, ok()).1, Request::ReadUsb(16));
    assert_eq!(step(&mut s, data(vec![0; 16])).1, Request::OpenFile("/tmp/game.nsp".to_string()));
    assert_eq!(step(&mut s, opened(Some(3))).1, Request::SeekFile(0));
    assert_eq!(step(&mut s, ok()).1, Request::PollStop);
    assert_eq!(step(&mut s, Event::StopFlag(false)).1, Request::ReadFile(3));
    assert_eq!(step(&mut s, data(vec![7, 8, 9])).1, Request::WriteUsb(vec![7, 8, 9]));
    let (n, r) = step(&mut s, ok());
    assert_eq!(
        n,
        vec![
            Notice::Progress { file: "game.nsp".to_string(), bytes_sent: 3, total_bytes: 3 },
            log("Completed: game.nsp (3 B)", LogLevel::Success),
        ]
    );
    assert_eq!(r, Request::PollStop);
    assert_eq!(s.stats().files_transferred, 1);
    assert_eq!(s.stats().total_bytes_sent, 3);

    // And exits.
    assert_eq!(step(&mut s, Event::StopFlag(false)).1, Request::ReadUsb(16));
    let (n, r) = step(&mut s, data(build_header(0, 0, 0)));
    assert_eq!(n, vec![log("Switch sent exit command", LogLevel::Info)]);
    assert_eq!(r, Request::WriteUsb(build_header(1, 0, 0)));
    let (n, r) = step(&mut s, Event::Done(Err("USB write error: gone".to_string())));
    assert_eq!(
        n,
        vec![log("Transferred 1 file (3 B)", LogLevel::Success), Notice::Connection(false)]
    );
    assert_eq!(r, Request::Finish(StopReason::Completed("Transferred 1 file (3 B)".to_string())));
    assert_eq!(s.phase(), Phase::Finished);
}

#[test]
fn large_range_goes_in_chunks_with_progress() {
    let (mut s, _) = Session::new(served());
    connect(&mut s);
    let size: u32 = 0x500000 + 10;
    assert_eq!(step(&mut s, Event::StopFlag(false)).1, Request::ReadUsb(16));
    let req = range_request(size, 0x2000, "game.nsp");
    step(&mut s, data(build_header(0, 2, req.len() as u32)));
    step(&mut s, ok());
    let (n, _) = step(&mut s, data(req));
    assert_eq!(n, vec![log("Sending: game.nsp (offset=8.0 KB, size=5.0 MB)", LogLevel::Info)]);
    step(&mut s, ok());
    step(&mut s, data(vec![0; 16]));
    step(&mut s, opened(Some(0x2000 + size as u64 + 1)));
    assert_eq!(step(&mut s, ok()).1, Request::PollStop);
    let mut progress = Vec::new();
    let mut sent: u64 = 0;
    loop {
        let r = step(&mut s, Event::StopFlag(false)).1;
        let n = match r {
            Request::ReadFile(n) => n,
            other => panic!("unexpected {other:?}"),
        };
        assert!(n <= 0x100000);
        step(&mut s, data(vec![1; n]));
        sent += n as u64;
        let (notices, r) = step(&mut s, ok());
        for x in notices {
            match x {
                Notice::Progress { bytes_sent, total_bytes, .. } => {
                    assert_eq!(total_bytes, size as u64);
                    progress.push(bytes_sent);
                }
                Notice::Log { message, .. } => panic!("unexpected log {message}"),
                Notice::Connection(_) => panic!("unexpected connection notice"),
            }
        }
        assert_eq!(r, Request::PollStop);
        if s.phase() == Phase::Ready {
            break;
        }
    }
    assert_eq!(sent, size as u64);
    assert_eq!(progress, vec![0x400000, size as u64]);
    assert_eq!(s.stats().total_bytes_sent, size as u64);
}

#[test]
fn stop_during_transfer() {
    let (mut s, _) = Session::new(served());
    connect(&mut s);
    step(&mut s, Event::StopFlag(false));
    let req = range_request(10, 0, "game.nsp");
    step(&mut s, data(build_header(0, 2, req.len() as u32)));
    step(&mut s, ok());
    step(&mut s, data(req));
    step(&mut s, ok());
    step(&mut s, data(vec![0; 16]));
    step(&mut s, opened(Some(10)));
    step(&mut s, ok());
    let (n, r) = step(&mut s, Event::StopFlag(true));
    assert_eq!(
        n,
        vec![log("Error: Server stopped by user", LogLevel::Error), Notice::Connection(false)]
    );
    assert_eq!(r, Request::PollStop);
    let (n, r) = step(&mut s, Event::StopFlag(true));
    assert!(n.is_empty());
    assert_eq!(r, Request::Finish(StopReason::UserStopped));
}

#[test]
fn stop_before_connecting() {
    let (mut s, _) = Session::new(served());
    let (n, r) = step(&mut s, Event::StopFlag(true));
    assert_eq!(n, vec![log("Server stopped by user", LogLevel::Warn), Notice::Connection(false)]);
    assert_eq!(r, Request::Finish(StopReason::UserStopped));
}

#[test]
fn no_switch_naps_then_searches_again() {
    let (mut s, _) = Session::new(served());
    step(&mut s, Event::StopFlag(false));
    step(&mut s, Event::StopFlag(false));
    let (_, r) = step(&mut s, Event::Devices(Ok(vec![])));
    assert_eq!(r, Request::PollStop);
    for _ in 0..10 {
        assert_eq!(step(&mut s, Event::StopFlag(false)).1, Request::Sleep(100));
        assert_eq!(step(&mut s, Event::Slept).1, Request::PollStop);
    }
    assert_eq!(s.phase(), Phase::Search);
    let (n, r) = step(&mut s, Event::StopFlag(true));
    assert_eq!(n, vec![log("Server stopped by user", LogLevel::Warn)]);
    assert_eq!(r, Request::Finish(StopReason::UserStopped));
}

#[test]
fn enumeration_and_setup_failures_back_off() {
    let (mut s, _) = Session::new(served());
    step(&mut s, Event::StopFlag(false));
    step(&mut s, Event::StopFlag(false));
    let (n, r) = step(&mut s, Event::Devices(Err("busy".to_string())));
    assert_eq!(n, vec![log("USB enumeration error: busy", LogLevel::Error)]);
    assert_eq!(r, Request::Sleep(2000));
    step(&mut s, Event::Slept);
    assert_eq!(s.phase(), Phase::Search);
    step(&mut s, Event::StopFlag(false));
    step(&mut s, Event::Devices(Ok(vec![UsbDevice { vendor_id: 0x057E, product_id: 0x3000 }])));
    step(&mut s, ok());
    let (n, r) = step(&mut s, Event::Done(Err("denied".to_string())));
    assert_eq!(n, vec![log("Failed to claim interface: denied", LogLevel::Error)]);
    assert_eq!(r, Request::Sleep(2000));
    step(&mut s, Event::Slept);
    assert_eq!(s.phase(), Phase::Start);
}

#[test]
fn unknown_and_malformed_commands() {
    let (mut s, _) = Session::new(served());
    connect(&mut s);
    step(&mut s, Event::StopFlag(false));
    let (n, r) = step(&mut s, data(vec![0; 16]));
    assert!(n.is_empty());
    assert_eq!(r, Request::PollStop);
    step(&mut s, Event::StopFlag(false));
    let (n, r) = step(&mut s, data(build_header(0, 7, 0)));
    assert_eq!(n, vec![log("Unknown command: 7", LogLevel::Warn)]);
    assert_eq!(r, Request::PollStop);
    assert_eq!(s.phase(), Phase::Ready);
}

#[test]
fn missing_file_fails_the_range_and_reconnects() {
    let (mut s, _) = Session::new(served());
    connect(&mut s);
    step(&mut s, Event::StopFlag(false));
    let req = range_request(10, 0, "other.nsp");
    step(&mut s, data(build_header(0, 2, req.len() as u32)));
    step(&mut s, ok());
    step(&mut s, data(req));
    step(&mut s, ok());
    let (n, r) = step(&mut s, data(vec![0; 16]));
    assert_eq!(
        n,
        vec![log("Error: File not found: other.nsp", LogLevel::Error), Notice::Connection(false)]
    );
    assert_eq!(r, Request::PollStop);
    let (_, r) = step(&mut s, Event::StopFlag(false));
    assert_eq!(r, Request::PollStop);
    assert_eq!(s.phase(), Phase::Start);
}

#[test]
fn short_range_request_and_lost_connection() {
    let (mut s, _) = Session::new(served());
    connect(&mut s);
    step(&mut s, Event::StopFlag(false));
    step(&mut s, data(build_header(0, 2, 8)));
    assert_eq!(step(&mut s, ok()).1, Request::ReadUsb(8));
    let (n, _) = step(&mut s, data(vec![0; 8]));
    assert_eq!(
        n,
        vec![log("Error: File range header too short", LogLevel::Error), Notice::Connection(false)]
    );
    step(&mut s, Event::StopFlag(false));
    connect(&mut s);
    step(&mut s, Event::StopFlag(false));
    let (n, r) = step(&mut s, Event::Data(Err("USB read error: timeout".to_string())));
    assert_eq!(
        n,
        vec![log("Connection lost: USB read error: timeout", LogLevel::Warn), Notice::Connection(false)]
    );
    assert_eq!(r, Request::PollStop);
    assert_eq!(s.phase(), Phase::Start);
}

#[test]
fn empty_list_skips_the_acknowledgement() {
    let (mut s, _) = Session::new(FileList::new());
    connect(&mut s);
    step(&mut s, Event::StopFlag(false));
    let (_, r) = step(&mut s, data(build_header(0, 3, 0)));
    assert_eq!(r, Request::WriteUsb(build_header(1, 3, 0)));
    let (n, r) = step(&mut s, ok());
    assert_eq!(n, vec![log("Sent file list (0 files)", LogLevel::Success)]);
    assert_eq!(r, Request::PollStop);
}

#[test]
fn level_names() {
    assert_eq!(LogLevel::Info.name(), "info");
    assert_eq!(LogLevel::Success.name(), "success");
    assert_eq!(LogLevel::Warn.name(), "warn");
    assert_eq!(LogLevel::Error.name(), "error");
}

fn send_range(s: &mut Session, name: &str, size: u32) {
    assert_eq!(step(s, Event::StopFlag(false)).1, Request::ReadUsb(16));
    let req = range_request(size, 0, name);
    step(s, data(build_header(0, 2, req.len() as u32)));
    step(s, ok());
    step(s, data(req));
    step(s, ok());
    step(s, data(vec![0; 16]));
    step(s, opened(Some(size as u64)));
    assert_eq!(step(s, ok()).1, Request::PollStop);
    let n = match step(s, Event::StopFlag(false)).1 {
        Request::ReadFile(n) => n,
        other => panic!("unexpected {other:?}"),
    };
    step(s, data(vec![0; n]));
    step(s, ok());
    assert_eq!(s.phase(), Phase::Ready);
}

#[test]
fn totals_survive_reconnection() {
    let mut files = served();
    files.insert("other.xci".to_string(), "/tmp/other.xci".to_string());
    let (mut s, _) = Session::new(files);
    connect(&mut s);
    send_range(&mut s, "game.nsp", 1000);
    step(&mut s, Event::StopFlag(false));
    step(&mut s, Event::Data(Err("USB read error: reset".to_string())));
    assert_eq!(s.phase(), Phase::Start);
    connect(&mut s);
    send_range(&mut s, "other.xci", 2000);
    step(&mut s, Event::StopFlag(false));
    step(&mut s, data(build_header(0, 0, 0)));
    let (_, r) = step(&mut s, ok());
    assert_eq!(r, Request::Finish(StopReason::Completed("Transferred 2 files (2.9 KB)".to_string())));
}

#[test]
fn raised_flag_ends_a_session_that_is_awaiting_a_header() {
    let (mut s, _) = Session::new(served());
    connect(&mut s);
    step(&mut s, Event::StopFlag(false));
    let req = range_request(10, 0, "game.nsp");
    let mut steps = 0;
    step(&mut s, data(build_header(0, 2, req.len() as u32)));
    steps += 1;
    for event in [ok(), data(req), ok(), data(vec![0; 16]), opened(None), ok()] {
        let (_, r) = step(&mut s, event);
        steps += 1;
        assert!(!matches!(r, Request::ReadFile(_)));
    }
    step(&mut s, Event::StopFlag(true));
    let (_, r) = step(&mut s, Event::StopFlag(true));
    steps += 2;
    assert_eq!(r, Request::Finish(StopReason::UserStopped));
    assert!(steps <= 9);
}

#[test]
fn counting_is_guarded_only_where_a_range_completes() {
    let (mut s, _) = Session::new(served());
    assert!(s.counts_safely());
    connect(&mut s);
    assert!(s.counts_safely());
}

fn range_to_completion(s: &mut Session, offset: u64, size: u32, file_len: Option<u64>) -> Vec<Notice> {
    step(s, Event::StopFlag(false));
    let req = range_request(size, offset, "game.nsp");
    step(s, data(build_header(0, 2, req.len() as u32)));
    step(s, ok());
    step(s, data(req));
    step(s, ok());
    step(s, data(vec![0; 16]));
    step(s, opened(file_len));
    step(s, ok());
    step(s, Event::StopFlag(false));
    step(s, data(vec![0; size as usize]));
    let (n, r) = step(s, ok());
    assert_eq!(r, Request::PollStop);
    n
}

#[test]
fn last_range_of_a_file_is_logged_as_completed() {
    let (mut s, _) = Session::new(served());
    connect(&mut s);
    let n = range_to_completion(&mut s, 100, 50, Some(150));
    assert_eq!(
        n,
        vec![
            Notice::Progress { file: "game.nsp".to_string(), bytes_sent: 50, total_bytes: 50 },
            log("Completed: game.nsp (50 B)", LogLevel::Success),
        ]
    );
}

#[test]
fn middle_range_of_a_file_is_not_logged_as_completed() {
    let (mut s, _) = Session::new(served());
    connect(&mut s);
    let n = range_to_completion(&mut s, 100, 50, Some(151));
    assert_eq!(
        n,
        vec![Notice::Progress { file: "game.nsp".to_string(), bytes_sent: 50, total_bytes: 50 }]
    );
    let n = range_to_completion(&mut s, 100, 50, None);
    assert_eq!(n.len(), 1);
    assert_eq!(s.stats().files_transferred, 2);
}

#[test]
fn file_that_cannot_be_opened_fails_the_range() {
    let (mut s, _) = Session::new(served());
    connect(&mut s);
    step(&mut s, Event::StopFlag(false));
    let req = range_request(10, 0, "game.nsp");
    step(&mut s, data(build_header(0, 2, req.len() as u32)));
    step(&mut s, ok());
    step(&mut s, data(req));
    step(&mut s, ok());
    assert_eq!(step(&mut s, data(vec![0; 16])).1, Request::OpenFile("/tmp/game.nsp".to_string()));
    assert!(!s.accepts(&ok()));
    let (n, r) = step(&mut s, Event::FileOpened(Err("denied".to_string())));
    assert_eq!(
        n,
        vec![log("Error: Failed to open file: denied", LogLevel::Error), Notice::Connection(false)]
    );
    assert_eq!(r, Request::PollStop);
}

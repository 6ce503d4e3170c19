//! The wire protocol: framing, round trips, and the connection state
//! machine.
use asbestos::path::VfsPath;
use asbestos::protocol::{
    Connection, LogLevel, LogMessage, Message, ProcessSpawned, ProtocolError, StartupInfo,
};
use asbestos::vfs::{Mapping, MappingFrom, MappingKind, MappingTo, Mappings};

fn sample_mappings() -> Mappings {
    Mappings {
        mappings: vec![
            Mapping {
                kind: MappingKind::Redirect,
                from: MappingFrom::Folder(VfsPath::parse("C:/mods/ml")),
                to: MappingTo::Folder(VfsPath::parse("C:/game")),
            },
            Mapping {
                kind: MappingKind::Mount,
                from: MappingFrom::File(VfsPath::parse(r"\??\C:\extra.dat")),
                to: MappingTo::Folder(VfsPath::parse("C:/game/data")),
            },
        ],
    }
}

fn sample_messages() -> Vec<Message> {
    vec![
        Message::StartupInfo(StartupInfo {
            main_thread_suspended: true,
            dont_hook_subprocesses: false,
            show_console: true,
            mappings: sample_mappings(),
        }),
        Message::LogMessage(LogMessage {
            level: LogLevel::Info,
            module_name: "asbestos::hooks".to_string(),
            file: "hooks.rs".to_string(),
            line: 42,
            message: "Redirected \"C:/a\" to \"C:/b\"".to_string(),
        }),
        Message::Initialized,
        Message::InitializationFailed("no symbol — détour introuvable".to_string()),
        Message::ProcessSpawned(ProcessSpawned { pid: 4242 }),
        Message::ProcessDetach,
    ]
}

fn encode(m: &Message) -> Vec<u8> {
    Connection::new().write_message(m).unwrap()
}

#[test]
fn every_message_round_trips() {
    for m in sample_messages() {
        let bytes = encode(&m);
        let mut conn = Connection::new();
        let (back, used) = conn.read_message(&bytes).unwrap();
        assert_eq!(back, m);
        assert_eq!(used, bytes.len());
        assert!(conn.connected());
    }
}

#[test]
fn empty_values_round_trip() {
    let empties = vec![
        Message::InitializationFailed(String::new()),
        Message::StartupInfo(StartupInfo::default()),
        Message::LogMessage(LogMessage {
            level: LogLevel::Trace,
            module_name: String::new(),
            file: String::new(),
            line: 0,
            message: String::new(),
        }),
    ];
    for m in empties {
        let bytes = encode(&m);
        let (back, used) = Connection::new().read_message(&bytes).unwrap();
        assert_eq!(back, m);
        assert_eq!(used, bytes.len());
    }
}

#[test]
fn frames_queue_back_to_back() {
    let first = Message::Initialized;
    let second = Message::ProcessSpawned(ProcessSpawned { pid: 7 });
    let mut bytes = encode(&first);
    let cut = bytes.len();
    bytes.extend_from_slice(&encode(&second));

    let mut conn = Connection::new();
    let (m1, used1) = conn.read_message(&bytes).unwrap();
    assert_eq!(m1, first);
    assert_eq!(used1, cut);
    let rest: Vec<u8> = bytes[used1..].to_vec();
    let (m2, used2) = conn.read_message(&rest).unwrap();
    assert_eq!(m2, second);
    assert_eq!(used2, rest.len());
}

#[test]
fn every_truncation_is_a_lost_connection() {
    let m = Message::InitializationFailed("some failure".to_string());
    let bytes = encode(&m);
    for cut in 0..bytes.len() {
        let mut conn = Connection::new();
        let truncated: Vec<u8> = bytes[..cut].to_vec();
        assert_eq!(conn.read_message(&truncated), Err(ProtocolError::ConnectionLost));
        assert!(!conn.connected());
    }
}

#[test]
fn a_lost_connection_stays_disconnected() {
    let bytes = encode(&Message::Initialized);
    let mut conn = Connection::new();
    let truncated: Vec<u8> = bytes[..3].to_vec();
    assert_eq!(conn.read_message(&truncated), Err(ProtocolError::ConnectionLost));
    // Handing it a perfectly good frame afterwards does not revive it.
    assert_eq!(conn.read_message(&bytes), Err(ProtocolError::Disconnected));
    assert_eq!(
        conn.write_message(&Message::Initialized),
        Err(ProtocolError::Disconnected)
    );
    assert!(!conn.connected());
}

#[test]
fn an_unknown_tag_is_a_framing_error() {
    // A complete frame of four bytes holding variant tag 99.
    let mut bytes = vec![4u8, 0, 0, 0, 0, 0, 0, 0];
    bytes.extend_from_slice(&[99, 0, 0, 0]);
    let mut conn = Connection::new();
    assert_eq!(conn.read_message(&bytes), Err(ProtocolError::Framing));
    // A framing error does not cost the connection.
    assert!(conn.connected());
    let good = encode(&Message::ProcessDetach);
    assert_eq!(conn.read_message(&good).unwrap().0, Message::ProcessDetach);
}

#[test]
fn trailing_garbage_inside_a_frame_is_a_framing_error() {
    let inner = vec![2u8, 0, 0, 0, 77];
    let mut bytes = vec![inner.len() as u8, 0, 0, 0, 0, 0, 0, 0];
    bytes.extend_from_slice(&inner);
    let mut conn = Connection::new();
    assert_eq!(conn.read_message(&bytes), Err(ProtocolError::Framing));
}

#[test]
fn invalid_utf8_in_a_string_is_a_framing_error() {
    // InitializationFailed (tag 3) with a one-byte string that is not UTF-8.
    let body = vec![3u8, 0, 0, 0, 1, 0, 0, 0, 0, 0, 0, 0, 0xFF];
    let mut bytes = vec![body.len() as u8, 0, 0, 0, 0, 0, 0, 0];
    bytes.extend_from_slice(&body);
    let mut conn = Connection::new();
    assert_eq!(conn.read_message(&bytes), Err(ProtocolError::Framing));
}

#[test]
fn a_bad_flag_byte_is_a_framing_error() {
    // StartupInfo (tag 0) whose first flag byte is 2.
    let body = vec![0u8, 0, 0, 0, 2];
    let mut bytes = vec![body.len() as u8, 0, 0, 0, 0, 0, 0, 0];
    bytes.extend_from_slice(&body);
    let mut conn = Connection::new();
    assert_eq!(conn.read_message(&bytes), Err(ProtocolError::Framing));
}

#[test]
fn the_frame_header_is_little_endian() {
    let bytes = encode(&Message::Initialized);
    // Tag 2 in four little-endian bytes behind an eight-byte length of 4.
    assert_eq!(bytes, vec![4, 0, 0, 0, 0, 0, 0, 0, 2, 0, 0, 0]);
}

#[test]
fn startup_info_builders_set_the_flags() {
    let si = StartupInfo::for_inject(true, sample_mappings());
    assert!(!si.main_thread_suspended);
    assert!(si.dont_hook_subprocesses);
    assert!(si.show_console);
    assert_eq!(si.mappings, sample_mappings());

    let si = StartupInfo::for_wrap(false, false, sample_mappings());
    assert!(si.main_thread_suspended);
    assert!(!si.dont_hook_subprocesses);
    assert!(!si.show_console);

    let si = StartupInfo::default();
    assert!(!si.main_thread_suspended);
    assert!(!si.dont_hook_subprocesses);
    assert!(!si.show_console);
    assert!(si.mappings.mappings.is_empty());
}

#[test]
fn error_messages_describe_the_errors() {
    assert_eq!(
        ProtocolError::ConnectionLost.message().as_str(),
        "The connection was unexpectedly closed."
    );
    assert_eq!(
        ProtocolError::Disconnected.message().as_str(),
        "The connection is closed."
    );
    assert_eq!(
        ProtocolError::Io("pipe burst".to_string()).message().as_str(),
        "pipe burst"
    );
}

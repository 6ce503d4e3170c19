//! Typed messages exchanged between controller and payload, and the
//! connection state machine that frames them.
//!
//! The transport itself (a pair of local pipes) is outside this crate: a
//! `Connection` here turns messages into wire bytes and wire bytes back into
//! messages, and tracks whether the peer is still there. Once a connection
//! has seen an unexpected end of stream it is `Disconnected` for good.
use vstd::prelude::*;

use crate::vfs::{MappingModel, Mappings};
use crate::wire;

verus! {

/// Severity of a log line sent by the payload.
#[derive(Clone, Copy, Debug, PartialEq, Eq, Structural)]
pub enum LogLevel {
    Error,
    Warn,
    Info,
    Debug,
    Trace,
}

/// A log line sent by the payload, with its source location.
#[derive(Debug, PartialEq, Eq)]
pub struct LogMessage {
    pub level: LogLevel,
    pub module_name: String,
    pub file: String,
    pub line: u32,
    pub message: String,
}

impl Clone for LogMessage {
    fn clone(&self) -> (r: Self)
        ensures
            r@ == self@,
    {
        LogMessage {
            level: self.level,
            module_name: self.module_name.clone(),
            file: self.file.clone(),
            line: self.line,
            message: self.message.clone(),
        }
    }
}

/// Model of a log line.
#[verifier::ext_equal]
pub ghost struct LogMessageModel {
    pub level: LogLevel,
    pub module_name: Seq<char>,
    pub file: Seq<char>,
    pub line: u32,
    pub message: Seq<char>,
}

impl View for LogMessage {
    type V = LogMessageModel;

    open spec fn view(&self) -> LogMessageModel {
        LogMessageModel {
            level: self.level,
            module_name: self.module_name@,
            file: self.file@,
            line: self.line,
            message: self.message@,
        }
    }
}

/// Report that the target spawned a child process.
#[derive(Clone, Copy, Debug, PartialEq, Eq, Structural)]
pub struct ProcessSpawned {
    pub pid: u32,
}

/// Everything a payload needs to know at startup, sent by the controller as
/// the first message on a fresh connection.
#[derive(Debug, PartialEq, Eq)]
pub struct StartupInfo {
    pub main_thread_suspended: bool,
    pub dont_hook_subprocesses: bool,
    pub show_console: bool,
    pub mappings: Mappings,
}

impl Clone for StartupInfo {
    fn clone(&self) -> (r: Self)
        ensures
            r@ == self@,
    {
        StartupInfo {
            main_thread_suspended: self.main_thread_suspended,
            dont_hook_subprocesses: self.dont_hook_subprocesses,
            show_console: self.show_console,
            mappings: self.mappings.clone(),
        }
    }
}

/// Model of the startup configuration.
#[verifier::ext_equal]
pub ghost struct StartupInfoModel {
    pub main_thread_suspended: bool,
    pub dont_hook_subprocesses: bool,
    pub show_console: bool,
    pub mappings: Seq<MappingModel>,
}

impl View for StartupInfo {
    type V = StartupInfoModel;

    open spec fn view(&self) -> StartupInfoModel {
        StartupInfoModel {
            main_thread_suspended: self.main_thread_suspended,
            dont_hook_subprocesses: self.dont_hook_subprocesses,
            show_console: self.show_console,
            mappings: self.mappings@,
        }
    }
}

impl Default for StartupInfo {
    /// The configuration assumed when no startup message arrives: nothing
    /// suspended, children hooked, console hidden, no mappings.
    fn default() -> (r: Self)
        ensures
            !r@.main_thread_suspended,
            !r@.dont_hook_subprocesses,
            !r@.show_console,
            r@.mappings == Seq::<MappingModel>::empty(),
    {
        StartupInfo {
            main_thread_suspended: false,
            dont_hook_subprocesses: false,
            show_console: false,
            mappings: Mappings::default(),
        }
    }
}

impl StartupInfo {
    /// The configuration the controller sends when attaching to a process
    /// that already runs: its main thread keeps running and its console is
    /// left visible.
    pub fn for_inject(no_sub_hook: bool, mappings: Mappings) -> (r: Self)
        ensures
            r@ == (StartupInfoModel {
                main_thread_suspended: false,
                dont_hook_subprocesses: no_sub_hook,
                show_console: true,
                mappings: mappings@,
            }),
    {
        StartupInfo {
            main_thread_suspended: false,
            dont_hook_subprocesses: no_sub_hook,
            show_console: true,
            mappings,
        }
    }

    /// The configuration the controller sends when it launched the target
    /// itself: the child was born suspended and the payload must resume its
    /// main thread once initialised.
    pub fn for_wrap(no_sub_hook: bool, show_console: bool, mappings: Mappings) -> (r: Self)
        ensures
            r@ == (StartupInfoModel {
                main_thread_suspended: true,
                dont_hook_subprocesses: no_sub_hook,
                show_console,
                mappings: mappings@,
            }),
    {
        StartupInfo {
            main_thread_suspended: true,
            dont_hook_subprocesses: no_sub_hook,
            show_console,
            mappings,
        }
    }
}

/// A message on the wire, in either direction.
#[derive(Debug, PartialEq, Eq)]
pub enum Message {
    /// The controller's startup configuration for a freshly injected payload.
    StartupInfo(StartupInfo),
    /// A log line from the payload.
    LogMessage(LogMessage),
    /// The payload has finished its initialization routine.
    Initialized,
    /// The payload encountered an error in its initialization routine.
    InitializationFailed(String),
    /// The target spawned a child process, reported suspended.
    ProcessSpawned(ProcessSpawned),
    /// The payload was unloaded from the target, either because it was
    /// manually unloaded or because the process terminated.
    ProcessDetach,
}

impl Clone for Message {
    fn clone(&self) -> (r: Self)
        ensures
            r@ == self@,
    {
        match self {
            Message::StartupInfo(si) => Message::StartupInfo(si.clone()),
            Message::LogMessage(lm) => Message::LogMessage(lm.clone()),
            Message::Initialized => Message::Initialized,
            Message::InitializationFailed(s) => Message::InitializationFailed(s.clone()),
            Message::ProcessSpawned(ps) => Message::ProcessSpawned(*ps),
            Message::ProcessDetach => Message::ProcessDetach,
        }
    }
}

/// Model of a message.
#[verifier::ext_equal]
pub ghost enum MessageModel {
    StartupInfo(StartupInfoModel),
    LogMessage(LogMessageModel),
    Initialized,
    InitializationFailed(Seq<char>),
    ProcessSpawned(u32),
    ProcessDetach,
}

impl View for Message {
    type V = MessageModel;

    open spec fn view(&self) -> MessageModel {
        match self {
            Message::StartupInfo(si) => MessageModel::StartupInfo(si@),
            Message::LogMessage(lm) => MessageModel::LogMessage(lm@),
            Message::Initialized => MessageModel::Initialized,
            Message::InitializationFailed(s) => MessageModel::InitializationFailed(s@),
            Message::ProcessSpawned(ps) => MessageModel::ProcessSpawned(ps.pid),
            Message::ProcessDetach => MessageModel::ProcessDetach,
        }
    }
}

/// How a protocol operation can fail.
#[derive(Debug, PartialEq, Eq)]
pub enum ProtocolError {
    /// The transport reported an error; the description is carried along.
    Io(String),
    /// The bytes inside a frame do not form a message.
    Framing,
    /// The connection was terminated unexpectedly.
    ///
    /// This can happen for a number of reasons, one of them being that the
    /// payload is unloaded without its module-detach callback running.
    ConnectionLost,
    /// The connection is no longer active.
    Disconnected,
}

impl Clone for ProtocolError {
    fn clone(&self) -> (r: Self)
        ensures
            (match self {
                ProtocolError::Io(b) => r matches ProtocolError::Io(a) && a@ == b@,
                ProtocolError::Framing => r is Framing,
                ProtocolError::ConnectionLost => r is ConnectionLost,
                ProtocolError::Disconnected => r is Disconnected,
            }),
    {
        match self {
            ProtocolError::Io(s) => ProtocolError::Io(s.clone()),
            ProtocolError::Framing => ProtocolError::Framing,
            ProtocolError::ConnectionLost => ProtocolError::ConnectionLost,
            ProtocolError::Disconnected => ProtocolError::Disconnected,
        }
    }
}

impl ProtocolError {
    /// A human-readable description of the error.
    pub fn message(&self) -> (r: String)
        ensures
            (self matches ProtocolError::Io(s) ==> r@ == s@),
    {
        match self {
            ProtocolError::Io(s) => s.clone(),
            ProtocolError::Framing => String::from_str("A frame did not hold a message."),
            ProtocolError::ConnectionLost => String::from_str(
                "The connection was unexpectedly closed.",
            ),
            ProtocolError::Disconnected => String::from_str("The connection is closed."),
        }
    }
}

enum ConnectionState {
    Connected,
    Disconnected,
}

/// One side of a controller<->payload link.
///
/// The byte transport lives with the caller: `read_message` is handed the
/// bytes received so far and says how many it consumed, `write_message`
/// returns the bytes to send. The connection only tracks its state, and a
/// connection that has become `Disconnected` never returns to `Connected`.
pub struct Connection {
    state: ConnectionState,
}

impl Connection {
    /// Whether the connection is still usable.
    pub closed spec fn is_connected(&self) -> bool {
        self.state is Connected
    }

    /// A fresh, connected link.
    pub fn new() -> (r: Self)
        ensures
            r.is_connected(),
    {
        Connection { state: ConnectionState::Connected }
    }

    /// Whether the connection is still usable.
    pub fn connected(&self) -> (r: bool)
        ensures
            r == self.is_connected(),
    {
        matches!(self.state, ConnectionState::Connected)
    }

    /// Reads one message from the front of `input`, the bytes received on
    /// the transport so far, and returns it with the number of bytes it
    /// occupied. A truncated frame means the stream ended mid-message: the
    /// connection is lost and stays disconnected for good.
    pub fn read_message(&mut self, input: &Vec<u8>) -> (r: Result<
        (Message, usize),
        ProtocolError,
    >)
        ensures
            final(self).is_connected() ==> old(self).is_connected(),
            !old(self).is_connected() ==> (r matches Err(ProtocolError::Disconnected))
                && !final(self).is_connected(),
            old(self).is_connected() ==> (match wire::dec_frame(input@) {
                wire::FrameOutcome::Frame(mm, used) => {
                    &&& r matches Ok((m, u)) && m@ == mm && u == used
                    &&& final(self).is_connected()
                },
                wire::FrameOutcome::Truncated => {
                    &&& r matches Err(ProtocolError::ConnectionLost)
                    &&& !final(self).is_connected()
                },
                wire::FrameOutcome::Malformed => {
                    &&& r matches Err(ProtocolError::Framing)
                    &&& final(self).is_connected()
                },
            }),
    {
        if !self.connected() {
            return Err(ProtocolError::Disconnected);
        }
        match wire::decode_frame(input) {
            wire::FrameResult::Frame(m, used) => Ok((m, used)),
            wire::FrameResult::Truncated => {
                self.state = ConnectionState::Disconnected;
                Err(ProtocolError::ConnectionLost)
            },
            wire::FrameResult::Malformed => Err(ProtocolError::Framing),
        }
    }

    /// Encodes one message into the bytes to hand to the transport. Writing
    /// never changes the state of the connection; on a disconnected one it
    /// fails without producing bytes.
    pub fn write_message(&mut self, message: &Message) -> (r: Result<Vec<u8>, ProtocolError>)
        ensures
            final(self).is_connected() == old(self).is_connected(),
            !old(self).is_connected() ==> r matches Err(ProtocolError::Disconnected),
            old(self).is_connected() ==> (r matches Ok(bytes) && bytes@ == wire::enc_frame(
                message@,
            )),
    {
        if !self.connected() {
            return Err(ProtocolError::Disconnected);
        }
        Ok(wire::encode_frame(message))
    }
}

} // verus!

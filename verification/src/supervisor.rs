//! Decision logic of the controller's supervisor loop.
//!
//! The controller polls every supervised connection for one message per
//! iteration and hands the outcome to `supervisor_action`; the loop then
//! performs the returned action: printing, removing the entry, or attaching
//! to a freshly spawned child. Removals and insertions are collected during
//! an iteration and applied to the supervised map at its end.
use vstd::prelude::*;

use crate::protocol::{LogMessage, Message, MessageModel, ProtocolError};

verus! {

/// What the supervisor does with the outcome of one read on one supervised
/// connection.
#[derive(Debug, PartialEq, Eq)]
pub enum SupervisorAction {
    /// Nothing: the controller never acts on a startup message.
    Ignore,
    /// Pretty-print the log line, labelled with the sender.
    PrintLog(LogMessage),
    /// Report that the payload finished initialising.
    NoteInitialized,
    /// Report that the payload failed to initialise, with its description.
    NoteInitializationFailed(String),
    /// Inject into the spawned child and fold it into the supervised set at
    /// the end of the iteration.
    AttachChild(u32),
    /// Report that the payload was unloaded and drop the entry at the end
    /// of the iteration.
    RemoveDetached,
    /// Report the error and drop the entry: this connection is gone for
    /// good.
    RemoveDisconnected(ProtocolError),
    /// Report the error and keep the entry.
    Report(ProtocolError),
}

/// Decides how the supervisor reacts to one read outcome. Every message maps
/// to exactly one action; of the errors, only a dead connection costs the
/// target its entry in the supervised set.
pub fn supervisor_action(input: Result<Message, ProtocolError>) -> (a: SupervisorAction)
    ensures
        (match input {
            Ok(m) => (match m@ {
                MessageModel::StartupInfo(_) => a is Ignore,
                MessageModel::LogMessage(lm) => a matches SupervisorAction::PrintLog(l) && l@
                    == lm,
                MessageModel::Initialized => a is NoteInitialized,
                MessageModel::InitializationFailed(d) => a matches
                    SupervisorAction::NoteInitializationFailed(s) && s@ == d,
                MessageModel::ProcessSpawned(pid) => a matches SupervisorAction::AttachChild(p)
                    && p == pid,
                MessageModel::ProcessDetach => a is RemoveDetached,
            }),
            Err(e) => {
                if e == ProtocolError::Disconnected || e == ProtocolError::ConnectionLost {
                    a matches SupervisorAction::RemoveDisconnected(r) && r == e
                } else {
                    a matches SupervisorAction::Report(r) && r == e
                }
            },
        }),
{
    match input {
        Ok(m) => match m {
            Message::StartupInfo(_) => SupervisorAction::Ignore,
            Message::LogMessage(lm) => SupervisorAction::PrintLog(lm),
            Message::Initialized => SupervisorAction::NoteInitialized,
            Message::InitializationFailed(d) => SupervisorAction::NoteInitializationFailed(d),
            Message::ProcessSpawned(ps) => SupervisorAction::AttachChild(ps.pid),
            Message::ProcessDetach => SupervisorAction::RemoveDetached,
        },
        Err(e) => match e {
            ProtocolError::Disconnected => SupervisorAction::RemoveDisconnected(e),
            ProtocolError::ConnectionLost => SupervisorAction::RemoveDisconnected(e),
            _ => SupervisorAction::Report(e),
        },
    }
}

/// Whether the supervisor should sleep before polling again: only when
/// nothing is supervised, so that waiting for the first injection to land
/// does not busy-wait.
pub fn should_sleep(supervised_count: usize) -> (r: bool)
    ensures
        r == (supervised_count == 0),
{
    supervised_count == 0
}

} // verus!

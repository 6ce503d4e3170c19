//! Decision logic of the payload's bootstrap.
//!
//! On module-attach the payload connects back to the controller, reads one
//! message, and configures itself from it; these functions hold the
//! decisions of that sequence. The platform work around them (console
//! handling, thread snapshots, the module-attach callback itself) lives
//! outside this crate.
use vstd::prelude::*;

use crate::protocol::{Message, MessageModel, StartupInfo, StartupInfoModel};
use crate::vfs::MappingModel;

verus! {

/// The configuration the payload adopts after its first read: the startup
/// message if one arrived, and the default configuration on any other
/// message.
pub fn startup_config(first: Message) -> (si: StartupInfo)
    ensures
        (match first@ {
            MessageModel::StartupInfo(m) => si@ == m,
            _ => si@ == (StartupInfoModel {
                main_thread_suspended: false,
                dont_hook_subprocesses: false,
                show_console: false,
                mappings: Seq::<MappingModel>::empty(),
            }),
        }),
{
    match first {
        Message::StartupInfo(si) => si,
        _ => {
            let si = StartupInfo::default();
            assert(si@ =~= (StartupInfoModel {
                main_thread_suspended: false,
                dont_hook_subprocesses: false,
                show_console: false,
                mappings: Seq::<MappingModel>::empty(),
            }));
            si
        },
    }
}

/// Whether a thread found in the process snapshot is one the payload must
/// resume when the target was started suspended: every thread of its own
/// process except the one running the module-attach callback.
pub fn thread_needs_resume(
    owner_process_id: u32,
    thread_id: u32,
    own_process_id: u32,
    current_thread_id: u32,
) -> (r: bool)
    ensures
        r == (owner_process_id == own_process_id && thread_id != current_thread_id),
{
    owner_process_id == own_process_id && thread_id != current_thread_id
}

} // verus!

//! Pipe names, detour plans, supervisor decisions, and the payload's
//! bootstrap decisions.
use asbestos::hooks::{
    plan_file_call, plan_process_creation, planned_hooks, HookError, CREATE_SUSPENDED,
    DETACHED_PROCESS,
};
use asbestos::path::VfsPath;
use asbestos::payload::{startup_config, thread_needs_resume};
use asbestos::protocol::{
    LogLevel, LogMessage, Message, ProcessSpawned, ProtocolError, StartupInfo,
};
use asbestos::supervisor::{should_sleep, supervisor_action, SupervisorAction};
use asbestos::util::{cstrlen, cwstrlen};
use asbestos::vfs::{Mapping, MappingFrom, MappingKind, MappingTo, Mappings};
use asbestos::{named_pipe_name, PipeEnd};

fn p(s: &str) -> VfsPath {
    VfsPath::parse(s)
}

fn one_redirect() -> Mappings {
    Mappings {
        mappings: vec![Mapping {
            kind: MappingKind::Redirect,
            from: MappingFrom::Folder(p("C:/mods/ml")),
            to: MappingTo::Folder(p("C:/game")),
        }],
    }
}

#[test]
fn pipe_names_carry_product_version_pid_and_end() {
    assert_eq!(
        named_pipe_name(1234, PipeEnd::Rx).as_str(),
        r"\\.\pipe\asbestos-0.1.0-1234-rx"
    );
    assert_eq!(
        named_pipe_name(1234, PipeEnd::Tx).as_str(),
        r"\\.\pipe\asbestos-0.1.0-1234-tx"
    );
    assert_eq!(
        named_pipe_name(0, PipeEnd::Tx).as_str(),
        r"\\.\pipe\asbestos-0.1.0-0-tx"
    );
    assert_eq!(
        named_pipe_name(u32::MAX, PipeEnd::Rx).as_str(),
        r"\\.\pipe\asbestos-0.1.0-4294967295-rx"
    );
}

#[test]
fn file_call_plans_substitute_only_real_rewrites() {
    let mappings = one_redirect();
    let plan = plan_file_call(&p("C:/mods/ml/data.bin"), &mappings);
    assert!(plan.substituted);
    assert_eq!(plan.path, p("C:/game/data.bin"));

    let plan = plan_file_call(&p("C:/untouched"), &mappings);
    assert!(!plan.substituted);
    assert_eq!(plan.path, p("C:/untouched"));
}

#[test]
fn file_call_plans_swallow_resolution_errors() {
    let broken = Mappings {
        mappings: vec![Mapping {
            kind: MappingKind::Redirect,
            from: MappingFrom::Folder(p("C:/a")),
            to: MappingTo::File(p("C:/b")),
        }],
    };
    let plan = plan_file_call(&p("C:/a/x"), &broken);
    assert!(!plan.substituted);
    assert_eq!(plan.path, p("C:/a/x"));
}

#[test]
fn process_creation_always_forces_suspension() {
    let mappings = one_redirect();
    let plan = plan_process_creation(Some(&p("C:/mods/ml/game.exe")), 0, &mappings);
    assert_eq!(plan.creation_flags, CREATE_SUSPENDED);
    assert!(plan.substituted);
    assert_eq!(plan.application.unwrap(), p("C:/game/game.exe"));

    let plan = plan_process_creation(None, DETACHED_PROCESS, &mappings);
    assert_eq!(plan.creation_flags, DETACHED_PROCESS | CREATE_SUSPENDED);
    assert!(!plan.substituted);
    assert!(plan.application.is_none());
}

#[test]
fn planned_hooks_follow_the_subprocess_switch() {
    let hooks = planned_hooks(false);
    assert_eq!(hooks.len(), 2);
    assert_eq!(hooks[0].module.as_str(), "ntdll.dll");
    assert_eq!(hooks[0].symbol.as_str(), "NtCreateFile");
    assert_eq!(hooks[1].module.as_str(), "KernelBase.dll");
    assert_eq!(hooks[1].symbol.as_str(), "CreateProcessInternalW");

    let hooks = planned_hooks(true);
    assert_eq!(hooks.len(), 1);
    assert_eq!(hooks[0].symbol.as_str(), "NtCreateFile");
}

#[test]
fn hook_errors_name_module_and_symbol() {
    let err = HookError::SymbolAddressNotFound {
        module: "ntdll.dll".to_string(),
        symbol: "NtCreateFile".to_string(),
    };
    assert_eq!(
        err.message().as_str(),
        r#"Could not find address of symbol "NtCreateFile" in "ntdll.dll""#
    );
}

#[test]
fn supervisor_maps_every_outcome_to_one_action() {
    let lm = LogMessage {
        level: LogLevel::Debug,
        module_name: "m".to_string(),
        file: "f".to_string(),
        line: 1,
        message: "hello".to_string(),
    };
    assert_eq!(
        supervisor_action(Ok(Message::StartupInfo(StartupInfo::default()))),
        SupervisorAction::Ignore
    );
    assert_eq!(
        supervisor_action(Ok(Message::LogMessage(lm.clone()))),
        SupervisorAction::PrintLog(lm)
    );
    assert_eq!(
        supervisor_action(Ok(Message::Initialized)),
        SupervisorAction::NoteInitialized
    );
    assert_eq!(
        supervisor_action(Ok(Message::InitializationFailed("why".to_string()))),
        SupervisorAction::NoteInitializationFailed("why".to_string())
    );
    assert_eq!(
        supervisor_action(Ok(Message::ProcessSpawned(ProcessSpawned { pid: 31 }))),
        SupervisorAction::AttachChild(31)
    );
    assert_eq!(
        supervisor_action(Ok(Message::ProcessDetach)),
        SupervisorAction::RemoveDetached
    );
    assert_eq!(
        supervisor_action(Err(ProtocolError::Disconnected)),
        SupervisorAction::RemoveDisconnected(ProtocolError::Disconnected)
    );
    assert_eq!(
        supervisor_action(Err(ProtocolError::ConnectionLost)),
        SupervisorAction::RemoveDisconnected(ProtocolError::ConnectionLost)
    );
    assert_eq!(
        supervisor_action(Err(ProtocolError::Framing)),
        SupervisorAction::Report(ProtocolError::Framing)
    );
}

#[test]
fn the_supervisor_sleeps_only_when_idle() {
    assert!(should_sleep(0));
    assert!(!should_sleep(1));
    assert!(!should_sleep(17));
}

#[test]
fn the_payload_adopts_the_startup_message_or_the_default() {
    let sent = StartupInfo::for_wrap(true, true, one_redirect());
    let adopted = startup_config(Message::StartupInfo(sent.clone()));
    assert_eq!(adopted, sent);

    let adopted = startup_config(Message::Initialized);
    assert_eq!(adopted, StartupInfo::default());
}

#[test]
fn only_sibling_threads_are_resumed() {
    assert!(thread_needs_resume(100, 5, 100, 6));
    assert!(!thread_needs_resume(100, 6, 100, 6));
    assert!(!thread_needs_resume(101, 5, 100, 6));
}

#[test]
fn string_lengths_stop_at_the_first_nul() {
    assert_eq!(cwstrlen(&[104u16, 105, 0, 33, 0]), 2);
    assert_eq!(cwstrlen(&[0u16]), 0);
    assert_eq!(cstrlen(&[104u8, 105, 33, 0]), 3);
    assert_eq!(cstrlen(&[0u8, 1]), 0);
}

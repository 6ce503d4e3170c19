//! Decision logic of the installed detours.
//!
//! A detour wrapper extracts plain values from its native arguments, asks
//! these functions what to do, and carries the answer out: it calls the
//! trampoline with either the original or the substituted path, never
//! swallowing the call. The native plumbing (symbol lookup, prologue
//! patching, the trampoline itself) lives outside this crate.
use vstd::prelude::*;

use crate::path::VfsPath;
use crate::vfs::{resolve_model, Mappings, PathResolveError};

verus! {

/// Process-creation flag that makes a child start suspended.
pub const CREATE_SUSPENDED: u32 = 0x00000004;

/// Process-creation flag that detaches a child from the console.
pub const DETACHED_PROCESS: u32 = 0x00000008;

/// What a file-API detour should do with one intercepted call.
pub struct FileCallPlan {
    /// The path to hand to the trampoline.
    pub path: VfsPath,
    /// Whether the path differs from the caller's and must be substituted.
    pub substituted: bool,
}

/// Decides what a file-API detour does with an intercepted path: resolve it
/// under the mappings, substitute the result when it differs from the input,
/// and on a resolution error pass the original path through unchanged (the
/// host application must still see a defined call).
pub fn plan_file_call(path: &VfsPath, mappings: &Mappings) -> (plan: FileCallPlan)
    ensures
        (match resolve_model(path@, mappings@) {
            Some(q) => {
                if q == path@ {
                    !plan.substituted && plan.path@ == path@
                } else {
                    plan.substituted && plan.path@ == q
                }
            },
            None => !plan.substituted && plan.path@ == path@,
        }),
{
    match crate::vfs::resolve_path(path, mappings) {
        Ok(resolved) => {
            if resolved.identical(path) {
                FileCallPlan { path: path.clone(), substituted: false }
            } else {
                FileCallPlan { path: resolved, substituted: true }
            }
        },
        Err(PathResolveError::InvalidMapping) => FileCallPlan {
            path: path.clone(),
            substituted: false,
        },
    }
}

/// What a process-creation detour should do with one intercepted call.
pub struct ProcessCreationPlan {
    /// The application path to hand to the trampoline, if the caller gave
    /// one.
    pub application: Option<VfsPath>,
    /// The creation flags to hand to the trampoline.
    pub creation_flags: u32,
    /// Whether the application path differs from the caller's and must be
    /// substituted.
    pub substituted: bool,
}

/// Decides what the process-creation detour does: resolve the application
/// path like any file path, and force `CREATE_SUSPENDED` into the creation
/// flags unconditionally, so that the controller can inject into the child
/// before any of its code runs.
pub fn plan_process_creation(
    application: Option<&VfsPath>,
    creation_flags: u32,
    mappings: &Mappings,
) -> (plan: ProcessCreationPlan)
    ensures
        plan.creation_flags == creation_flags | CREATE_SUSPENDED,
        (match application {
            Some(p) => (match resolve_model(p@, mappings@) {
                Some(q) => {
                    if q == p@ {
                        !plan.substituted && (plan.application matches Some(a) && a@ == p@)
                    } else {
                        plan.substituted && (plan.application matches Some(a) && a@ == q)
                    }
                },
                None => !plan.substituted && (plan.application matches Some(a) && a@ == p@),
            }),
            None => plan.application is None && !plan.substituted,
        }),
{
    let flags = creation_flags | CREATE_SUSPENDED;
    match application {
        Some(p) => {
            let file_plan = plan_file_call(p, mappings);
            ProcessCreationPlan {
                application: Some(file_plan.path),
                creation_flags: flags,
                substituted: file_plan.substituted,
            }
        },
        None => ProcessCreationPlan {
            application: None,
            creation_flags: flags,
            substituted: false,
        },
    }
}

/// How installing a detour can fail.
#[derive(Debug, PartialEq, Eq)]
pub enum HookError {
    /// The exported symbol was not found in the named module; the detour is
    /// not installed and payload initialization aborts.
    SymbolAddressNotFound { module: String, symbol: String },
}

impl HookError {
    /// A human-readable description of the error.
    pub fn message(&self) -> (r: String)
        ensures
            (self matches HookError::SymbolAddressNotFound { module, symbol } ==> r@
                == "Could not find address of symbol \""@ + symbol@ + "\" in \""@ + module@
                + "\""@),
    {
        match self {
            HookError::SymbolAddressNotFound { module, symbol } => {
                let mut r = String::from_str("Could not find address of symbol \"");
                r.append(symbol.as_str());
                r.append("\" in \"");
                r.append(module.as_str());
                r.append("\"");
                r
            },
        }
    }
}

/// One exported entry point to place a detour on.
#[derive(Debug, PartialEq, Eq)]
pub struct HookSpec {
    /// The module whose export table holds the symbol.
    pub module: String,
    /// The exported symbol to patch.
    pub symbol: String,
}

impl Clone for HookSpec {
    fn clone(&self) -> (r: Self)
        ensures
            r.module@ == self.module@,
            r.symbol@ == self.symbol@,
    {
        HookSpec { module: self.module.clone(), symbol: self.symbol.clone() }
    }
}

/// The entry points the payload installs detours on: the kernel
/// object-namespace file API always, and process creation only when
/// sub-process hooking is wanted.
pub fn planned_hooks(dont_hook_subprocesses: bool) -> (hooks: Vec<HookSpec>)
    ensures
        hooks@.len() == (if dont_hook_subprocesses {
            1int
        } else {
            2int
        }),
        hooks@[0].module@ == "ntdll.dll"@,
        hooks@[0].symbol@ == "NtCreateFile"@,
        !dont_hook_subprocesses ==> hooks@[1].module@ == "KernelBase.dll"@ && hooks@[1].symbol@
            == "CreateProcessInternalW"@,
{
    let mut hooks: Vec<HookSpec> = Vec::new();
    hooks.push(
        HookSpec {
            module: String::from_str("ntdll.dll"),
            symbol: String::from_str("NtCreateFile"),
        },
    );
    if !dont_hook_subprocesses {
        hooks.push(
            HookSpec {
                module: String::from_str("KernelBase.dll"),
                symbol: String::from_str("CreateProcessInternalW"),
            },
        );
    }
    hooks
}

} // verus!

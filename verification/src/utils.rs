//! Small things that the other modules share: the kinds of build target and their names,
//! and the wording of a failure.

use vstd::prelude::*;
use vstd::string::StringExecFns;

verus! {

/// What a build target of a package is built as.
#[derive(Clone, Copy, Debug, PartialEq, Eq, Structural)]
pub enum TargetKind {
    Bin,
    Lib { is_proc_macro: bool },
    Example,
    Test,
    Bench,
    BuildScript,
    Other,
}

/// The name under which a kind of target is listed.
pub open spec fn description_of(kind: TargetKind) -> Seq<char> {
    match kind {
        TargetKind::Bin => "bin"@,
        TargetKind::Lib { is_proc_macro } => if is_proc_macro {
            "proc-macro"@
        } else {
            "lib"@
        },
        TargetKind::Example => "example"@,
        TargetKind::Test => "test"@,
        TargetKind::Bench => "bench"@,
        TargetKind::BuildScript => "build-script"@,
        TargetKind::Other => "other"@,
    }
}

/// The name under which a kind of target is listed.
pub fn describe_target_kind(kind: TargetKind) -> (description: &'static str)
    ensures
        description@ == description_of(kind),
{
    match kind {
        TargetKind::Bin => "bin",
        TargetKind::Lib { is_proc_macro } => {
            if is_proc_macro {
                "proc-macro"
            } else {
                "lib"
            }
        },
        TargetKind::Example => "example",
        TargetKind::Test => "test",
        TargetKind::Bench => "bench",
        TargetKind::BuildScript => "build-script",
        TargetKind::Other => "other",
    }
}

/// What is said when an action failed: the action, and the reason where one is known.
pub open spec fn failure_of(action: Seq<char>, reason: Option<Seq<char>>) -> Seq<char> {
    match reason {
        Some(reason) => "Failed to "@ + action + ": "@ + reason,
        None => "Failed to "@ + action,
    }
}

/// The message for an action that failed.
pub fn failure_message(action: &str, reason: Option<&str>) -> (message: String)
    ensures
        message@ == failure_of(
            action@,
            match reason {
                Some(reason) => Some(reason@),
                None => None,
            },
        ),
{
    let mut message = String::from_str("Failed to ");
    message.append(action);
    if let Some(reason) = reason {
        message.append(": ");
        message.append(reason);
    }
    message
}

} // verus!

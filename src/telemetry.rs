//! What is logged when a long-running task ends.
use vstd::prelude::*;
use vstd::string::StringExecFns;

verus! {

/// How a long-running task of the service ended.
#[derive(PartialEq, Eq, Structural, Debug, Clone, Copy)]
pub enum TaskExit {
    /// It returned without error.
    Completed,
    /// It returned an error.
    Failed,
    /// It panicked or was cancelled before returning.
    Aborted,
}

/// The log entry for an ended task: whether it is an error, and its line.
pub struct ExitReport {
    pub is_error: bool,
    pub message: String,
}

pub open spec fn exit_message(task: Seq<char>, outcome: TaskExit) -> Seq<char> {
    match outcome {
        TaskExit::Completed => task + " has exited"@,
        TaskExit::Failed => task + " failed"@,
        TaskExit::Aborted => task + " has failed to complete"@,
    }
}

/// Only a task that returned normally is reported at info level.
pub fn report_exit(task: &str, outcome: TaskExit) -> (r: ExitReport)
    ensures
        r.is_error == (outcome != TaskExit::Completed),
        r.message@ == exit_message(task@, outcome),
{
    let mut message = String::from_str(task);
    match outcome {
        TaskExit::Completed => message.append(" has exited"),
        TaskExit::Failed => message.append(" failed"),
        TaskExit::Aborted => message.append(" has failed to complete"),
    }
    ExitReport { is_error: outcome != TaskExit::Completed, message }
}

} // verus!

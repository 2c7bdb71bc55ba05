//! Classification of the task runner's output lines, which the surrounding
//! application colors accordingly.

use vstd::prelude::*;
use crate::text::{ends_with_v, starts_with_v, str_ends_with, str_starts_with};

verus! {

/// What kind of line the task runner printed.
#[derive(Clone, Copy, Debug, PartialEq, Eq, Structural)]
pub enum LineClass {
    /// The task was already up to date.
    UpToDate,
    /// The runner reports a failed task.
    FailedTask,
    /// Any other line of the runner itself.
    RunnerNote,
    /// Plain task output.
    Plain,
}

/// The class of one output line, in order of precedence.
pub open spec fn classify_line_v(l: Seq<char>) -> LineClass {
    if ends_with_v(l, "is up to date"@) {
        LineClass::UpToDate
    } else if starts_with_v(l, "task: Failed to run task"@) {
        LineClass::FailedTask
    } else if starts_with_v(l, "task: "@) {
        LineClass::RunnerNote
    } else {
        LineClass::Plain
    }
}

/// Classifies one output line of the task runner.
pub fn classify_output_line(l: &str) -> (r: LineClass)
    ensures
        r == classify_line_v(l@),
{
    if str_ends_with(l, "is up to date") {
        LineClass::UpToDate
    } else if str_starts_with(l, "task: Failed to run task") {
        LineClass::FailedTask
    } else if str_starts_with(l, "task: ") {
        LineClass::RunnerNote
    } else {
        LineClass::Plain
    }
}

} // verus!

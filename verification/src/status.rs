//! The status a command leaves behind.

use vstd::prelude::*;

verus! {

/// What running a command line, or one builtin, yields.
#[derive(Clone, Debug)]
pub enum CommandStatus {
    /// The shell is to exit with this code.
    EXIT(i32),
    /// Success, nothing to report.
    NORMAL,
    /// A text to show (on standard output when the code is 0, else on standard error), and the
    /// exit code that it stands for.
    Message(String, i32),
    /// Failure with this exit code.
    ERROR(i32),
}

/// The view of a status: its message text taken by value.
pub enum StatusView {
    Exit(i32),
    Normal,
    Message(Seq<char>, i32),
    Error(i32),
}

impl View for CommandStatus {
    type V = StatusView;

    open spec fn view(&self) -> StatusView {
        match self {
            CommandStatus::EXIT(c) => StatusView::Exit(*c),
            CommandStatus::NORMAL => StatusView::Normal,
            CommandStatus::Message(s, c) => StatusView::Message(s@, *c),
            CommandStatus::ERROR(c) => StatusView::Error(*c),
        }
    }
}

impl CommandStatus {
    /// A copy of this status.
    pub fn duplicate(&self) -> (r: CommandStatus)
        ensures
            r@ == self@,
    {
        match self {
            CommandStatus::EXIT(c) => CommandStatus::EXIT(*c),
            CommandStatus::NORMAL => CommandStatus::NORMAL,
            CommandStatus::Message(s, c) => CommandStatus::Message(s.clone(), *c),
            CommandStatus::ERROR(c) => CommandStatus::ERROR(*c),
        }
    }
}

} // verus!

//! What can go wrong in a command.

use crate::text::views;
use vstd::prelude::*;

verus! {

/// The failure of a command.
#[derive(Debug)]
pub enum DevError {
    /// The request or the configuration does not make sense.
    Config(String),
    /// Conditions that must hold before the work starts do not.
    Preflight(Vec<String>),
    /// A verification found a difference.
    Verify(String),
    /// The global lock could not be taken.
    Lock(String),
    /// A program failed; the code is missing where a signal ended it.
    Subprocess { program: String, code: Option<i32>, stderr: String },
    /// The command ends with this code and has said why.
    ExitCode(i32),
    /// The user asked to stop.
    Interrupted,
    /// A file could not be read or written.
    Io(String),
    /// A reply is no JSON.
    Json(String),
}

/// The contents of a [`DevError`].
pub ghost enum ErrorView {
    Config(Seq<char>),
    Preflight(Seq<Seq<char>>),
    Verify(Seq<char>),
    Lock(Seq<char>),
    Subprocess(Seq<char>, Option<i32>, Seq<char>),
    ExitCode(i32),
    Interrupted,
    Io(Seq<char>),
    Json(Seq<char>),
}

impl View for DevError {
    type V = ErrorView;

    open spec fn view(&self) -> ErrorView {
        match self {
            DevError::Config(m) => ErrorView::Config(m@),
            DevError::Preflight(ms) => ErrorView::Preflight(views(ms@)),
            DevError::Verify(m) => ErrorView::Verify(m@),
            DevError::Lock(m) => ErrorView::Lock(m@),
            DevError::Subprocess { program, code, stderr } => ErrorView::Subprocess(
                program@,
                *code,
                stderr@,
            ),
            DevError::ExitCode(c) => ErrorView::ExitCode(*c),
            DevError::Interrupted => ErrorView::Interrupted,
            DevError::Io(m) => ErrorView::Io(m@),
            DevError::Json(m) => ErrorView::Json(m@),
        }
    }
}

} // verus!

//! What can go wrong in a step, and how it is told to the caller.

use vstd::prelude::*;
use crate::text::prefixed;

verus! {

/// The class of a failure.
#[derive(Clone, Copy, Debug, PartialEq, Eq, Structural)]
pub enum ErrorKind {
    /// A file or directory that a step needs is absent.
    PreconditionMissing,
    /// The executable that a step would launch is absent.
    ToolNotFound,
    /// The operating system could not start the process.
    LaunchFailure,
    /// The process started but could not be waited on.
    WaitFailure,
    /// The process ran and reported failure.
    NonZeroExit,
    /// The directory to mirror does not exist.
    SourceMissing,
    /// Reading, creating a directory or writing failed while mirroring.
    CopyFailure,
    /// The archive file is absent.
    NotFound,
    /// The file is not an archive of the supported format.
    InvalidFormat,
    /// An entry of the archive could not be written.
    ExtractionFailure,
    /// The installer could not determine where it is located.
    PathResolutionFailure,
}

/// A failure: its class and the text shown to the user.
#[derive(Debug)]
pub struct InstallError {
    pub kind: ErrorKind,
    pub message: String,
}

/// A failure, as contracts speak of it.
pub struct ErrorView {
    pub kind: ErrorKind,
    pub message: Seq<char>,
}

impl View for InstallError {
    type V = ErrorView;

    open spec fn view(&self) -> ErrorView {
        ErrorView { kind: self.kind, message: self.message@ }
    }
}

/// The result of a step, as contracts speak of it: the text of success, or the failure.
pub open spec fn outcome_view(r: Result<String, InstallError>) -> Result<Seq<char>, ErrorView> {
    match r {
        Ok(text) => Ok(text@),
        Err(e) => Err(e@),
    }
}

/// The result of a component that returns nothing on success, as contracts speak of it.
pub open spec fn status_view(r: Result<(), InstallError>) -> Result<(), ErrorView> {
    match r {
        Ok(_) => Ok(()),
        Err(e) => Err(e@),
    }
}

/// The failure of class `kind` whose text is `label` followed by `detail`.
pub open spec fn failure(kind: ErrorKind, label: Seq<char>, detail: Seq<char>) -> ErrorView {
    ErrorView { kind, message: label + detail }
}

impl InstallError {
    /// The failure of class `kind` described by `message`.
    pub fn new(kind: ErrorKind, message: String) -> (e: InstallError)
        ensures
            e.kind == kind,
            e.message == message,
    {
        InstallError { kind, message }
    }

    /// The failure of class `kind` whose text is `label` followed by `detail`.
    pub fn labelled(kind: ErrorKind, label: &str, detail: &str) -> (e: InstallError)
        ensures
            e@ == failure(kind, label@, detail@),
    {
        InstallError { kind, message: prefixed(label, detail) }
    }

    /// The text shown to the user.
    pub fn describe(&self) -> (text: String)
        ensures
            text@ == self.message@,
    {
        self.message.clone()
    }
}

impl Clone for InstallError {
    fn clone(&self) -> (copy: InstallError)
        ensures
            copy.kind == self.kind,
            copy.message@ == self.message@,
    {
        InstallError { kind: self.kind, message: self.message.clone() }
    }
}

/// What a step hands to its caller: the text of success, or the text of the
/// failure. Nothing but text crosses this boundary.
pub fn to_reply(outcome: Result<String, InstallError>) -> (reply: Result<String, String>)
    ensures
        match outcome {
            Ok(text) => reply is Ok && reply->Ok_0@ == text@,
            Err(e) => reply is Err && reply->Err_0@ == e.message@,
        },
{
    match outcome {
        Ok(text) => Ok(text),
        Err(e) => Err(e.message),
    }
}

} // verus!

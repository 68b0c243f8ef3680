//! Running an external tool: what is launched, and what its end means.
//!
//! A tool is described by a [`CommandSpec`]. The caller launches it and
//! reports what happened as a [`ProcessReport`]; [`judge`] turns the report
//! into success or a failure. Nothing limits how long the caller waits for
//! the process to end.

use vstd::prelude::*;
use vstd::utf8::{decode_utf8, valid_utf8};
use crate::error::{failure, status_view, ErrorKind, ErrorView, InstallError};

verus! {

/// How a tool is run.
#[derive(Clone, Copy, Debug, PartialEq, Eq, Structural)]
pub enum Mode {
    /// Run to completion with the error stream captured: the text that the
    /// tool wrote there is part of the failure.
    Captured,
    /// Spawn and wait without capturing anything: only the exit status counts.
    Uncaptured,
}

/// An external tool with everything it is launched with. The order of the
/// arguments is the tool's own contract; nothing here checks it.
#[derive(Debug)]
pub struct CommandSpec {
    /// The executable: a path, or a bare command name.
    pub program: String,
    /// Whether `program` is the path of a file that has to exist before the
    /// launch. A bare command name, which the operating system looks up
    /// itself, is not checked.
    pub on_disk: bool,
    /// The arguments, in order.
    pub args: Vec<String>,
    /// Environment variables set for the tool, over those it inherits.
    pub envs: Vec<(String, String)>,
    /// The directory the tool runs in, if not the caller's.
    pub cwd: Option<String>,
}

/// The texts that begin the message of each failure of one tool.
#[derive(Debug)]
pub struct Complaints {
    /// The process could not be started.
    pub launch: String,
    /// The process could not be waited on.
    pub wait: String,
    /// The process ended with a status other than success.
    pub exit: String,
}

/// What the caller saw of one launch.
#[derive(Debug)]
pub enum ProcessReport {
    /// The operating system could not start the process; its words.
    LaunchFailed(String),
    /// The process started but could not be waited on; the system's words.
    WaitFailed(String),
    /// The process ended. `stderr` holds what it wrote to its error stream,
    /// and is empty where nothing was captured.
    Exited { success: bool, stderr: Vec<u8> },
}

/// The text that bytes are read as: valid UTF-8 is decoded, and each invalid
/// sequence is replaced by the replacement character.
pub uninterp spec fn lossy_text(bytes: Seq<u8>) -> Seq<char>;

/// What stands for the error stream of a tool whose output was not captured.
pub open spec fn unexplained_exit() -> Seq<char> {
    "the process ended with a non-zero exit status"@
}

/// The failure, if any, of a process that ended, where `diagnostics` is the
/// text of its error stream.
pub open spec fn exit_verdict(
    mode: Mode,
    complaints: Complaints,
    success: bool,
    diagnostics: Seq<char>,
) -> Result<(), ErrorView> {
    if success {
        Ok(())
    } else {
        match mode {
            Mode::Captured => Err(failure(ErrorKind::NonZeroExit, complaints.exit@, diagnostics)),
            Mode::Uncaptured => Err(
                failure(ErrorKind::NonZeroExit, complaints.exit@, unexplained_exit()),
            ),
        }
    }
}

/// The failure, if any, that a report amounts to.
pub open spec fn verdict(mode: Mode, complaints: Complaints, report: ProcessReport) -> Result<
    (),
    ErrorView,
> {
    match report {
        ProcessReport::LaunchFailed(why) => Err(
            failure(ErrorKind::LaunchFailure, complaints.launch@, why@),
        ),
        ProcessReport::WaitFailed(why) => Err(
            failure(ErrorKind::WaitFailure, complaints.wait@, why@),
        ),
        ProcessReport::Exited { success, stderr } => exit_verdict(
            mode,
            complaints,
            success,
            lossy_text(stderr@),
        ),
    }
}

/// Reads bytes as text with `String::from_utf8_lossy`. Trusted: the text is
/// a function of the bytes alone, and bytes that are valid UTF-8 are read as
/// the text they encode.
#[verifier::external_body]
fn decode_lossy(bytes: &Vec<u8>) -> (text: String)
    ensures
        text@ == lossy_text(bytes@),
        valid_utf8(bytes@) ==> text@ == decode_utf8(bytes@),
{
    String::from_utf8_lossy(bytes).into_owned()
}

/// Judges a process that ended: success, or a failure of class
/// `NonZeroExit` that carries the tool's own words where they were captured.
pub fn judge_exit(mode: Mode, complaints: &Complaints, success: bool, diagnostics: &str) -> (r:
    Result<(), InstallError>)
    ensures
        status_view(r) == exit_verdict(mode, *complaints, success, diagnostics@),
{
    if success {
        return Ok(());
    }
    match mode {
        Mode::Captured => Err(
            InstallError::labelled(ErrorKind::NonZeroExit, complaints.exit.as_str(), diagnostics),
        ),
        Mode::Uncaptured => Err(
            InstallError::labelled(
                ErrorKind::NonZeroExit,
                complaints.exit.as_str(),
                "the process ended with a non-zero exit status",
            ),
        ),
    }
}

/// Judges what the caller saw of a launch.
pub fn judge(mode: Mode, complaints: &Complaints, report: &ProcessReport) -> (r: Result<
    (),
    InstallError,
>)
    ensures
        status_view(r) == verdict(mode, *complaints, *report),
        report matches ProcessReport::Exited { success, stderr } ==> (valid_utf8(stderr@)
            ==> status_view(r) == exit_verdict(mode, *complaints, *success, decode_utf8(stderr@))),
{
    match report {
        ProcessReport::LaunchFailed(why) => Err(
            InstallError::labelled(
                ErrorKind::LaunchFailure,
                complaints.launch.as_str(),
                why.as_str(),
            ),
        ),
        ProcessReport::WaitFailed(why) => Err(
            InstallError::labelled(ErrorKind::WaitFailure, complaints.wait.as_str(), why.as_str()),
        ),
        ProcessReport::Exited { success, stderr } => {
            let text = decode_lossy(stderr);
            judge_exit(mode, complaints, *success, text.as_str())
        },
    }
}

} // verus!

//! Staging the payload: the bundle beside the installer is mirrored into
//! the installation target. The migrations and the database installer stay
//! where they are; the later steps use them in place.

use vstd::prelude::*;
use crate::error::{outcome_view, status_view, ErrorKind, ErrorView, InstallError};
use crate::paths::join;
use crate::pipeline::{bundle_dir, QWM_FOLDER};
use crate::rules::{CopyRules, Policy};

verus! {

/// What to mirror, where to, and under which rules.
#[derive(Debug)]
pub struct Staging {
    /// The directory that is mirrored.
    pub source: String,
    /// The directory that receives the mirror.
    pub target: String,
    pub rules: CopyRules,
}

/// The rules of staging: directories whose name begins with `migrations`
/// and the file `postgres_installer.exe` are left out, wherever they stand.
pub open spec fn bundle_policy() -> Policy {
    Policy { dir_prefixes: seq!["migrations"@], file_names: seq!["postgres_installer.exe"@] }
}

/// The text of success of staging.
pub open spec fn staged_text() -> Seq<char> {
    "QWM folder copied successfully!"@
}

/// The failure of staging when the bundle is not beside the installer.
pub open spec fn bundle_missing() -> ErrorView {
    ErrorView {
        kind: ErrorKind::SourceMissing,
        message: "QWM Ordner nicht gefunden, bitte in den selben Ordner packen wie den Installer!"@,
    }
}

/// What staging hands to its caller when the walk ended with `result`.
pub open spec fn staging_view(result: Result<(), ErrorView>) -> Result<Seq<char>, ErrorView> {
    match result {
        Ok(_) => Ok(staged_text()),
        Err(e) => if e.kind == ErrorKind::SourceMissing {
            Err(bundle_missing())
        } else {
            Err(e)
        },
    }
}

/// The rules of staging.
pub fn bundle_rules() -> (rules: CopyRules)
    ensures
        rules@ == bundle_policy(),
{
    let rules = CopyRules::new().without_dirs_starting("migrations").without_file(
        "postgres_installer.exe",
    );
    assert(rules@.dir_prefixes =~= bundle_policy().dir_prefixes);
    assert(rules@.file_names =~= bundle_policy().file_names);
    rules
}

/// The staging of the bundle beside the installer in `base_dir` into `target_path`.
pub fn copy_qwm_folder(base_dir: &str, target_path: &str) -> (plan: Staging)
    ensures
        plan.source@ == bundle_dir(base_dir@),
        plan.target@ == target_path@,
        plan.rules@ == bundle_policy(),
{
    Staging {
        source: join(base_dir, QWM_FOLDER),
        target: String::from_str(target_path),
        rules: bundle_rules(),
    }
}

/// What staging hands to its caller when the walk ended with `result`: the
/// text of success, the request to put the bundle beside the installer
/// where the source was missing, and any other failure as it is.
pub fn staging_outcome(result: Result<(), InstallError>) -> (outcome: Result<String, InstallError>)
    ensures
        outcome_view(outcome) == staging_view(status_view(result)),
{
    match result {
        Ok(_) => Ok(String::from_str("QWM folder copied successfully!")),
        Err(e) => {
            if e.kind == ErrorKind::SourceMissing {
                Err(
                    InstallError::new(
                        ErrorKind::SourceMissing,
                        String::from_str(
                            "QWM Ordner nicht gefunden, bitte in den selben Ordner packen wie den Installer!",
                        ),
                    ),
                )
            } else {
                Err(e)
            }
        },
    }
}

} // verus!

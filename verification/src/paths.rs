//! Paths as text, in the syntax of the one operating system that the
//! pipeline targets: components are parted by a backslash, and a slash is
//! read as a separator too.

use vstd::prelude::*;
use crate::error::{failure, outcome_view, ErrorKind, ErrorView, InstallError};

verus! {

/// Whether `c` parts two components of a path.
pub open spec fn is_separator(c: char) -> bool {
    c == '\\' || c == '/'
}

/// `name` adjoined to `base`: an empty base gives `name` alone, a base that
/// already ends in a separator gets no second one, and any other base gets
/// one backslash before `name`.
pub open spec fn join_spec(base: Seq<char>, name: Seq<char>) -> Seq<char> {
    if base.len() == 0 {
        name
    } else if is_separator(base.last()) {
        base + name
    } else {
        base + seq!['\\'] + name
    }
}

/// `chain` adjoined to `root`, one component after the other.
pub open spec fn resolve_spec(root: Seq<char>, chain: Seq<Seq<char>>) -> Seq<char>
    decreases chain.len(),
{
    if chain.len() == 0 {
        root
    } else {
        join_spec(resolve_spec(root, chain.drop_last()), chain.last())
    }
}

/// The path of `name` inside `base`.
pub fn join(base: &str, name: &str) -> (path: String)
    ensures
        path@ == join_spec(base@, name@),
{
    let n: usize = base.unicode_len();
    if n == 0 {
        return String::from_str(name);
    }
    let last = base.get_char(n - 1);
    let mut path = String::from_str(base);
    if !(last == '\\' || last == '/') {
        proof {
            reveal_strlit("\\");
            assert("\\"@ =~= seq!['\\']);
        }
        path.append("\\");
    }
    path.append(name);
    path
}

/// The path that the chain of components `chain` names below `root`.
pub fn resolve(root: &str, chain: &Vec<String>) -> (path: String)
    ensures
        path@ == resolve_spec(root@, chain.deep_view()),
{
    let mut path = String::from_str(root);
    let mut i: usize = 0;
    while i < chain.len()
        invariant
            i <= chain.len(),
            path@ == resolve_spec(root@, chain.deep_view().take(i as int)),
        decreases chain.len() - i,
    {
        proof {
            let next = chain.deep_view().take(i + 1);
            assert(next.drop_last() =~= chain.deep_view().take(i as int));
            assert(next.last() == chain[i as int]@);
        }
        path = join(path.as_str(), chain[i].as_str());
        i += 1;
    }
    assert(chain.deep_view().take(i as int) =~= chain.deep_view());
    path
}

/// The directory of the installer, from what the system said of where the
/// installer is: `Err` with the system's words where it could not say,
/// `Ok(None)` where the installer's path has no directory above it, else the
/// directory.
pub open spec fn installer_dir_view(located: Result<Option<String>, String>) -> Result<
    Seq<char>,
    ErrorView,
> {
    match located {
        Err(why) => Err(
            failure(
                ErrorKind::PathResolutionFailure,
                "Failed to locate current directory: "@,
                why@,
            ),
        ),
        Ok(None) => Err(
            ErrorView {
                kind: ErrorKind::PathResolutionFailure,
                message: "Failed to resolve parent directory"@,
            },
        ),
        Ok(Some(dir)) => Ok(dir@),
    }
}

/// The directory of the installer, or why it is not known.
pub fn get_installer_dir(located: Result<Option<String>, String>) -> (dir: Result<
    String,
    InstallError,
>)
    ensures
        outcome_view(dir) == installer_dir_view(located),
{
    match located {
        Err(why) => Err(
            InstallError::labelled(
                ErrorKind::PathResolutionFailure,
                "Failed to locate current directory: ",
                why.as_str(),
            ),
        ),
        Ok(None) => Err(
            InstallError::new(
                ErrorKind::PathResolutionFailure,
                String::from_str("Failed to resolve parent directory"),
            ),
        ),
        Ok(Some(dir)) => Ok(dir),
    }
}

} // verus!

//! Which entries of a directory tree are left out when it is mirrored.

use vstd::prelude::*;
use crate::text::{has_prefix, same_text, starts_with};

verus! {

/// One entry of a directory listing.
#[derive(Debug)]
pub struct Entry {
    pub name: String,
    pub is_dir: bool,
}

/// An entry of a directory listing, as contracts speak of it.
pub struct EntryView {
    pub name: Seq<char>,
    pub is_dir: bool,
}

impl View for Entry {
    type V = EntryView;

    open spec fn view(&self) -> EntryView {
        EntryView { name: self.name@, is_dir: self.is_dir }
    }
}

impl Entry {
    /// The entry called `name`, a directory if `is_dir`.
    pub fn new(name: &str, is_dir: bool) -> (entry: Entry)
        ensures
            entry@ == (EntryView { name: name@, is_dir }),
    {
        Entry { name: String::from_str(name), is_dir }
    }
}

/// The listing of a directory, as contracts speak of it.
pub open spec fn listing_view(entries: Seq<Entry>) -> Seq<EntryView> {
    entries.map_values(|e: Entry| e@)
}

/// The exclusion rules of one mirroring: directories whose name begins with
/// one of `dir_prefixes` and files called by one of `file_names` are left out.
#[derive(Debug)]
pub struct CopyRules {
    pub dir_prefixes: Vec<String>,
    pub file_names: Vec<String>,
}

/// Exclusion rules, as contracts speak of them.
pub struct Policy {
    pub dir_prefixes: Seq<Seq<char>>,
    pub file_names: Seq<Seq<char>>,
}

impl Policy {
    /// Whether the entry called `name` is left out.
    pub open spec fn excludes(self, name: Seq<char>, is_dir: bool) -> bool {
        if is_dir {
            exists|i: int|
                0 <= i < self.dir_prefixes.len() && starts_with(
                    name,
                    #[trigger] self.dir_prefixes[i],
                )
        } else {
            exists|i: int| 0 <= i < self.file_names.len() && #[trigger] self.file_names[i] == name
        }
    }
}

impl View for CopyRules {
    type V = Policy;

    open spec fn view(&self) -> Policy {
        Policy {
            dir_prefixes: self.dir_prefixes.deep_view(),
            file_names: self.file_names.deep_view(),
        }
    }
}

impl CopyRules {
    /// Rules that leave nothing out.
    pub fn new() -> (rules: CopyRules)
        ensures
            rules@ == (Policy { dir_prefixes: Seq::empty(), file_names: Seq::empty() }),
    {
        let rules = CopyRules { dir_prefixes: Vec::new(), file_names: Vec::new() };
        assert(rules.dir_prefixes.deep_view() =~= Seq::empty());
        assert(rules.file_names.deep_view() =~= Seq::empty());
        rules
    }

    /// The same rules, which also leave out directories whose name begins with `prefix`.
    pub fn without_dirs_starting(self, prefix: &str) -> (rules: CopyRules)
        ensures
            rules@ == (Policy {
                dir_prefixes: self@.dir_prefixes.push(prefix@),
                file_names: self@.file_names,
            }),
    {
        let mut rules = self;
        rules.dir_prefixes.push(String::from_str(prefix));
        assert(rules.dir_prefixes.deep_view() =~= self@.dir_prefixes.push(prefix@));
        rules
    }

    /// The same rules, which also leave out files called `name`.
    pub fn without_file(self, name: &str) -> (rules: CopyRules)
        ensures
            rules@ == (Policy {
                dir_prefixes: self@.dir_prefixes,
                file_names: self@.file_names.push(name@),
            }),
    {
        let mut rules = self;
        rules.file_names.push(String::from_str(name));
        assert(rules.file_names.deep_view() =~= self@.file_names.push(name@));
        rules
    }

    /// Whether the entry called `name` is left out: decided for each entry
    /// when it is met, from its name and from whether it is a directory.
    pub fn is_excluded(&self, name: &str, is_dir: bool) -> (out: bool)
        ensures
            out == self@.excludes(name@, is_dir),
    {
        let mut i: usize = 0;
        if is_dir {
            while i < self.dir_prefixes.len()
                invariant
                    is_dir,
                    i <= self.dir_prefixes.len(),
                    forall|k: int| 0 <= k < i ==> !starts_with(name@, #[trigger] self@.dir_prefixes[k]),
                decreases self.dir_prefixes.len() - i,
            {
                if has_prefix(name, self.dir_prefixes[i].as_str()) {
                    assert(self@.dir_prefixes.len() == self.dir_prefixes.len());
                    assert(starts_with(name@, self@.dir_prefixes[i as int]));
                    return true;
                }
                i += 1;
            }
        } else {
            while i < self.file_names.len()
                invariant
                    !is_dir,
                    i <= self.file_names.len(),
                    forall|k: int| 0 <= k < i ==> #[trigger] self@.file_names[k] != name@,
                decreases self.file_names.len() - i,
            {
                if same_text(name, self.file_names[i].as_str()) {
                    assert(self@.file_names.len() == self.file_names.len());
                    assert(self@.file_names[i as int] == name@);
                    return true;
                }
                i += 1;
            }
        }
        false
    }
}

} // verus!

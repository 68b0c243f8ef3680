//! Mirroring a directory tree, one entry at a time.
//!
//! A [`Replicator`] walks the source depth first. It never reads or writes
//! anything: it asks the caller to list a directory, to make one, or to
//! copy a file, and is told how that went. Every path it speaks of is a
//! chain of names below the two roots, the same below the source as below
//! the destination, so the mirror has the structure of the source.
//!
//! An entry is judged by the rules when the walk meets it. A directory that
//! the rules leave out is never listed, so nothing below it is ever seen.
//! The first failure ends the walk; what was copied before stays.

use vstd::prelude::*;
use crate::error::{status_view, ErrorKind, ErrorView, InstallError};
use crate::rules::{listing_view, CopyRules, Entry, EntryView, Policy};
use crate::text::copy_texts;

verus! {

/// A directory that is being walked: its listing, and how many of its
/// entries were dealt with.
#[derive(Debug)]
pub struct Frame {
    pub entries: Vec<Entry>,
    pub next: usize,
}

/// A directory that is being walked, as contracts speak of it.
pub struct FrameView {
    pub entries: Seq<EntryView>,
    pub next: nat,
}

impl View for Frame {
    type V = FrameView;

    open spec fn view(&self) -> FrameView {
        FrameView { entries: listing_view(self.entries@), next: self.next as nat }
    }
}

/// Where a walk stands.
#[derive(Clone, Copy, Debug, PartialEq, Eq, Structural)]
pub enum Stage {
    /// Nothing was done yet.
    Ready,
    /// The caller was asked whether the source exists.
    Probing,
    /// The caller was asked to make the directory that the walk enters.
    Making,
    /// The caller was asked to list the directory that the walk enters.
    Listing,
    /// The walk is inside a directory.
    Walking,
    /// The walk is over.
    Finished,
}

/// What the caller tells a walk.
#[derive(Debug)]
pub enum TreeEvent {
    /// The walk is to begin.
    Begin,
    /// Whether the source directory exists.
    Exists(bool),
    /// The entries of the directory that was to be listed, in the order in
    /// which the filesystem gave them.
    Listed(Vec<Entry>),
    /// What was asked was done.
    Completed,
    /// What was asked failed; the system's words.
    Failed(String),
}

/// What the caller tells a walk, as contracts speak of it.
pub enum TreeEventView {
    Begin,
    Exists(bool),
    Listed(Seq<EntryView>),
    Completed,
    Failed(Seq<char>),
}

impl View for TreeEvent {
    type V = TreeEventView;

    open spec fn view(&self) -> TreeEventView {
        match self {
            TreeEvent::Begin => TreeEventView::Begin,
            TreeEvent::Exists(present) => TreeEventView::Exists(*present),
            TreeEvent::Listed(entries) => TreeEventView::Listed(listing_view(entries@)),
            TreeEvent::Completed => TreeEventView::Completed,
            TreeEvent::Failed(why) => TreeEventView::Failed(why@),
        }
    }
}

/// What a walk asks of the caller. A chain names the same place below the
/// source and below the destination; the empty chain names the two roots.
#[derive(Debug)]
pub enum TreeAction {
    /// Say whether the source directory exists.
    Probe,
    /// Make sure that the destination has a directory here. One that is
    /// there already is no failure.
    MakeDir(Vec<String>),
    /// List the source directory here.
    List(Vec<String>),
    /// Copy the bytes of the source file here to the destination, over any
    /// file that is there.
    Copy(Vec<String>),
    /// The rules leave this entry out: there is nothing to do.
    Skip(Vec<String>),
    /// The directory here was dealt with: there is nothing to do.
    Leave(Vec<String>),
    /// The walk is over, with this result.
    Finish(Result<(), InstallError>),
    /// The event was not the answer to what was asked: the walk was given up.
    Halted,
}

/// What a walk asks of the caller, as contracts speak of it.
pub enum TreeActionView {
    Probe,
    MakeDir(Seq<Seq<char>>),
    List(Seq<Seq<char>>),
    Copy(Seq<Seq<char>>),
    Skip(Seq<Seq<char>>),
    Leave(Seq<Seq<char>>),
    Finish(Result<(), ErrorView>),
    Halted,
}

impl View for TreeAction {
    type V = TreeActionView;

    open spec fn view(&self) -> TreeActionView {
        match self {
            TreeAction::Probe => TreeActionView::Probe,
            TreeAction::MakeDir(chain) => TreeActionView::MakeDir(chain.deep_view()),
            TreeAction::List(chain) => TreeActionView::List(chain.deep_view()),
            TreeAction::Copy(chain) => TreeActionView::Copy(chain.deep_view()),
            TreeAction::Skip(chain) => TreeActionView::Skip(chain.deep_view()),
            TreeAction::Leave(chain) => TreeActionView::Leave(chain.deep_view()),
            TreeAction::Finish(r) => TreeActionView::Finish(status_view(*r)),
            TreeAction::Halted => TreeActionView::Halted,
        }
    }
}

/// A walk: the rules, the directories it is inside of, outermost first, the
/// chain of the innermost of them, and where it stands.
#[derive(Debug)]
pub struct Replicator {
    pub rules: CopyRules,
    pub stack: Vec<Frame>,
    pub path: Vec<String>,
    pub stage: Stage,
}

/// A walk, as contracts speak of it.
pub struct WalkView {
    pub rules: Policy,
    pub stack: Seq<FrameView>,
    pub path: Seq<Seq<char>>,
    pub stage: Stage,
}

impl View for Replicator {
    type V = WalkView;

    open spec fn view(&self) -> WalkView {
        WalkView {
            rules: self.rules@,
            stack: self.stack@.map_values(|f: Frame| f@),
            path: self.path.deep_view(),
            stage: self.stage,
        }
    }
}

/// A walk under `rules` that has not begun.
pub open spec fn initial(rules: Policy) -> WalkView {
    WalkView { rules, stack: Seq::empty(), path: Seq::empty(), stage: Stage::Ready }
}

/// The chain of the directory above the one at `path`; the root is its own.
pub open spec fn above(path: Seq<Seq<char>>) -> Seq<Seq<char>> {
    if path.len() > 0 {
        path.drop_last()
    } else {
        path
    }
}

/// The failure that ends a walk whose source does not exist.
pub open spec fn source_missing() -> ErrorView {
    ErrorView { kind: ErrorKind::SourceMissing, message: "source directory not found"@ }
}

/// The failure that ends a walk when the caller reports one.
pub open spec fn copy_failure(why: Seq<char>) -> ErrorView {
    ErrorView { kind: ErrorKind::CopyFailure, message: why }
}

/// The next thing a walk does inside the directories of `stack`, the
/// innermost of which is at `path`.
///
/// With no directory left the walk ends in success. A directory whose
/// entries were all dealt with is left. Else the next entry is dealt with:
/// left out if the rules say so, entered if it is a directory, copied if it
/// is a file.
pub open spec fn visit_spec(rules: Policy, stack: Seq<FrameView>, path: Seq<Seq<char>>) -> (
    WalkView,
    TreeActionView,
) {
    if stack.len() == 0 {
        (WalkView { rules, stack, path, stage: Stage::Finished }, TreeActionView::Finish(Ok(())))
    } else {
        let top = stack.last();
        if top.next >= top.entries.len() {
            (
                WalkView { rules, stack: stack.drop_last(), path: above(path), stage: Stage::Walking },
                TreeActionView::Leave(path),
            )
        } else {
            let entry = top.entries[top.next as int];
            let chain = path.push(entry.name);
            let advanced = stack.update(
                stack.len() - 1,
                FrameView { entries: top.entries, next: top.next + 1 },
            );
            if rules.excludes(entry.name, entry.is_dir) {
                (
                    WalkView { rules, stack: advanced, path, stage: Stage::Walking },
                    TreeActionView::Skip(chain),
                )
            } else if entry.is_dir {
                (
                    WalkView { rules, stack: advanced, path: chain, stage: Stage::Making },
                    TreeActionView::MakeDir(chain),
                )
            } else {
                (
                    WalkView { rules, stack: advanced, path, stage: Stage::Walking },
                    TreeActionView::Copy(chain),
                )
            }
        }
    }
}

/// The walk `w` when it is over.
pub open spec fn ended(w: WalkView) -> WalkView {
    WalkView { stage: Stage::Finished, ..w }
}

/// One transition of a walk: from where it stands and what the caller tells
/// it, to where it stands next and what it asks.
pub open spec fn walk_next(w: WalkView, event: TreeEventView) -> (WalkView, TreeActionView) {
    match (w.stage, event) {
        (Stage::Ready, TreeEventView::Begin) => (
            WalkView { stage: Stage::Probing, ..w },
            TreeActionView::Probe,
        ),
        (Stage::Probing, TreeEventView::Exists(present)) => {
            if present {
                (WalkView { stage: Stage::Making, ..w }, TreeActionView::MakeDir(w.path))
            } else {
                (ended(w), TreeActionView::Finish(Err(source_missing())))
            }
        },
        (Stage::Making, TreeEventView::Completed) => (
            WalkView { stage: Stage::Listing, ..w },
            TreeActionView::List(w.path),
        ),
        (Stage::Listing, TreeEventView::Listed(entries)) => visit_spec(
            w.rules,
            w.stack.push(FrameView { entries, next: 0 }),
            w.path,
        ),
        (Stage::Walking, TreeEventView::Completed) => visit_spec(w.rules, w.stack, w.path),
        (Stage::Making, TreeEventView::Failed(why)) => (
            ended(w),
            TreeActionView::Finish(Err(copy_failure(why))),
        ),
        (Stage::Listing, TreeEventView::Failed(why)) => (
            ended(w),
            TreeActionView::Finish(Err(copy_failure(why))),
        ),
        (Stage::Walking, TreeEventView::Failed(why)) => (
            ended(w),
            TreeActionView::Finish(Err(copy_failure(why))),
        ),
        _ => (ended(w), TreeActionView::Halted),
    }
}

impl Replicator {
    /// A walk under `rules` that has not begun.
    pub fn new(rules: CopyRules) -> (walk: Replicator)
        ensures
            walk@ == initial(rules@),
    {
        let walk = Replicator { rules, stack: Vec::new(), path: Vec::new(), stage: Stage::Ready };
        assert(walk@.stack =~= Seq::empty());
        assert(walk@.path =~= Seq::empty());
        walk
    }

    fn visit(&mut self) -> (action: TreeAction)
        ensures
            (final(self)@, action@) == visit_spec(old(self)@.rules, old(self)@.stack, old(self)@.path),
    {
        let depth: usize = self.stack.len();
        if depth == 0 {
            self.stage = Stage::Finished;
            assert(self@.stack =~= old(self)@.stack);
            return TreeAction::Finish(Ok(()));
        }
        let ghost before = old(self)@;
        assert(before.stack.last() == self.stack[depth - 1]@);
        let next: usize = self.stack[depth - 1].next;
        if next >= self.stack[depth - 1].entries.len() {
            let here = copy_texts(&self.path);
            self.stack.pop();
            if self.path.len() > 0 {
                self.path.pop();
                assert(self.path.deep_view() =~= before.path.drop_last());
            }
            self.stage = Stage::Walking;
            assert(self@.stack =~= before.stack.drop_last());
            return TreeAction::Leave(here);
        }
        let mut frame = self.stack.pop().unwrap();
        let name = frame.entries[next].name.clone();
        let is_dir = frame.entries[next].is_dir;
        assert(before.stack.last().entries[next as int] == frame.entries[next as int]@);
        frame.next = next + 1;
        self.stack.push(frame);
        assert(self@.stack =~= before.stack.update(
            depth - 1,
            FrameView { entries: before.stack.last().entries, next: (next + 1) as nat },
        ));
        let mut chain = copy_texts(&self.path);
        chain.push(name.clone());
        assert(chain.deep_view() =~= before.path.push(name@));
        if self.rules.is_excluded(name.as_str(), is_dir) {
            self.stage = Stage::Walking;
            TreeAction::Skip(chain)
        } else if is_dir {
            self.path.push(name);
            self.stage = Stage::Making;
            assert(self.path.deep_view() =~= before.path.push(name@));
            TreeAction::MakeDir(chain)
        } else {
            self.stage = Stage::Walking;
            TreeAction::Copy(chain)
        }
    }

    fn end(&mut self)
        ensures
            final(self)@ == ended(old(self)@),
    {
        self.stage = Stage::Finished;
    }

    /// Takes what the caller tells and answers what to do next.
    pub fn advance(&mut self, event: TreeEvent) -> (action: TreeAction)
        ensures
            (final(self)@, action@) == walk_next(old(self)@, event@),
    {
        match (self.stage, event) {
            (Stage::Ready, TreeEvent::Begin) => {
                self.stage = Stage::Probing;
                TreeAction::Probe
            },
            (Stage::Probing, TreeEvent::Exists(present)) => {
                if present {
                    self.stage = Stage::Making;
                    TreeAction::MakeDir(copy_texts(&self.path))
                } else {
                    self.end();
                    TreeAction::Finish(
                        Err(
                            InstallError::new(
                                ErrorKind::SourceMissing,
                                String::from_str("source directory not found"),
                            ),
                        ),
                    )
                }
            },
            (Stage::Making, TreeEvent::Completed) => {
                self.stage = Stage::Listing;
                TreeAction::List(copy_texts(&self.path))
            },
            (Stage::Listing, TreeEvent::Listed(entries)) => {
                self.stack.push(Frame { entries, next: 0 });
                assert(self@.stack =~= old(self)@.stack.push(
                    FrameView { entries: listing_view(entries@), next: 0 },
                ));
                self.visit()
            },
            (Stage::Walking, TreeEvent::Completed) => self.visit(),
            (Stage::Making, TreeEvent::Failed(why)) => {
                self.end();
                TreeAction::Finish(Err(InstallError::new(ErrorKind::CopyFailure, why)))
            },
            (Stage::Listing, TreeEvent::Failed(why)) => {
                self.end();
                TreeAction::Finish(Err(InstallError::new(ErrorKind::CopyFailure, why)))
            },
            (Stage::Walking, TreeEvent::Failed(why)) => {
                self.end();
                TreeAction::Finish(Err(InstallError::new(ErrorKind::CopyFailure, why)))
            },
            _ => {
                self.end();
                TreeAction::Halted
            },
        }
    }
}

/// What a walk that stands as `w` says asks, event after event, when it is
/// told `events` in turn.
pub open spec fn walk_trace(w: WalkView, events: Seq<TreeEventView>) -> Seq<TreeActionView>
    decreases events.len(),
{
    if events.len() == 0 {
        Seq::empty()
    } else {
        let (next, action) = walk_next(w, events[0]);
        seq![action] + walk_trace(next, events.drop_first())
    }
}

/// Each event is answered by one action.
pub proof fn lemma_walk_trace_len(w: WalkView, events: Seq<TreeEventView>)
    ensures
        walk_trace(w, events).len() == events.len(),
    decreases events.len(),
{
    if events.len() > 0 {
        lemma_walk_trace_len(walk_next(w, events[0]).0, events.drop_first());
    }
}

/// A walk that is over asks for nothing more.
proof fn lemma_finished_walk_is_halted(w: WalkView, events: Seq<TreeEventView>, k: int)
    requires
        w.stage == Stage::Finished,
        0 <= k < events.len(),
    ensures
        walk_trace(w, events).len() == events.len(),
        walk_trace(w, events)[k] == TreeActionView::Halted,
    decreases events.len(),
{
    let next = walk_next(w, events[0]).0;
    let rest = events.drop_first();
    lemma_walk_trace_len(w, events);
    lemma_walk_trace_len(next, rest);
    if k > 0 {
        lemma_finished_walk_is_halted(next, rest, k - 1);
    }
}

/// The first failure ends a walk: when a walk that has asked for something
/// is told that it failed, it ends with a failure of class `CopyFailure`
/// that carries the system's words, and asks for nothing more, whatever it
/// is told afterwards.
pub proof fn law_first_failure_ends_the_walk(
    w: WalkView,
    why: Seq<char>,
    events: Seq<TreeEventView>,
)
    requires
        w.stage == Stage::Making || w.stage == Stage::Listing || w.stage == Stage::Walking,
        events.len() > 0,
        events[0] == TreeEventView::Failed(why),
    ensures
        walk_trace(w, events).len() == events.len(),
        walk_trace(w, events)[0] == TreeActionView::Finish(Err(copy_failure(why))),
        forall|k: int| 1 <= k < events.len() ==> walk_trace(w, events)[k] == TreeActionView::Halted,
{
    let rest = events.drop_first();
    lemma_walk_trace_len(w, events);
    lemma_walk_trace_len(ended(w), rest);
    assert forall|k: int| 1 <= k < events.len() implies walk_trace(w, events)[k]
        == TreeActionView::Halted by {
        lemma_finished_walk_is_halted(ended(w), rest, k - 1);
    }
}

} // verus!

//! Unpacking the bundled archive into a directory.
//!
//! An [`Extraction`] never opens or writes a file itself. It asks the caller
//! to look for the archive, to open it, to make the destination, and to
//! write the entries one by one, each under the path it has inside the
//! archive. The first entry that cannot be written ends the extraction;
//! what was written before stays.

use vstd::prelude::*;
use crate::error::{failure, status_view, ErrorKind, ErrorView, InstallError};
use crate::paths::{join, join_spec};
use crate::text::{ends_with, has_suffix};

verus! {

/// What the name of a supported archive ends with.
pub const ARCHIVE_SUFFIX: &'static str = ".zip";

/// Which archive to unpack, where to, and what its name has to end with.
#[derive(Debug)]
pub struct ArchivePlan {
    pub archive: String,
    pub destination: String,
    pub suffix: String,
}

/// Where an extraction stands.
#[derive(Clone, Copy, Debug, PartialEq, Eq, Structural)]
pub enum ExtractStage {
    /// Nothing was done yet.
    Ready,
    /// The caller was asked whether the archive exists.
    Probing,
    /// The caller was asked to open the archive.
    Opening,
    /// The caller was asked to make the destination.
    Preparing,
    /// The caller was asked to write the entry of this index.
    Extracting(usize),
    /// The extraction is over.
    Finished,
}

/// What the caller tells an extraction.
#[derive(Debug)]
pub enum ArchiveEvent {
    /// The extraction is to begin.
    Begin,
    /// Whether the archive file exists.
    Exists(bool),
    /// The archive was opened; the paths of its entries, as it holds them.
    Opened(Vec<String>),
    /// The file could not be read as an archive; why.
    Unreadable(String),
    /// What was asked was done.
    Completed,
    /// What was asked failed; the system's words.
    Failed(String),
}

/// What an extraction asks of the caller.
#[derive(Debug)]
pub enum ArchiveAction {
    /// Say whether this file exists.
    Probe(String),
    /// Open this file as an archive and list its entries.
    Open(String),
    /// Make sure that this directory exists.
    Prepare(String),
    /// Write the entry of this index to this path, making the directories
    /// on the way to it.
    Extract { index: usize, into: String },
    /// The extraction is over, with this result.
    Finish(Result<(), InstallError>),
    /// The event was not the answer to what was asked: the extraction was given up.
    Halted,
}

/// What an extraction asks of the caller, as contracts speak of it.
pub enum ArchiveActionView {
    Probe(Seq<char>),
    Open(Seq<char>),
    Prepare(Seq<char>),
    Extract { index: usize, into: Seq<char> },
    Finish(Result<(), ErrorView>),
    Halted,
}

impl View for ArchiveAction {
    type V = ArchiveActionView;

    open spec fn view(&self) -> ArchiveActionView {
        match self {
            ArchiveAction::Probe(path) => ArchiveActionView::Probe(path@),
            ArchiveAction::Open(path) => ArchiveActionView::Open(path@),
            ArchiveAction::Prepare(path) => ArchiveActionView::Prepare(path@),
            ArchiveAction::Extract { index, into } => ArchiveActionView::Extract {
                index: *index,
                into: into@,
            },
            ArchiveAction::Finish(r) => ArchiveActionView::Finish(status_view(*r)),
            ArchiveAction::Halted => ArchiveActionView::Halted,
        }
    }
}

/// The failure of an extraction whose archive is absent.
pub open spec fn archive_missing(plan: ArchivePlan) -> ErrorView {
    failure(ErrorKind::NotFound, "Archive not found: "@, plan.archive@)
}

/// The failure of an extraction whose file is not named as an archive.
pub open spec fn archive_misnamed(plan: ArchivePlan) -> ErrorView {
    failure(ErrorKind::InvalidFormat, "Not a supported archive: "@, plan.archive@)
}

/// What is asked once the entries before index `i` were written: the next
/// entry, under its own path below the destination, or the end when none is
/// left.
pub open spec fn unpack(plan: ArchivePlan, entries: Seq<Seq<char>>, i: int) -> (
    Seq<Seq<char>>,
    ExtractStage,
    ArchiveActionView,
) {
    if 0 <= i < entries.len() && i <= usize::MAX {
        (
            entries,
            ExtractStage::Extracting(i as usize),
            ArchiveActionView::Extract {
                index: i as usize,
                into: join_spec(plan.destination@, entries[i]),
            },
        )
    } else {
        (entries, ExtractStage::Finished, ArchiveActionView::Finish(Ok(())))
    }
}

/// One transition of an extraction: from the entries it knows of, where it
/// stands and what the caller tells it, to the entries it then knows of,
/// where it stands next and what it asks.
pub open spec fn extract_next(
    plan: ArchivePlan,
    entries: Seq<Seq<char>>,
    stage: ExtractStage,
    event: ArchiveEvent,
) -> (Seq<Seq<char>>, ExtractStage, ArchiveActionView) {
    match (stage, event) {
        (ExtractStage::Ready, ArchiveEvent::Begin) => (
            entries,
            ExtractStage::Probing,
            ArchiveActionView::Probe(plan.archive@),
        ),
        (ExtractStage::Probing, ArchiveEvent::Exists(present)) => {
            if !present {
                (
                    entries,
                    ExtractStage::Finished,
                    ArchiveActionView::Finish(Err(archive_missing(plan))),
                )
            } else if !ends_with(plan.archive@, plan.suffix@) {
                (
                    entries,
                    ExtractStage::Finished,
                    ArchiveActionView::Finish(Err(archive_misnamed(plan))),
                )
            } else {
                (entries, ExtractStage::Opening, ArchiveActionView::Open(plan.archive@))
            }
        },
        (ExtractStage::Opening, ArchiveEvent::Opened(names)) => (
            names.deep_view(),
            ExtractStage::Preparing,
            ArchiveActionView::Prepare(plan.destination@),
        ),
        (ExtractStage::Opening, ArchiveEvent::Unreadable(why)) => (
            entries,
            ExtractStage::Finished,
            ArchiveActionView::Finish(
                Err(ErrorView { kind: ErrorKind::InvalidFormat, message: why@ }),
            ),
        ),
        (ExtractStage::Preparing, ArchiveEvent::Completed) => unpack(plan, entries, 0),
        (ExtractStage::Extracting(i), ArchiveEvent::Completed) => {
            if i < entries.len() {
                unpack(plan, entries, i + 1)
            } else {
                (entries, ExtractStage::Finished, ArchiveActionView::Halted)
            }
        },
        (ExtractStage::Preparing, ArchiveEvent::Failed(why)) => (
            entries,
            ExtractStage::Finished,
            ArchiveActionView::Finish(
                Err(ErrorView { kind: ErrorKind::ExtractionFailure, message: why@ }),
            ),
        ),
        (ExtractStage::Extracting(_), ArchiveEvent::Failed(why)) => (
            entries,
            ExtractStage::Finished,
            ArchiveActionView::Finish(
                Err(ErrorView { kind: ErrorKind::ExtractionFailure, message: why@ }),
            ),
        ),
        _ => (entries, ExtractStage::Finished, ArchiveActionView::Halted),
    }
}

/// An extraction: its plan, the entries of the archive once it was opened,
/// and where it stands.
#[derive(Debug)]
pub struct Extraction {
    pub plan: ArchivePlan,
    pub entries: Vec<String>,
    pub stage: ExtractStage,
}

impl ArchivePlan {
    /// The plan to unpack `archive`, whose name has to end with `suffix`, into `destination`.
    pub fn new(archive: &str, destination: &str, suffix: &str) -> (plan: ArchivePlan)
        ensures
            plan.archive@ == archive@,
            plan.destination@ == destination@,
            plan.suffix@ == suffix@,
    {
        ArchivePlan {
            archive: String::from_str(archive),
            destination: String::from_str(destination),
            suffix: String::from_str(suffix),
        }
    }

    /// The plan to unpack the bundled archive `archive` into `destination`.
    pub fn bundled(archive: &str, destination: &str) -> (plan: ArchivePlan)
        ensures
            plan.archive@ == archive@,
            plan.destination@ == destination@,
            plan.suffix@ == ARCHIVE_SUFFIX@,
    {
        ArchivePlan::new(archive, destination, ARCHIVE_SUFFIX)
    }
}

impl Extraction {
    /// An extraction after `plan` that has not begun.
    pub fn new(plan: ArchivePlan) -> (run: Extraction)
        ensures
            run.plan == plan,
            run.entries.deep_view() == Seq::<Seq<char>>::empty(),
            run.stage == ExtractStage::Ready,
    {
        let run = Extraction { plan, entries: Vec::new(), stage: ExtractStage::Ready };
        assert(run.entries.deep_view() =~= Seq::<Seq<char>>::empty());
        run
    }

    fn ask_after(&mut self, i: usize) -> (action: ArchiveAction)
        ensures
            final(self).plan == old(self).plan,
            (final(self).entries.deep_view(), final(self).stage, action@) == unpack(
                old(self).plan,
                old(self).entries.deep_view(),
                i as int,
            ),
    {
        if i < self.entries.len() {
            self.stage = ExtractStage::Extracting(i);
            let into = join(self.plan.destination.as_str(), self.entries[i].as_str());
            ArchiveAction::Extract { index: i, into }
        } else {
            self.stage = ExtractStage::Finished;
            ArchiveAction::Finish(Ok(()))
        }
    }

    fn finish(&mut self, e: InstallError) -> (action: ArchiveAction)
        ensures
            final(self).plan == old(self).plan,
            final(self).entries == old(self).entries,
            final(self).stage == ExtractStage::Finished,
            action@ == ArchiveActionView::Finish(Err(e@)),
    {
        self.stage = ExtractStage::Finished;
        ArchiveAction::Finish(Err(e))
    }

    /// Takes what the caller tells and answers what to do next.
    ///
    /// A file that is absent ends the extraction as `NotFound`. A file whose
    /// name does not end as the plan says ends it as `InvalidFormat` before
    /// anything is opened, and so does a file that cannot be read as an
    /// archive. A failure to write ends it as `ExtractionFailure`.
    pub fn advance(&mut self, event: ArchiveEvent) -> (action: ArchiveAction)
        ensures
            final(self).plan == old(self).plan,
            (final(self).entries.deep_view(), final(self).stage, action@) == extract_next(
                old(self).plan,
                old(self).entries.deep_view(),
                old(self).stage,
                event,
            ),
    {
        match (self.stage, event) {
            (ExtractStage::Ready, ArchiveEvent::Begin) => {
                self.stage = ExtractStage::Probing;
                ArchiveAction::Probe(self.plan.archive.clone())
            },
            (ExtractStage::Probing, ArchiveEvent::Exists(present)) => {
                if !present {
                    let e = InstallError::labelled(
                        ErrorKind::NotFound,
                        "Archive not found: ",
                        self.plan.archive.as_str(),
                    );
                    self.finish(e)
                } else if !has_suffix(self.plan.archive.as_str(), self.plan.suffix.as_str()) {
                    let e = InstallError::labelled(
                        ErrorKind::InvalidFormat,
                        "Not a supported archive: ",
                        self.plan.archive.as_str(),
                    );
                    self.finish(e)
                } else {
                    self.stage = ExtractStage::Opening;
                    ArchiveAction::Open(self.plan.archive.clone())
                }
            },
            (ExtractStage::Opening, ArchiveEvent::Opened(names)) => {
                self.entries = names;
                self.stage = ExtractStage::Preparing;
                ArchiveAction::Prepare(self.plan.destination.clone())
            },
            (ExtractStage::Opening, ArchiveEvent::Unreadable(why)) => {
                self.finish(InstallError::new(ErrorKind::InvalidFormat, why))
            },
            (ExtractStage::Preparing, ArchiveEvent::Completed) => self.ask_after(0),
            (ExtractStage::Extracting(i), ArchiveEvent::Completed) => {
                if i < self.entries.len() {
                    self.ask_after(i + 1)
                } else {
                    self.stage = ExtractStage::Finished;
                    ArchiveAction::Halted
                }
            },
            (ExtractStage::Preparing, ArchiveEvent::Failed(why)) => {
                self.finish(InstallError::new(ErrorKind::ExtractionFailure, why))
            },
            (ExtractStage::Extracting(_), ArchiveEvent::Failed(why)) => {
                self.finish(InstallError::new(ErrorKind::ExtractionFailure, why))
            },
            _ => {
                self.stage = ExtractStage::Finished;
                ArchiveAction::Halted
            },
        }
    }
}

/// What an extraction that knows of `entries` and stands at `stage` asks,
/// event after event, when it is told `events` in turn.
pub open spec fn archive_trace(
    plan: ArchivePlan,
    entries: Seq<Seq<char>>,
    stage: ExtractStage,
    events: Seq<ArchiveEvent>,
) -> Seq<ArchiveActionView>
    decreases events.len(),
{
    if events.len() == 0 {
        Seq::empty()
    } else {
        let (known, next, action) = extract_next(plan, entries, stage, events[0]);
        seq![action] + archive_trace(plan, known, next, events.drop_first())
    }
}

/// An extraction of a file that is not named as an archive never gets past
/// looking for the file.
proof fn lemma_misnamed_trace(
    plan: ArchivePlan,
    entries: Seq<Seq<char>>,
    stage: ExtractStage,
    events: Seq<ArchiveEvent>,
    k: int,
)
    requires
        !ends_with(plan.archive@, plan.suffix@),
        stage == ExtractStage::Ready || stage == ExtractStage::Probing || stage
            == ExtractStage::Finished,
        0 <= k < events.len(),
    ensures
        archive_trace(plan, entries, stage, events).len() == events.len(),
        archive_trace(plan, entries, stage, events)[k] !is Open,
        archive_trace(plan, entries, stage, events)[k] !is Prepare,
        archive_trace(plan, entries, stage, events)[k] !is Extract,
    decreases events.len(),
{
    let (known, next, action) = extract_next(plan, entries, stage, events[0]);
    let rest = events.drop_first();
    lemma_archive_trace_len(plan, known, next, rest);
    if k > 0 {
        lemma_misnamed_trace(plan, known, next, rest, k - 1);
    }
}

/// Each event is answered by one action.
pub proof fn lemma_archive_trace_len(
    plan: ArchivePlan,
    entries: Seq<Seq<char>>,
    stage: ExtractStage,
    events: Seq<ArchiveEvent>,
)
    ensures
        archive_trace(plan, entries, stage, events).len() == events.len(),
    decreases events.len(),
{
    if events.len() > 0 {
        let (known, next, action) = extract_next(plan, entries, stage, events[0]);
        lemma_archive_trace_len(plan, known, next, events.drop_first());
    }
}

/// A file that is not named as an archive is rejected as `InvalidFormat`
/// and never opened: whatever an extraction of such a file is told, it asks
/// neither to open the file nor to write anything, and when it is told to
/// begin and that the file exists, it ends with that failure.
pub proof fn law_misnamed_archive_is_never_opened(plan: ArchivePlan, events: Seq<ArchiveEvent>)
    requires
        !ends_with(plan.archive@, plan.suffix@),
    ensures
        archive_trace(plan, Seq::empty(), ExtractStage::Ready, events).len() == events.len(),
        forall|k: int|
            0 <= k < events.len() ==> {
                let action = #[trigger] archive_trace(
                    plan,
                    Seq::empty(),
                    ExtractStage::Ready,
                    events,
                )[k];
                action !is Open && action !is Prepare && action !is Extract
            },
        events.len() >= 2 && events[0] == ArchiveEvent::Begin && events[1] == ArchiveEvent::Exists(
            true,
        ) ==> archive_trace(plan, Seq::empty(), ExtractStage::Ready, events)[1]
            == ArchiveActionView::Finish(Err(archive_misnamed(plan))),
{
    let entries = Seq::<Seq<char>>::empty();
    lemma_archive_trace_len(plan, entries, ExtractStage::Ready, events);
    assert forall|k: int| 0 <= k < events.len() implies {
        let action = #[trigger] archive_trace(plan, entries, ExtractStage::Ready, events)[k];
        action !is Open && action !is Prepare && action !is Extract
    } by {
        lemma_misnamed_trace(plan, entries, ExtractStage::Ready, events, k);
    }
    if events.len() >= 2 && events[0] == ArchiveEvent::Begin && events[1] == ArchiveEvent::Exists(
        true,
    ) {
        let rest = events.drop_first();
        assert(rest[0] == events[1]);
        lemma_archive_trace_len(plan, entries, ExtractStage::Probing, rest);
        lemma_archive_trace_len(plan, entries, ExtractStage::Finished, rest.drop_first());
    }
}

} // verus!

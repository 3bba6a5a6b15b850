//! The cache rule and the steps by which one input file is resolved into a
//! trace matrix.
//!
//! A file is resolved either by reading the archive that an earlier run left
//! beside it, or by synthesizing from its waveform and leaving such an
//! archive.  The cache rule decides which; the steps say what is to be done next
//! once the last thing done has come back.

use vstd::prelude::*;

verus! {

/// What is known of the two files that the cache rule weighs.  A time of
/// modification is counted in nanoseconds from the Unix epoch, and absent
/// where it could not be had.
#[derive(Clone, Copy, Debug)]
pub struct CacheFacts {
    pub archive_exists: bool,
    pub waveform_exists: bool,
    pub archive_modified: Option<i128>,
    pub waveform_modified: Option<i128>,
}

/// Whether the archive was modified strictly later than the waveform, both
/// times being known.
pub open spec fn archive_newer(facts: CacheFacts) -> bool {
    match (facts.archive_modified, facts.waveform_modified) {
        (Some(archive), Some(waveform)) => archive > waveform,
        _ => false,
    }
}

/// The cache rule: the archive is reused only where reuse is enabled,
/// the archive exists, and the waveform is either missing or older than the
/// archive.
pub open spec fn reuse_allowed(use_existing: bool, facts: CacheFacts) -> bool {
    use_existing && facts.archive_exists && (!facts.waveform_exists || archive_newer(facts))
}

/// Decides whether the archive of a file is reused in place of a new
/// synthesis.
pub fn cache_gate(use_existing: bool, facts: &CacheFacts) -> (reuse: bool)
    ensures
        reuse == reuse_allowed(use_existing, *facts),
{
    if use_existing && facts.archive_exists {
        if !facts.waveform_exists {
            true
        } else {
            match (facts.archive_modified, facts.waveform_modified) {
                (Some(archive), Some(waveform)) => archive > waveform,
                _ => false,
            }
        }
    } else {
        false
    }
}

/// Where the resolution of one file stands.
#[derive(Clone, Copy, Debug, PartialEq, Eq, Structural)]
pub enum FileState {
    /// Nothing has been done yet.
    Start,
    /// The descriptor is being read and the files are being probed.
    Describing,
    /// The archive is being read.
    Reusing,
    /// The waveform is being loaded and the traces are being synthesized.
    Synthesizing,
    /// The synthesized traces are being written to the archive.
    Persisting,
    /// The file has yielded its traces, read from the archive.
    Cached,
    /// The file has yielded its traces, newly synthesized.
    Synthesized,
    /// The file has been left out of the run.
    Skipped,
    /// The task of the file has failed.
    Failed,
}

/// What came back from the last thing done for a file.
#[derive(Clone, Copy, Debug)]
pub enum FileEvent {
    /// The task of the file begins.
    Begin,
    /// The descriptor does not exist.
    DescriptorMissing,
    /// The descriptor was read and names a waveform; the files were probed.
    Described(CacheFacts),
    /// The descriptor lists no markers to cut the waveform by.
    MarkersMissing,
    /// The archive was read.
    ArchiveLoaded,
    /// The waveform was loaded and the traces were cut.
    TracesCut,
    /// The archive was written.
    ArchiveSaved,
    /// The last thing done has failed.
    Broken,
}

/// What is to be done next for a file.
#[derive(Clone, Copy, Debug, PartialEq, Eq, Structural)]
pub enum FileAction {
    /// Read the descriptor and probe the archive and the waveform.
    Describe,
    /// Read the traces and labels from the archive.
    LoadArchive,
    /// Load the waveform, synthesize the power trace and cut it.
    LoadWaveform,
    /// Write the traces and labels to the archive.
    SaveArchive,
    /// Hand the traces and labels on to the accumulation.
    Emit,
    /// Leave the file out and go on with the others.
    Skip,
    /// Give the task of the file up.
    Abort,
    /// Nothing is left to do.
    Rest,
}

/// The state and the action that follow on an event in a state.
pub open spec fn next_step(use_existing: bool, state: FileState, event: FileEvent) -> (
    FileState,
    FileAction,
) {
    match (state, event) {
        (FileState::Start, FileEvent::Begin) => (FileState::Describing, FileAction::Describe),
        (FileState::Describing, FileEvent::DescriptorMissing) => (
            FileState::Skipped,
            FileAction::Skip,
        ),
        (FileState::Describing, FileEvent::Described(facts)) => if reuse_allowed(
            use_existing,
            facts,
        ) {
            (FileState::Reusing, FileAction::LoadArchive)
        } else {
            (FileState::Synthesizing, FileAction::LoadWaveform)
        },
        (FileState::Reusing, FileEvent::ArchiveLoaded) => (FileState::Cached, FileAction::Emit),
        (FileState::Synthesizing, FileEvent::MarkersMissing) => (
            FileState::Skipped,
            FileAction::Skip,
        ),
        (FileState::Synthesizing, FileEvent::TracesCut) => (
            FileState::Persisting,
            FileAction::SaveArchive,
        ),
        (FileState::Persisting, FileEvent::ArchiveSaved) => (
            FileState::Synthesized,
            FileAction::Emit,
        ),
        (FileState::Cached, _) => (FileState::Cached, FileAction::Rest),
        (FileState::Synthesized, _) => (FileState::Synthesized, FileAction::Rest),
        (FileState::Skipped, _) => (FileState::Skipped, FileAction::Rest),
        (FileState::Failed, _) => (FileState::Failed, FileAction::Rest),
        _ => (FileState::Failed, FileAction::Abort),
    }
}

/// Takes one step in the resolution of a file: from the state and what came
/// back, the next state and what is to be done.
///
/// A descriptor that is missing, or that lists no markers where the
/// waveform is to be cut, has the file skipped.  Anything that fails,
/// or comes back out of turn, has the task of the file given up; there is no
/// falling back from a broken archive to a new synthesis.
pub fn resolve_step(use_existing: bool, state: FileState, event: FileEvent) -> (r: (
    FileState,
    FileAction,
))
    ensures
        r == next_step(use_existing, state, event),
{
    match (state, event) {
        (FileState::Start, FileEvent::Begin) => (FileState::Describing, FileAction::Describe),
        (FileState::Describing, FileEvent::DescriptorMissing) => (
            FileState::Skipped,
            FileAction::Skip,
        ),
        (FileState::Describing, FileEvent::Described(facts)) => {
            if cache_gate(use_existing, &facts) {
                (FileState::Reusing, FileAction::LoadArchive)
            } else {
                (FileState::Synthesizing, FileAction::LoadWaveform)
            }
        },
        (FileState::Reusing, FileEvent::ArchiveLoaded) => (FileState::Cached, FileAction::Emit),
        (FileState::Synthesizing, FileEvent::MarkersMissing) => (
            FileState::Skipped,
            FileAction::Skip,
        ),
        (FileState::Synthesizing, FileEvent::TracesCut) => (
            FileState::Persisting,
            FileAction::SaveArchive,
        ),
        (FileState::Persisting, FileEvent::ArchiveSaved) => (
            FileState::Synthesized,
            FileAction::Emit,
        ),
        (FileState::Cached, _) => (FileState::Cached, FileAction::Rest),
        (FileState::Synthesized, _) => (FileState::Synthesized, FileAction::Rest),
        (FileState::Skipped, _) => (FileState::Skipped, FileAction::Rest),
        (FileState::Failed, _) => (FileState::Failed, FileAction::Rest),
        _ => (FileState::Failed, FileAction::Abort),
    }
}

/// The state that a file reaches from `state` over a sequence of events.
pub open spec fn state_after(use_existing: bool, state: FileState, events: Seq<FileEvent>) -> FileState
    decreases events.len(),
{
    if events.len() == 0 {
        state
    } else {
        next_step(use_existing, state_after(use_existing, state, events.drop_last()), events.last()).0
    }
}

/// The states from which the waveform is never loaded any more.
pub open spec fn past_loading(state: FileState) -> bool {
    state != FileState::Start && state != FileState::Describing
}

/// Once the cache rule has decided for the archive, the waveform is not loaded:
/// where reuse is enabled and the archive exists and is newer than the
/// waveform, the step that follows the description asks for the archive, and
/// no step after it, whatever comes back, asks for the waveform.
pub proof fn lemma_reuse_never_loads_waveform(
    facts: CacheFacts,
    events: Seq<FileEvent>,
    event: FileEvent,
)
    requires
        facts.archive_exists,
        archive_newer(facts),
    ensures
        next_step(true, FileState::Describing, FileEvent::Described(facts)) == (
            FileState::Reusing,
            FileAction::LoadArchive,
        ),
        next_step(true, state_after(true, FileState::Reusing, events), event).1
            != FileAction::LoadWaveform,
{
    lemma_past_loading_stays(true, FileState::Reusing, events);
}

/// A file that is past the loading of its waveform stays so.
pub proof fn lemma_past_loading_stays(use_existing: bool, state: FileState, events: Seq<FileEvent>)
    requires
        past_loading(state),
    ensures
        past_loading(state_after(use_existing, state, events)),
        forall|event: FileEvent|
            (#[trigger] next_step(use_existing, state_after(use_existing, state, events), event)).1
                != FileAction::LoadWaveform,
    decreases events.len(),
{
    if events.len() > 0 {
        lemma_past_loading_stays(use_existing, state, events.drop_last());
    }
}

} // verus!

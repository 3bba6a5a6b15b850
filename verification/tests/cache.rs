use scasim::cache::{cache_gate, resolve_step, CacheFacts, FileAction, FileEvent, FileState};

fn facts(archive: bool, waveform: bool, a: Option<i128>, w: Option<i128>) -> CacheFacts {
    CacheFacts { archive_exists: archive, waveform_exists: waveform, archive_modified: a, waveform_modified: w }
}

#[test]
fn a_newer_archive_is_reused() {
    assert!(cache_gate(true, &facts(true, true, Some(200), Some(100))));
    assert!(cache_gate(true, &facts(true, true, Some(-1), Some(-2))));
}

#[test]
fn an_archive_is_reused_where_the_waveform_is_missing() {
    assert!(cache_gate(true, &facts(true, false, None, None)));
    assert!(cache_gate(true, &facts(true, false, Some(1), Some(2))));
}

#[test]
fn an_archive_that_is_not_newer_is_not_reused() {
    assert!(!cache_gate(true, &facts(true, true, Some(100), Some(100))));
    assert!(!cache_gate(true, &facts(true, true, Some(100), Some(200))));
    assert!(!cache_gate(true, &facts(true, true, None, Some(200))));
    assert!(!cache_gate(true, &facts(true, true, Some(200), None)));
    assert!(!cache_gate(true, &facts(true, true, None, None)));
}

#[test]
fn no_archive_no_reuse() {
    assert!(!cache_gate(true, &facts(false, true, Some(200), Some(100))));
    assert!(!cache_gate(true, &facts(false, false, None, None)));
}

#[test]
fn reuse_must_be_enabled() {
    assert!(!cache_gate(false, &facts(true, true, Some(200), Some(100))));
    assert!(!cache_gate(false, &facts(true, false, None, None)));
}

#[test]
fn a_reused_file_never_loads_its_waveform() {
    let newer = facts(true, true, Some(200), Some(100));
    let mut actions = Vec::new();
    let (state, action) = resolve_step(true, FileState::Start, FileEvent::Begin);
    actions.push(action);
    let (state, action) = resolve_step(true, state, FileEvent::Described(newer));
    actions.push(action);
    assert_eq!(state, FileState::Reusing);
    let (state, action) = resolve_step(true, state, FileEvent::ArchiveLoaded);
    actions.push(action);
    assert_eq!(state, FileState::Cached);
    assert_eq!(actions, vec![FileAction::Describe, FileAction::LoadArchive, FileAction::Emit]);
    assert_eq!(resolve_step(true, state, FileEvent::TracesCut), (FileState::Cached, FileAction::Rest));
    // whatever comes back while the archive is read, the waveform is not asked for
    let events = [
        FileEvent::Begin,
        FileEvent::DescriptorMissing,
        FileEvent::Described(facts(false, true, None, None)),
        FileEvent::MarkersMissing,
        FileEvent::ArchiveLoaded,
        FileEvent::TracesCut,
        FileEvent::ArchiveSaved,
        FileEvent::Broken,
    ];
    for event in events {
        assert_ne!(resolve_step(true, FileState::Reusing, event).1, FileAction::LoadWaveform);
    }
}

#[test]
fn a_file_without_a_usable_archive_is_synthesized_and_archived() {
    let older = facts(true, true, Some(100), Some(200));
    let (state, action) = resolve_step(true, FileState::Start, FileEvent::Begin);
    assert_eq!((state, action), (FileState::Describing, FileAction::Describe));
    let (state, action) = resolve_step(true, state, FileEvent::Described(older));
    assert_eq!((state, action), (FileState::Synthesizing, FileAction::LoadWaveform));
    let (state, action) = resolve_step(true, state, FileEvent::TracesCut);
    assert_eq!((state, action), (FileState::Persisting, FileAction::SaveArchive));
    let (state, action) = resolve_step(true, state, FileEvent::ArchiveSaved);
    assert_eq!((state, action), (FileState::Synthesized, FileAction::Emit));
    let newer = facts(true, true, Some(300), Some(200));
    let (state, action) = resolve_step(false, FileState::Describing, FileEvent::Described(newer));
    assert_eq!((state, action), (FileState::Synthesizing, FileAction::LoadWaveform));
}

#[test]
fn a_missing_descriptor_has_the_file_skipped() {
    let (state, action) = resolve_step(true, FileState::Describing, FileEvent::DescriptorMissing);
    assert_eq!((state, action), (FileState::Skipped, FileAction::Skip));
    assert_eq!(resolve_step(true, state, FileEvent::Begin), (FileState::Skipped, FileAction::Rest));
}

#[test]
fn a_descriptor_without_markers_has_the_file_skipped() {
    let (state, action) = resolve_step(false, FileState::Synthesizing, FileEvent::MarkersMissing);
    assert_eq!((state, action), (FileState::Skipped, FileAction::Skip));
    // the markers are not asked for where the archive is read
    assert_eq!(
        resolve_step(true, FileState::Reusing, FileEvent::MarkersMissing),
        (FileState::Failed, FileAction::Abort)
    );
}

#[test]
fn a_failure_has_the_task_given_up() {
    for state in [
        FileState::Start,
        FileState::Describing,
        FileState::Reusing,
        FileState::Synthesizing,
        FileState::Persisting,
    ] {
        assert_eq!(resolve_step(true, state, FileEvent::Broken), (FileState::Failed, FileAction::Abort));
    }
    // no falling back from a broken archive to the waveform
    assert_eq!(
        resolve_step(true, FileState::Reusing, FileEvent::TracesCut),
        (FileState::Failed, FileAction::Abort)
    );
    assert_eq!(resolve_step(true, FileState::Failed, FileEvent::Begin), (FileState::Failed, FileAction::Rest));
}

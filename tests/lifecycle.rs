use collection_store::lifecycle::{step, LifecycleAction, LifecycleEvent, LoadState};

#[test]
fn load_then_query_runs() {
    let (s, a) = step(LoadState::Unloaded, LifecycleEvent::LoadRequested);
    assert_eq!((s, a), (LoadState::Loading, LifecycleAction::SendLoad));
    let (s, a) = step(s, LifecycleEvent::LoadCompleted);
    assert_eq!((s, a), (LoadState::Loaded, LifecycleAction::Nothing));
    assert_eq!(step(s, LifecycleEvent::QueryRequested), (LoadState::Loaded, LifecycleAction::RunQuery));
}

#[test]
fn repeated_load_and_release_are_no_ops() {
    assert_eq!(step(LoadState::Loaded, LifecycleEvent::LoadRequested), (LoadState::Loaded, LifecycleAction::Nothing));
    assert_eq!(
        step(LoadState::Unloaded, LifecycleEvent::ReleaseRequested),
        (LoadState::Unloaded, LifecycleAction::Nothing)
    );
}

#[test]
fn release_refuses_queries_until_reload() {
    let (s, a) = step(LoadState::Loaded, LifecycleEvent::ReleaseRequested);
    assert_eq!((s, a), (LoadState::Releasing, LifecycleAction::SendRelease));
    assert_eq!(step(s, LifecycleEvent::QueryRequested).1, LifecycleAction::ReportNotLoaded);
    let (s, _) = step(s, LifecycleEvent::ReleaseCompleted);
    assert_eq!(s, LoadState::Unloaded);
    assert_eq!(step(s, LifecycleEvent::QueryRequested), (LoadState::Unloaded, LifecycleAction::ReportNotLoaded));
    let (s, _) = step(s, LifecycleEvent::LoadRequested);
    let (s, _) = step(s, LifecycleEvent::LoadCompleted);
    assert_eq!(step(s, LifecycleEvent::QueryRequested).1, LifecycleAction::RunQuery);
}

#[test]
fn failed_load_returns_to_unloaded() {
    assert_eq!(
        step(LoadState::Loading, LifecycleEvent::LoadFailed),
        (LoadState::Unloaded, LifecycleAction::ReportLoadError)
    );
}

#[test]
fn racing_transitions_are_reported() {
    assert_eq!(
        step(LoadState::Loading, LifecycleEvent::ReleaseRequested),
        (LoadState::Loading, LifecycleAction::ReportConcurrentModification)
    );
    assert_eq!(
        step(LoadState::Releasing, LifecycleEvent::LoadRequested),
        (LoadState::Releasing, LifecycleAction::ReportConcurrentModification)
    );
    assert_eq!(
        step(LoadState::Unloaded, LifecycleEvent::LoadCompleted),
        (LoadState::Unloaded, LifecycleAction::ReportConcurrentModification)
    );
}

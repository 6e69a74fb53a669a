use vstd::prelude::*;

verus! {

/// Where a collection stands between storage and query-serving memory.
#[derive(Clone, Copy, Debug, PartialEq, Eq, Structural)]
pub enum LoadState {
    Unloaded,
    Loading,
    Loaded,
    Releasing,
}

/// What the caller asks for, or what the store reported back.
#[derive(Clone, Copy, Debug, PartialEq, Eq, Structural)]
pub enum LifecycleEvent {
    LoadRequested,
    LoadCompleted,
    LoadFailed,
    ReleaseRequested,
    ReleaseCompleted,
    QueryRequested,
}

/// What the caller must do next.
#[derive(Clone, Copy, Debug, PartialEq, Eq, Structural)]
pub enum LifecycleAction {
    /// Nothing to send: the request is already met or under way.
    Nothing,
    SendLoad,
    SendRelease,
    RunQuery,
    /// The load did not complete; report a load error.
    ReportLoadError,
    /// The collection is not loaded; report that to the caller.
    ReportNotLoaded,
    /// A transition is under way, or the store reported one that was not asked
    /// for; report a concurrent modification.
    ReportConcurrentModification,
}

/// The transition table: the next state and the action for each state and event.
pub open spec fn transition(s: LoadState, e: LifecycleEvent) -> (LoadState, LifecycleAction) {
    match (s, e) {
        (LoadState::Unloaded, LifecycleEvent::LoadRequested) => (LoadState::Loading, LifecycleAction::SendLoad),
        (LoadState::Loading, LifecycleEvent::LoadRequested) => (LoadState::Loading, LifecycleAction::Nothing),
        (LoadState::Loaded, LifecycleEvent::LoadRequested) => (LoadState::Loaded, LifecycleAction::Nothing),
        (LoadState::Loading, LifecycleEvent::LoadCompleted) => (LoadState::Loaded, LifecycleAction::Nothing),
        (LoadState::Loading, LifecycleEvent::LoadFailed) => (
            LoadState::Unloaded,
            LifecycleAction::ReportLoadError,
        ),
        (LoadState::Loaded, LifecycleEvent::ReleaseRequested) => (
            LoadState::Releasing,
            LifecycleAction::SendRelease,
        ),
        (LoadState::Unloaded, LifecycleEvent::ReleaseRequested) => (
            LoadState::Unloaded,
            LifecycleAction::Nothing,
        ),
        (LoadState::Releasing, LifecycleEvent::ReleaseRequested) => (
            LoadState::Releasing,
            LifecycleAction::Nothing,
        ),
        (LoadState::Releasing, LifecycleEvent::ReleaseCompleted) => (
            LoadState::Unloaded,
            LifecycleAction::Nothing,
        ),
        (LoadState::Loaded, LifecycleEvent::QueryRequested) => (LoadState::Loaded, LifecycleAction::RunQuery),
        (_, LifecycleEvent::QueryRequested) => (s, LifecycleAction::ReportNotLoaded),
        _ => (s, LifecycleAction::ReportConcurrentModification),
    }
}

/// The next state and action for `event` in state `state`.
pub fn step(state: LoadState, event: LifecycleEvent) -> (r: (LoadState, LifecycleAction))
    ensures
        r == transition(state, event),
        r.1 == LifecycleAction::RunQuery <==> state == LoadState::Loaded && event
            == LifecycleEvent::QueryRequested,
        event == LifecycleEvent::QueryRequested ==> r.0 == state,
{
    match (state, event) {
        (LoadState::Unloaded, LifecycleEvent::LoadRequested) => (LoadState::Loading, LifecycleAction::SendLoad),
        (LoadState::Loading, LifecycleEvent::LoadRequested) => (LoadState::Loading, LifecycleAction::Nothing),
        (LoadState::Loaded, LifecycleEvent::LoadRequested) => (LoadState::Loaded, LifecycleAction::Nothing),
        (LoadState::Loading, LifecycleEvent::LoadCompleted) => (LoadState::Loaded, LifecycleAction::Nothing),
        (LoadState::Loading, LifecycleEvent::LoadFailed) => (
            LoadState::Unloaded,
            LifecycleAction::ReportLoadError,
        ),
        (LoadState::Loaded, LifecycleEvent::ReleaseRequested) => (
            LoadState::Releasing,
            LifecycleAction::SendRelease,
        ),
        (LoadState::Unloaded, LifecycleEvent::ReleaseRequested) => (
            LoadState::Unloaded,
            LifecycleAction::Nothing,
        ),
        (LoadState::Releasing, LifecycleEvent::ReleaseRequested) => (
            LoadState::Releasing,
            LifecycleAction::Nothing,
        ),
        (LoadState::Releasing, LifecycleEvent::ReleaseCompleted) => (
            LoadState::Unloaded,
            LifecycleAction::Nothing,
        ),
        (LoadState::Loaded, LifecycleEvent::QueryRequested) => (LoadState::Loaded, LifecycleAction::RunQuery),
        (_, LifecycleEvent::QueryRequested) => (state, LifecycleAction::ReportNotLoaded),
        _ => (state, LifecycleAction::ReportConcurrentModification),
    }
}

/// From a loaded collection, a release that completes leaves queries refused,
/// and a load that completes after it lets them run again.
pub proof fn lemma_release_then_reload()
    ensures
        ({
            let (s1, a1) = transition(LoadState::Loaded, LifecycleEvent::ReleaseRequested);
            let (s2, _) = transition(s1, LifecycleEvent::ReleaseCompleted);
            let (s3, a3) = transition(s2, LifecycleEvent::QueryRequested);
            let (s4, a4) = transition(s3, LifecycleEvent::LoadRequested);
            let (s5, _) = transition(s4, LifecycleEvent::LoadCompleted);
            let (_, a6) = transition(s5, LifecycleEvent::QueryRequested);
            &&& a1 == LifecycleAction::SendRelease
            &&& a3 == LifecycleAction::ReportNotLoaded
            &&& a4 == LifecycleAction::SendLoad
            &&& a6 == LifecycleAction::RunQuery
        }),
{
}

} // verus!

use vstd::prelude::*;
use vstd::string::StringExecFns;

use crate::namespace::{normalize_spec, ns_set, substitute, substitute_spec, Namespace};
use crate::text::{ends_with_spec, str_ends_with};

verus! {

/// The seconds of the fixed visible restart countdown.
pub const RESTART_COUNTDOWN_SECONDS: u64 = 3;

/// The seconds between two background rebuild ticks.
pub const BACKGROUND_INTERVAL_SECONDS: u64 = 10;

/// The single process-wide rebuild lock: at most one rebuild is in flight,
/// and neither cycle ever waits for it.
pub struct RebuildLock {
    held: bool,
}

impl RebuildLock {
    /// Is a rebuild in flight?
    pub closed spec fn is_held(&self) -> bool {
        self.held
    }

    /// A fresh lock, not held.
    pub fn new() -> (r: RebuildLock)
        ensures
            !r.is_held(),
    {
        RebuildLock { held: false }
    }

    /// A non-blocking try: taken when free, declined when held, never
    /// waiting either way.
    pub fn try_acquire(&mut self) -> (r: bool)
        ensures
            r == !old(self).is_held(),
            old(self).is_held() ==> *final(self) == *old(self),
            !old(self).is_held() ==> final(self).is_held(),
    {
        if self.held {
            false
        } else {
            self.held = true;
            true
        }
    }

    /// Releases the lock after a finished rebuild.
    pub fn release(&mut self)
        requires
            old(self).is_held(),
        ensures
            !final(self).is_held(),
    {
        self.held = false;
    }
}

/// What one background tick decides to do.
#[derive(Debug, Clone, Copy, PartialEq, Eq, Structural)]
pub enum BackgroundDecision {
    /// The tick took the lock: rebuild and synchronize, then release.
    Rebuild,
    /// The lock was held: the tick does nothing at all this interval.
    Skip,
}

/// The non-blocking decision of one background tick: the cycle rebuilds
/// only when it takes the lock; finding the lock held, it skips the whole
/// tick, with no copy, no wait and no change to the lock.
pub fn background_tick_decision(lock: &mut RebuildLock) -> (r: BackgroundDecision)
    ensures
        old(lock).is_held() ==> r == BackgroundDecision::Skip && *final(lock) == *old(lock),
        !old(lock).is_held() ==> r == BackgroundDecision::Rebuild && final(lock).is_held(),
{
    if lock.try_acquire() {
        BackgroundDecision::Rebuild
    } else {
        BackgroundDecision::Skip
    }
}

/// The states of the run supervisor.
#[derive(Debug, Clone, Copy, PartialEq, Eq, Structural)]
pub enum SupervisorState {
    Idle,
    Building,
    Launching,
    Running,
    Restarting,
}

/// What the supervisor observes between two transitions.
#[derive(Debug, Clone, Copy, PartialEq, Eq, Structural)]
pub enum SupervisorEvent {
    /// The rebuild lock was taken.
    LockAcquired,
    /// The rebuild lock was held elsewhere.
    LockBusy,
    /// Build and synchronization finished; the lock was released.
    BuildFinished,
    /// The server process was spawned on the run directory.
    ServerSpawned,
    /// The server process exited, with any status.
    ServerExited,
    /// The visible countdown ran out.
    CountdownElapsed,
}

/// What the supervisor asks its surroundings to do next.
#[derive(Debug, Clone, Copy, PartialEq, Eq, Structural)]
pub enum SupervisorAction {
    /// Try the rebuild lock without blocking.
    TryAcquireLock,
    /// Build and synchronize into the run directory, then release the lock.
    RunBuild,
    /// Announce the busy lock; this turn retries after the countdown.
    WarnBusy,
    /// Spawn the server process attached to the run directory.
    SpawnServer,
    /// Block until the server process exits.
    WaitForExit,
    /// Count the fixed restart delay down visibly.
    Countdown,
    /// Nothing: the event does not concern this state.
    Hold,
}

/// The supervisor's transition table. Any exit of the server, success or
/// failure, restarts it after the countdown; a busy lock skips straight to
/// the countdown and the next turn retries; an event that does not concern
/// the state changes nothing.
pub open spec fn supervisor_step_spec(s: SupervisorState, ev: SupervisorEvent) -> (
    SupervisorState,
    SupervisorAction,
) {
    match (s, ev) {
        (SupervisorState::Idle, SupervisorEvent::LockAcquired) => (
            SupervisorState::Building,
            SupervisorAction::RunBuild,
        ),
        (SupervisorState::Idle, SupervisorEvent::LockBusy) => (
            SupervisorState::Restarting,
            SupervisorAction::WarnBusy,
        ),
        (SupervisorState::Building, SupervisorEvent::BuildFinished) => (
            SupervisorState::Launching,
            SupervisorAction::SpawnServer,
        ),
        (SupervisorState::Launching, SupervisorEvent::ServerSpawned) => (
            SupervisorState::Running,
            SupervisorAction::WaitForExit,
        ),
        (SupervisorState::Running, SupervisorEvent::ServerExited) => (
            SupervisorState::Restarting,
            SupervisorAction::Countdown,
        ),
        (SupervisorState::Restarting, SupervisorEvent::CountdownElapsed) => (
            SupervisorState::Idle,
            SupervisorAction::TryAcquireLock,
        ),
        _ => (s, SupervisorAction::Hold),
    }
}

/// One supervisor transition, exactly as the table gives it.
pub fn supervisor_step(s: SupervisorState, ev: SupervisorEvent) -> (r: (
    SupervisorState,
    SupervisorAction,
))
    ensures
        r == supervisor_step_spec(s, ev),
{
    match (s, ev) {
        (SupervisorState::Idle, SupervisorEvent::LockAcquired) => (
            SupervisorState::Building,
            SupervisorAction::RunBuild,
        ),
        (SupervisorState::Idle, SupervisorEvent::LockBusy) => (
            SupervisorState::Restarting,
            SupervisorAction::WarnBusy,
        ),
        (SupervisorState::Building, SupervisorEvent::BuildFinished) => (
            SupervisorState::Launching,
            SupervisorAction::SpawnServer,
        ),
        (SupervisorState::Launching, SupervisorEvent::ServerSpawned) => (
            SupervisorState::Running,
            SupervisorAction::WaitForExit,
        ),
        (SupervisorState::Running, SupervisorEvent::ServerExited) => (
            SupervisorState::Restarting,
            SupervisorAction::Countdown,
        ),
        (SupervisorState::Restarting, SupervisorEvent::CountdownElapsed) => (
            SupervisorState::Idle,
            SupervisorAction::TryAcquireLock,
        ),
        _ => (s, SupervisorAction::Hold),
    }
}

/// The run directory's plugin folder: `<run_dir>/plugins/`.
pub fn run_plugin_dir(run_dir: &String) -> (r: String)
    ensures
        r@ == run_dir@ + "/plugins/"@,
{
    let mut s = run_dir.clone();
    s.append("/plugins/");
    s
}

/// The run directory's launch script: `<run_dir>/start.sh`.
pub fn run_start_script(run_dir: &String) -> (r: String)
    ensures
        r@ == run_dir@ + "/start.sh"@,
{
    let mut s = run_dir.clone();
    s.append("/start.sh");
    s
}

/// The run directory's canonical server artifact: `<run_dir>/server.jar`.
pub fn run_server_jar(run_dir: &String) -> (r: String)
    ensures
        r@ == run_dir@ + "/server.jar"@,
{
    let mut s = run_dir.clone();
    s.append("/server.jar");
    s
}

/// Before a sync, exactly the files carrying the plugin-artifact extension
/// are purged from the run directory's plugin folder, so a build that drops
/// a plugin really removes it.
pub fn should_purge_plugin(path: &str) -> (r: bool)
    ensures
        r == ends_with_spec(path@, ".jar"@),
{
    str_ends_with(path, ".jar")
}

/// Rewrites the launch script's server-artifact placeholder to the run
/// directory's canonical server artifact path.
pub fn rewrite_launch_script(script: &Vec<char>, run_dir: &String) -> (r: Vec<char>)
    ensures
        r@ == substitute_spec(
            script@,
            ns_set(
                Seq::<(Seq<char>, Seq<char>)>::empty(),
                "SERVER_JAR"@,
                run_dir@ + "/server.jar"@,
            ),
        ),
{
    let path = run_server_jar(run_dir);
    let mut ns = Namespace::new();
    ns.set("SERVER_JAR", path.as_str());
    proof {
        reveal_strlit("SERVER_JAR");
        assert(normalize_spec("SERVER_JAR"@) =~= "SERVER_JAR"@);
    }
    substitute(script, &ns)
}

} // verus!

use neptune::supervisor::{
    background_tick_decision, rewrite_launch_script, run_plugin_dir, run_server_jar,
    run_start_script, should_purge_plugin, supervisor_step, BackgroundDecision, RebuildLock,
    SupervisorAction, SupervisorEvent, SupervisorState, BACKGROUND_INTERVAL_SECONDS,
    RESTART_COUNTDOWN_SECONDS,
};

fn chars(s: &str) -> Vec<char> {
    s.chars().collect()
}

fn text(v: &[char]) -> String {
    v.iter().collect()
}

#[test]
fn background_tick_skips_while_a_foreground_build_holds_the_lock() {
    let mut lock = RebuildLock::new();
    // the simulated foreground build takes the lock
    assert!(lock.try_acquire());
    // the concurrent background tick returns immediately with no work
    assert_eq!(background_tick_decision(&mut lock), BackgroundDecision::Skip);
    // and it left the lock exactly as it found it: still held
    assert_eq!(background_tick_decision(&mut lock), BackgroundDecision::Skip);
    lock.release();
    assert_eq!(background_tick_decision(&mut lock), BackgroundDecision::Rebuild);
}

#[test]
fn lock_is_non_blocking_and_single_holder() {
    let mut lock = RebuildLock::new();
    assert!(lock.try_acquire());
    assert!(!lock.try_acquire());
    lock.release();
    assert!(lock.try_acquire());
}

#[test]
fn supervisor_walks_the_whole_cycle() {
    let (s, a) = supervisor_step(SupervisorState::Idle, SupervisorEvent::LockAcquired);
    assert_eq!((s, a), (SupervisorState::Building, SupervisorAction::RunBuild));
    let (s, a) = supervisor_step(s, SupervisorEvent::BuildFinished);
    assert_eq!((s, a), (SupervisorState::Launching, SupervisorAction::SpawnServer));
    let (s, a) = supervisor_step(s, SupervisorEvent::ServerSpawned);
    assert_eq!((s, a), (SupervisorState::Running, SupervisorAction::WaitForExit));
    let (s, a) = supervisor_step(s, SupervisorEvent::ServerExited);
    assert_eq!((s, a), (SupervisorState::Restarting, SupervisorAction::Countdown));
    let (s, a) = supervisor_step(s, SupervisorEvent::CountdownElapsed);
    assert_eq!((s, a), (SupervisorState::Idle, SupervisorAction::TryAcquireLock));
}

#[test]
fn busy_lock_makes_the_foreground_warn_and_retry() {
    let (s, a) = supervisor_step(SupervisorState::Idle, SupervisorEvent::LockBusy);
    assert_eq!((s, a), (SupervisorState::Restarting, SupervisorAction::WarnBusy));
    let (s, a) = supervisor_step(s, SupervisorEvent::CountdownElapsed);
    assert_eq!((s, a), (SupervisorState::Idle, SupervisorAction::TryAcquireLock));
}

#[test]
fn unrelated_events_hold_the_state() {
    let (s, a) = supervisor_step(SupervisorState::Running, SupervisorEvent::LockBusy);
    assert_eq!((s, a), (SupervisorState::Running, SupervisorAction::Hold));
    let (s, a) = supervisor_step(SupervisorState::Idle, SupervisorEvent::ServerExited);
    assert_eq!((s, a), (SupervisorState::Idle, SupervisorAction::Hold));
}

#[test]
fn fixed_delays_are_as_documented() {
    assert_eq!(RESTART_COUNTDOWN_SECONDS, 3);
    assert_eq!(BACKGROUND_INTERVAL_SECONDS, 10);
}

#[test]
fn run_directory_paths() {
    let d = "/srv/run".to_string();
    assert_eq!(run_plugin_dir(&d), "/srv/run/plugins/");
    assert_eq!(run_start_script(&d), "/srv/run/start.sh");
    assert_eq!(run_server_jar(&d), "/srv/run/server.jar");
}

#[test]
fn only_plugin_artifacts_are_purged() {
    assert!(should_purge_plugin("Essentials.jar"));
    assert!(!should_purge_plugin("config.yml"));
    assert!(!should_purge_plugin("jarjar.txt"));
}

#[test]
fn launch_script_placeholder_is_rewritten() {
    let script = chars("#!/bin/sh\njava -jar $$REALM_SERVER_JAR$$\n");
    let out = rewrite_launch_script(&script, &"/srv/run".to_string());
    assert_eq!(text(&out), "#!/bin/sh\njava -jar /srv/run/server.jar\n");
}

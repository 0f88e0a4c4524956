use taskmaster::registry::TaskFiles;
use taskmaster::task::{Action, PollEvent};
use taskmaster::unit::{ChildPoll, SpawnResult, UnitState};

fn load_ok(reg: &mut TaskFiles, path: &str, text: &str, now: u64) -> Vec<Action> {
    reg.load(path, Some(text.to_string()), now).expect("load should succeed")
}

fn only_task_id(reg: &TaskFiles) -> usize {
    reg.files[0].tasks[0].1.id
}

#[test]
fn start_spawns_numprocs_replicas() {
    let mut reg = TaskFiles::new();
    let acts = load_ok(
        &mut reg,
        "/etc/echo.yaml",
        "programs:\n  echo:\n    cmd: /bin/echo hi\n    numprocs: 2\n    autorestart: never\n    retries: 0\n",
        1_000,
    );
    assert_eq!(acts.len(), 2);
    assert_eq!(reg.files[0].tasks[0].1.processes.len(), 2);
    for (k, act) in acts.iter().enumerate() {
        match act {
            Action::Spawn { unit_index, options, .. } => {
                assert_eq!(*unit_index, k);
                assert_eq!(options.argv, vec!["/bin/echo".to_string(), "hi".to_string()]);
            },
            _ => panic!("expected only spawn actions"),
        }
    }
}

#[test]
fn handle_exists_iff_running_or_stopping() {
    let mut reg = TaskFiles::new();
    load_ok(
        &mut reg,
        "/etc/one.yaml",
        "programs:\n  one:\n    cmd: /bin/sleep 60\n    autorestart: never\n",
        0,
    );
    let tid = only_task_id(&reg);
    assert!(reg.files[0].tasks[0].1.processes[0].handle.is_none());
    reg.record_spawn_result(tid, 0, 5, SpawnResult::Spawned { pid: 42 });
    let unit = &reg.files[0].tasks[0].1.processes[0];
    assert_eq!(unit.handle, Some(42));
    assert!(matches!(unit.state, UnitState::Running { pid: 42, since: 5 }));
    let acts = reg.stop_task(tid, 6).expect("task exists");
    assert!(matches!(acts[0], Action::Signal { pid: 42, sig: 15, .. }));
    let unit = &reg.files[0].tasks[0].1.processes[0];
    assert_eq!(unit.handle, Some(42), "a stopping unit still owns its child");
    assert!(matches!(unit.state, UnitState::Stopping { .. }));
}

#[test]
fn crash_loop_exhausts_retry_budget() {
    let mut reg = TaskFiles::new();
    load_ok(
        &mut reg,
        "/etc/crash.yaml",
        "programs:\n  crash:\n    cmd: /bin/false\n    autorestart: always\n    retries: 3\n",
        0,
    );
    let tid = only_task_id(&reg);
    reg.record_spawn_result(tid, 0, 0, SpawnResult::Spawned { pid: 100 });
    let mut deaths = 0u64;
    let mut pid = 100u32;
    loop {
        let polls = vec![PollEvent { task_id: tid, unit_index: 0, poll: ChildPoll::Exited { code: 1 } }];
        let acts = reg.tick(&polls, 10 + deaths);
        deaths += 1;
        let unit = &reg.files[0].tasks[0].1.processes[0];
        assert!(unit.retries_count <= 3, "retries_count stays within the budget");
        if acts.is_empty() {
            break;
        }
        assert!(matches!(acts[0], Action::Spawn { .. }));
        pid += 1;
        reg.record_spawn_result(tid, 0, 10 + deaths, SpawnResult::Spawned { pid });
    }
    assert_eq!(deaths, 4, "three respawns, then the fourth death is final");
    let unit = &reg.files[0].tasks[0].1.processes[0];
    assert_eq!(unit.retries_count, 3);
    assert!(matches!(unit.state, UnitState::Exited { code: 1, .. }));
    assert!(reg.status(20).contains("3 retries"));
    let polls = vec![PollEvent { task_id: tid, unit_index: 0, poll: ChildPoll::Exited { code: 1 } }];
    assert!(reg.tick(&polls, 99).is_empty(), "a dead unit is left alone");
}

#[test]
fn zero_retries_lands_in_exited_and_stays() {
    let mut reg = TaskFiles::new();
    load_ok(
        &mut reg,
        "/etc/f.yaml",
        "programs:\n  f:\n    cmd: /bin/false\n    autorestart: always\n    retries: 0\n",
        0,
    );
    let tid = only_task_id(&reg);
    reg.record_spawn_result(tid, 0, 0, SpawnResult::Spawned { pid: 7 });
    let polls = vec![PollEvent { task_id: tid, unit_index: 0, poll: ChildPoll::Exited { code: 1 } }];
    let acts = reg.tick(&polls, 50);
    assert!(acts.is_empty(), "no respawn without retry budget");
    let unit = &reg.files[0].tasks[0].1.processes[0];
    assert!(matches!(unit.state, UnitState::Exited { code: 1, .. }));
    assert!(unit.handle.is_none());
    assert!(reg.tick(&polls, 60).is_empty());
}

#[test]
fn zero_stoptime_escalates_on_next_tick() {
    let mut reg = TaskFiles::new();
    load_ok(
        &mut reg,
        "/etc/hang.yaml",
        "programs:\n  hang:\n    cmd: /bin/sleep 3600\n    stopsignal: TERM\n    stoptime: 0\n    autorestart: never\n",
        0,
    );
    let tid = only_task_id(&reg);
    reg.record_spawn_result(tid, 0, 0, SpawnResult::Spawned { pid: 9 });
    let acts = reg.stop_task(tid, 10).expect("task exists");
    assert!(matches!(acts[0], Action::Signal { pid: 9, sig: 15, .. }));
    let polls = vec![PollEvent { task_id: tid, unit_index: 0, poll: ChildPoll::StillRunning }];
    let acts = reg.tick(&polls, 11);
    assert!(matches!(acts[0], Action::Kill { pid: 9, .. }));
    let unit = &reg.files[0].tasks[0].1.processes[0];
    assert!(matches!(unit.state, UnitState::Killed { .. }));
    assert!(unit.handle.is_none());
}

#[test]
fn signal_death_respawns_under_unexpected() {
    let mut reg = TaskFiles::new();
    load_ok(
        &mut reg,
        "/etc/sig.yaml",
        "programs:\n  sig:\n    cmd: /bin/sleep 60\n    autorestart: unexpected\n    exitcodes: [0]\n    retries: 5\n",
        0,
    );
    let tid = only_task_id(&reg);
    reg.record_spawn_result(tid, 0, 0, SpawnResult::Spawned { pid: 5 });
    let polls = vec![PollEvent { task_id: tid, unit_index: 0, poll: ChildPoll::Signaled }];
    let acts = reg.tick(&polls, 10);
    assert!(
        matches!(acts.as_slice(), [Action::Spawn { .. }]),
        "a signal-terminated child is never an expected exit",
    );
    reg.record_spawn_result(tid, 0, 10, SpawnResult::Spawned { pid: 6 });
    let polls = vec![PollEvent { task_id: tid, unit_index: 0, poll: ChildPoll::Exited { code: 0 } }];
    let acts = reg.tick(&polls, 20);
    assert!(acts.is_empty(), "an expected exit code is not respawned");
    assert!(matches!(
        reg.files[0].tasks[0].1.processes[0].state,
        UnitState::Exited { code: 0, .. }
    ));
}

#[test]
fn launch_failure_counts_against_retries() {
    let mut reg = TaskFiles::new();
    load_ok(
        &mut reg,
        "/etc/miss.yaml",
        "programs:\n  miss:\n    cmd: /no/such/file\n    autorestart: always\n    retries: 1\n",
        0,
    );
    let tid = only_task_id(&reg);
    reg.record_spawn_result(tid, 0, 0, SpawnResult::Failed { err: "No such file".to_string() });
    let unit = &reg.files[0].tasks[0].1.processes[0];
    assert!(matches!(unit.state, UnitState::LaunchFailed { .. }));
    assert!(unit.handle.is_none());
    let status = reg.status(1_000);
    assert!(status.contains("Launch failed (1s ago): No such file"));
}

#[test]
fn numprocs_zero_keeps_no_units() {
    let mut reg = TaskFiles::new();
    let acts = load_ok(
        &mut reg,
        "/etc/none.yaml",
        "programs:\n  none:\n    cmd: /bin/true\n    numprocs: 0\n",
        0,
    );
    assert!(acts.is_empty());
    let tid = only_task_id(&reg);
    assert_eq!(reg.files[0].tasks[0].1.processes.len(), 0);
    assert!(reg.start_task(tid, 5).expect("task exists").is_empty());
    assert!(reg.stop_task(tid, 6).expect("task exists").is_empty());
}

#[test]
fn forced_stop_is_not_respawned() {
    let mut reg = TaskFiles::new();
    load_ok(
        &mut reg,
        "/etc/k.yaml",
        "programs:\n  k:\n    cmd: /bin/sleep 60\n    autorestart: always\n    retries: 8\n",
        0,
    );
    let tid = only_task_id(&reg);
    reg.record_spawn_result(tid, 0, 0, SpawnResult::Spawned { pid: 77 });
    let acts = reg.unload("/etc/k.yaml", 10);
    assert!(matches!(acts.as_slice(), [Action::Kill { pid: 77, .. }]));
    assert_eq!(reg.files.len(), 0);
    let polls: Vec<PollEvent> = Vec::new();
    assert!(reg.tick(&polls, 20).is_empty());
}

#[test]
fn status_renders_exact_unit_line() {
    let mut reg = TaskFiles::new();
    load_ok(
        &mut reg,
        "/etc/s.yaml",
        "programs:\n  s:\n    cmd: /bin/sleep 60\n    autorestart: never\n    starttime: 3\n",
        0,
    );
    let tid = only_task_id(&reg);
    reg.record_spawn_result(tid, 0, 0, SpawnResult::Spawned { pid: 31 });
    let status = reg.status(2_000);
    let expected = format!(
        "/etc/s.yaml:\n\n  s (id {tid}):\n    [0] -> \x1b[92mStarting... (started 2s ago with pid 31)\x1b[90m (created 2s ago, 0 retries)\x1b[0m\n"
    );
    assert_eq!(status, expected);
    let status = reg.status(4_000);
    assert!(status.contains("\x1b[92mRunning (started 4s ago with pid 31)"));
}

#[test]
fn lowering_numprocs_drops_surplus_units() {
    let mut reg = TaskFiles::new();
    load_ok(
        &mut reg,
        "/etc/shrink.yaml",
        "programs:\n  shrink:\n    cmd: /bin/sleep 60\n    numprocs: 2\n",
        0,
    );
    let tid = only_task_id(&reg);
    reg.record_spawn_result(tid, 0, 0, SpawnResult::Spawned { pid: 21 });
    reg.record_spawn_result(tid, 1, 0, SpawnResult::Spawned { pid: 22 });
    let acts = load_ok(
        &mut reg,
        "/etc/shrink.yaml",
        "programs:\n  shrink:\n    cmd: /bin/sleep 60\n    numprocs: 1\n",
        10,
    );
    assert!(matches!(acts[0], Action::Kill { pid: 21, .. }));
    assert!(matches!(acts[1], Action::Kill { pid: 22, .. }));
    assert!(matches!(acts[2], Action::Spawn { unit_index: 0, .. }));
    assert_eq!(acts.len(), 3, "both children stopped, one slot respawned");
    assert_eq!(
        reg.files[0].tasks[0].1.processes.len(),
        1,
        "the replica count equals the new numprocs",
    );
    let acts = reg.start_task(tid, 20).expect("task exists");
    assert!(matches!(acts.as_slice(), [Action::Spawn { unit_index: 0, .. }]));
    assert_eq!(reg.files[0].tasks[0].1.processes.len(), 1);
}

#[test]
fn forced_stop_kills_whatever_state_the_unit_was_in() {
    let mut reg = TaskFiles::new();
    load_ok(
        &mut reg,
        "/etc/dead.yaml",
        "programs:\n  dead:\n    cmd: /no/such/file\n    autorestart: never\n",
        0,
    );
    let tid = only_task_id(&reg);
    reg.record_spawn_result(tid, 0, 0, SpawnResult::Failed { err: "no such file".to_string() });
    assert!(matches!(
        reg.files[0].tasks[0].1.processes[0].state,
        UnitState::LaunchFailed { .. }
    ));
    let acts = reg.restart_task(tid, 30).expect("task exists");
    assert!(
        matches!(acts.as_slice(), [Action::Spawn { unit_index: 0, .. }]),
        "no child to kill, one slot to respawn",
    );
    let unit = &reg.files[0].tasks[0].1.processes[0];
    assert!(
        matches!(unit.state, UnitState::Killed { at: 30 }),
        "a forced stop rests any state in Killed until the spawn lands",
    );
    assert!(unit.handle.is_none());
    reg.record_spawn_result(tid, 0, 31, SpawnResult::Spawned { pid: 60 });
    assert!(matches!(
        reg.files[0].tasks[0].1.processes[0].state,
        UnitState::Running { pid: 60, since: 31 }
    ));
}

use taskmaster::control::handle_client_request;
use taskmaster::protocol::{parse_line, ParseError, TaskmasterDaemonRequest, TaskmasterDaemonResult};
use taskmaster::registry::TaskFiles;
use taskmaster::task::Action;

#[test]
fn parse_line_accepts_every_verb() {
    assert!(matches!(parse_line("status"), Ok(TaskmasterDaemonRequest::Status)));
    assert!(matches!(parse_line("reload"), Ok(TaskmasterDaemonRequest::Reload)));
    assert!(matches!(parse_line("restart"), Ok(TaskmasterDaemonRequest::Restart)));
    assert!(matches!(parse_line("start 12"), Ok(TaskmasterDaemonRequest::StartTask(12))));
    assert!(matches!(parse_line("stop 0"), Ok(TaskmasterDaemonRequest::StopTask(0))));
    assert!(matches!(parse_line("restart 7"), Ok(TaskmasterDaemonRequest::RestartTask(7))));
    assert!(matches!(parse_line("info 3"), Ok(TaskmasterDaemonRequest::InfoTask(3))));
    match parse_line("load /etc/a.yaml") {
        Ok(TaskmasterDaemonRequest::LoadFile(p)) => assert_eq!(p, "/etc/a.yaml"),
        other => panic!("wrong parse: {other:?}"),
    }
    match parse_line("unload  /etc/a.yaml") {
        Ok(TaskmasterDaemonRequest::UnloadFile(p)) => assert_eq!(p, "/etc/a.yaml"),
        other => panic!("wrong parse: {other:?}"),
    }
}

#[test]
fn parse_line_rejects_bad_input() {
    assert!(matches!(parse_line("bogus"), Err(ParseError::Invalid)));
    assert!(matches!(parse_line(""), Err(ParseError::Invalid)));
    assert!(matches!(parse_line("start"), Err(ParseError::Invalid)));
    assert!(matches!(parse_line("start abc"), Err(ParseError::BadNumber)));
    assert!(matches!(parse_line("info 99999999999999999999999"), Err(ParseError::BadNumber)));
    assert_eq!(ParseError::Invalid.message(), "Invalid command");
    assert_eq!(ParseError::BadNumber.message(), "Argument should be an int");
}

#[test]
fn every_request_gets_exactly_one_response() {
    let mut reg = TaskFiles::new();
    let (resp, acts) = handle_client_request(&mut reg, TaskmasterDaemonRequest::Status, vec![], 0);
    match resp {
        TaskmasterDaemonResult::OkMsg(m) => assert_eq!(m, "No tasks loaded yet"),
        other => panic!("wrong response: {other:?}"),
    }
    assert!(acts.is_empty());
    let (resp, _) = handle_client_request(
        &mut reg,
        TaskmasterDaemonRequest::LoadFile("/etc/c.yaml".to_string()),
        vec![Some("programs:\n  c:\n    cmd: /bin/sleep 60\n    autostart: false\n".to_string())],
        0,
    );
    assert!(matches!(resp, TaskmasterDaemonResult::Success));
    let (resp, _) = handle_client_request(&mut reg, TaskmasterDaemonRequest::Status, vec![], 1);
    assert!(matches!(resp, TaskmasterDaemonResult::Raw(_)));
}

#[test]
fn task_commands_report_unknown_ids() {
    let mut reg = TaskFiles::new();
    for req in [
        TaskmasterDaemonRequest::StartTask(9),
        TaskmasterDaemonRequest::StopTask(9),
        TaskmasterDaemonRequest::RestartTask(9),
        TaskmasterDaemonRequest::InfoTask(9),
    ] {
        let (resp, acts) = handle_client_request(&mut reg, req, vec![], 0);
        match resp {
            TaskmasterDaemonResult::ErrMsg(m) => assert_eq!(m, "Task not found"),
            other => panic!("wrong response: {other:?}"),
        }
        assert!(acts.is_empty());
    }
}

#[test]
fn restart_command_stops_then_starts() {
    let mut reg = TaskFiles::new();
    reg.load(
        "/etc/r.yaml",
        Some("programs:\n  r:\n    cmd: /bin/sleep 60\n".to_string()),
        0,
    )
    .unwrap();
    let tid = reg.files[0].tasks[0].1.id;
    reg.record_spawn_result(tid, 0, 0, taskmaster::unit::SpawnResult::Spawned { pid: 44 });
    let (resp, acts) = handle_client_request(&mut reg, TaskmasterDaemonRequest::Restart, vec![], 10);
    assert!(matches!(resp, TaskmasterDaemonResult::Success));
    assert!(matches!(acts[0], Action::Kill { pid: 44, .. }));
    assert!(matches!(acts[1], Action::Spawn { unit_index: 0, .. }));
    assert_eq!(acts.len(), 2);
}

#[test]
fn reload_command_reports_each_failure() {
    let mut reg = TaskFiles::new();
    reg.load(
        "/etc/ok.yaml",
        Some("programs:\n  a:\n    cmd: /bin/true\n    autostart: false\n".to_string()),
        0,
    )
    .unwrap();
    reg.load(
        "/etc/gone.yaml",
        Some("programs:\n  b:\n    cmd: /bin/true\n    autostart: false\n".to_string()),
        0,
    )
    .unwrap();
    let texts = vec![
        Some("programs:\n  a:\n    cmd: /bin/true\n    autostart: false\n".to_string()),
        None,
    ];
    let (resp, _) = handle_client_request(&mut reg, TaskmasterDaemonRequest::Reload, texts, 5);
    match resp {
        TaskmasterDaemonResult::ErrMsg(m) => {
            assert_eq!(m, "\n  - Failed to reload /etc/gone.yaml: Could not open file");
        },
        other => panic!("wrong response: {other:?}"),
    }
    assert_eq!(reg.files.len(), 2, "a failed reload keeps the old source");
}

#[test]
fn info_command_renders_options_and_status() {
    let mut reg = TaskFiles::new();
    reg.load(
        "/etc/i.yaml",
        Some("programs:\n  i:\n    cmd: /bin/sleep 60\n    autostart: false\n    umask: 22\n".to_string()),
        0,
    )
    .unwrap();
    let tid = reg.files[0].tasks[0].1.id;
    let (resp, _) = handle_client_request(&mut reg, TaskmasterDaemonRequest::InfoTask(tid), vec![], 0);
    match resp {
        TaskmasterDaemonResult::Raw(text) => {
            assert!(text.contains("cmd: /bin/sleep 60"));
            assert!(text.contains("numprocs: 1"));
            assert!(text.contains("autorestart: always"));
            assert!(text.contains("umask: 18"), "0o22 is 18: {text}");
        },
        other => panic!("wrong response: {other:?}"),
    }
}

#[test]
fn unload_command_always_succeeds() {
    let mut reg = TaskFiles::new();
    let (resp, acts) = handle_client_request(
        &mut reg,
        TaskmasterDaemonRequest::UnloadFile("/etc/none.yaml".to_string()),
        vec![],
        0,
    );
    assert!(matches!(resp, TaskmasterDaemonResult::Success));
    assert!(acts.is_empty());
}

#[test]
fn reload_preserves_untouched_tasks_and_respawns_changed_ones() {
    let mut reg = TaskFiles::new();
    reg.load(
        "/etc/pair.yaml",
        Some("programs:\n  a:\n    cmd: /bin/sleep 60\n  b:\n    cmd: /bin/sleep 60\n".to_string()),
        0,
    )
    .unwrap();
    let id_a = reg.files[0].tasks[0].1.id;
    let id_b = reg.files[0].tasks[1].1.id;
    reg.record_spawn_result(id_a, 0, 0, taskmaster::unit::SpawnResult::Spawned { pid: 1 });
    reg.record_spawn_result(id_b, 0, 0, taskmaster::unit::SpawnResult::Spawned { pid: 2 });
    let texts = vec![Some(
        "programs:\n  a:\n    cmd: /bin/sleep 60\n  b:\n    cmd: /bin/sleep 90\n".to_string(),
    )];
    let (resp, acts) = handle_client_request(&mut reg, TaskmasterDaemonRequest::Reload, texts, 10);
    assert!(matches!(resp, TaskmasterDaemonResult::Success));
    assert!(matches!(acts[0], Action::Kill { pid: 2, .. }), "only the changed task is restarted");
    assert!(matches!(acts[1], Action::Spawn { .. }));
    assert_eq!(acts.len(), 2);
    let a = &reg.files[0].tasks[0].1;
    assert_eq!(a.id, id_a);
    assert_eq!(a.processes[0].handle, Some(1), "the untouched task keeps its child");
    assert!(matches!(
        a.processes[0].state,
        taskmaster::unit::UnitState::Running { since: 0, pid: 1 }
    ));
    assert_eq!(reg.files[0].tasks[1].1.id, id_b, "the changed task keeps its id");
}

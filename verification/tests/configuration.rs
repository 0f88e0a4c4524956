use taskmaster::options::AutoRestart;
use taskmaster::registry::TaskFiles;

fn load_options(text: &str) -> taskmaster::options::TaskOptions {
    let mut reg = TaskFiles::new();
    reg.load("/etc/t.yaml", Some(text.to_string()), 0).expect("load should succeed");
    let mut o = None;
    for (_, task) in reg.files.remove(0).tasks {
        o = Some(task.options);
        break;
    }
    o.unwrap()
}

#[test]
fn defaults_match_the_documented_table() {
    let o = load_options("programs:\n  d:\n    cmd: /bin/true\n");
    assert_eq!(o.argv, vec!["/bin/true".to_string()]);
    assert_eq!(o.numprocs, 1);
    assert!(o.autostart);
    assert!(matches!(o.autorestart, AutoRestart::Always));
    assert_eq!(o.starttime_sec, 0);
    assert_eq!(o.retries, 8);
    assert_eq!(o.stopsignal, 15);
    assert_eq!(o.stoptime_sec, 0);
    assert_eq!(o.stdout, None);
    assert_eq!(o.stderr, None);
    assert!(o.env.is_empty());
    assert_eq!(o.workingdir, None);
    assert_eq!(o.umask, 0o777);
}

#[test]
fn every_option_is_read_by_name() {
    let o = load_options(
        "programs:\n  full:\n    cmd: /usr/bin/env printer --flag\n    numprocs: 3\n    autostart: false\n    autorestart: unexpected\n    exitcodes: [0, 2]\n    starttime: 5\n    retries: 2\n    stopsignal: USR1\n    stoptime: 4\n    stdout: /tmp/out.log\n    stderr: /tmp/err.log\n    env:\n      A: one\n      B: two\n    workingdir: /tmp\n    umask: 22\n",
    );
    assert_eq!(
        o.argv,
        vec!["/usr/bin/env".to_string(), "printer".to_string(), "--flag".to_string()],
    );
    assert_eq!(o.numprocs, 3);
    assert!(!o.autostart);
    match &o.autorestart {
        AutoRestart::Unexpected(codes) => assert_eq!(codes, &vec![0, 2]),
        other => panic!("wrong policy: {other:?}"),
    }
    assert_eq!(o.starttime_sec, 5);
    assert_eq!(o.retries, 2);
    assert_eq!(o.stopsignal, 30);
    assert_eq!(o.stoptime_sec, 4);
    assert_eq!(o.stdout, Some("/tmp/out.log".to_string()));
    assert_eq!(o.stderr, Some("/tmp/err.log".to_string()));
    assert_eq!(
        o.env,
        vec![("A".to_string(), "one".to_string()), ("B".to_string(), "two".to_string())],
    );
    assert_eq!(o.workingdir, Some("/tmp".to_string()));
    assert_eq!(o.umask, 0o22, "the decimal digits of 22 are read as octal");
}

#[test]
fn umask_falls_back_on_invalid_digits() {
    let o = load_options("programs:\n  u:\n    cmd: /bin/true\n    umask: 98\n");
    assert_eq!(o.umask, 0o777);
    let o = load_options("programs:\n  u:\n    cmd: /bin/true\n    umask: 777\n");
    assert_eq!(o.umask, 0o777);
    let o = load_options("programs:\n  u:\n    cmd: /bin/true\n    umask: 0\n");
    assert_eq!(o.umask, 0);
}

#[test]
fn unreadable_file_reports_its_path() {
    let mut reg = TaskFiles::new();
    let err = reg.load("/etc/missing.yaml", None, 0).unwrap_err();
    assert_eq!(err, "Failed to load /etc/missing.yaml: Could not open file");
    assert_eq!(reg.files.len(), 0);
}

#[test]
fn unparsable_document_is_rejected() {
    let mut reg = TaskFiles::new();
    let err = reg.load("/etc/bad.yaml", Some("programs: [unclosed".to_string()), 0).unwrap_err();
    assert_eq!(err, "Failed to load /etc/bad.yaml: Could not parse config file");
}

#[test]
fn non_string_program_name_is_rejected() {
    let mut reg = TaskFiles::new();
    let err = reg
        .load("/etc/n.yaml", Some("programs:\n  1:\n    cmd: /bin/true\n".to_string()), 0)
        .unwrap_err();
    assert_eq!(err, "Failed to load /etc/n.yaml: Expect a program name");
}

#[test]
fn missing_cmd_is_rejected() {
    let mut reg = TaskFiles::new();
    let err = reg
        .load("/etc/m.yaml", Some("programs:\n  m:\n    numprocs: 1\n".to_string()), 0)
        .unwrap_err();
    assert_eq!(err, "Failed to load /etc/m.yaml: cmd is required and need to be as_str");
}

#[test]
fn blank_cmd_is_rejected() {
    let mut reg = TaskFiles::new();
    let err = reg
        .load("/etc/e.yaml", Some("programs:\n  e:\n    cmd: \"   \"\n".to_string()), 0)
        .unwrap_err();
    assert_eq!(err, "Failed to load /etc/e.yaml: cmd must not be empty");
}

#[test]
fn unknown_autorestart_is_rejected() {
    let mut reg = TaskFiles::new();
    let err = reg
        .load(
            "/etc/a.yaml",
            Some("programs:\n  a:\n    cmd: /bin/true\n    autorestart: sometimes\n".to_string()),
            0,
        )
        .unwrap_err();
    assert_eq!(err, "Failed to load /etc/a.yaml: Invalid autorestart value");
}

#[test]
fn unknown_stopsignal_is_rejected() {
    let mut reg = TaskFiles::new();
    let err = reg
        .load(
            "/etc/sig.yaml",
            Some("programs:\n  s:\n    cmd: /bin/true\n    stopsignal: WOOF\n".to_string()),
            0,
        )
        .unwrap_err();
    assert_eq!(err, "Failed to load /etc/sig.yaml: Invalid stopsignal");
}

#[test]
fn failed_load_leaves_the_registry_alone() {
    let mut reg = TaskFiles::new();
    reg.load(
        "/etc/keep.yaml",
        Some("programs:\n  keep:\n    cmd: /bin/true\n    autostart: false\n".to_string()),
        0,
    )
    .unwrap();
    let id_before = reg.files[0].tasks[0].1.id;
    reg.load("/etc/keep.yaml", Some("programs:\n  keep:\n    cmd:\n".to_string()), 5).unwrap_err();
    assert_eq!(reg.files.len(), 1);
    assert_eq!(reg.files[0].tasks[0].1.id, id_before);
}

#[test]
fn duplicate_program_names_first_wins() {
    let mut reg = TaskFiles::new();
    reg.load(
        "/etc/dup.yaml",
        Some(
            "programs:\n  a:\n    cmd: /bin/first\n    autostart: false\n---\nprograms:\n  a:\n    cmd: /bin/second\n    autostart: false\n"
                .to_string(),
        ),
        0,
    )
    .unwrap();
    assert_eq!(reg.files[0].tasks.len(), 1);
    assert_eq!(reg.files[0].tasks[0].1.options.argv, vec!["/bin/first".to_string()]);
}

#[test]
fn reconcile_preserves_ids_of_surviving_names() {
    let mut reg = TaskFiles::new();
    reg.load(
        "/etc/two.yaml",
        Some("programs:\n  a:\n    cmd: /bin/sleep 60\n    autostart: false\n  b:\n    cmd: /bin/sleep 60\n    autostart: false\n".to_string()),
        0,
    )
    .unwrap();
    let id_a = reg.files[0].tasks[0].1.id;
    let id_b = reg.files[0].tasks[1].1.id;
    assert_ne!(id_a, id_b);
    reg.load(
        "/etc/two.yaml",
        Some("programs:\n  a:\n    cmd: /bin/sleep 60\n    autostart: false\n  b:\n    cmd: /bin/sleep 90\n    autostart: false\n".to_string()),
        10,
    )
    .unwrap();
    assert_eq!(reg.files[0].tasks[0].1.id, id_a, "unchanged task keeps its id");
    assert_eq!(reg.files[0].tasks[1].1.id, id_b, "a changed task still keeps its id");
    assert_eq!(reg.files[0].tasks[1].1.options.argv[1], "90");
}

#[test]
fn second_load_of_unchanged_file_is_invisible() {
    let text = "programs:\n  a:\n    cmd: /bin/sleep 60\n    env:\n      K: v\n    exitcodes: [1, 2]\n    autorestart: unexpected\n    autostart: false\n";
    let mut reg = TaskFiles::new();
    reg.load("/etc/same.yaml", Some(text.to_string()), 0).unwrap();
    let id = reg.files[0].tasks[0].1.id;
    let next_id = reg.next_id;
    let acts = reg.load("/etc/same.yaml", Some(text.to_string()), 99).unwrap();
    assert!(acts.is_empty(), "an unchanged file neither stops nor starts anything");
    assert_eq!(reg.files[0].tasks[0].1.id, id);
    assert_eq!(reg.next_id, next_id, "no fresh ids are consumed");
}

#[test]
fn unload_then_load_makes_fresh_tasks() {
    let text = "programs:\n  f:\n    cmd: /bin/sleep 60\n";
    let mut reg = TaskFiles::new();
    reg.load("/etc/f.yaml", Some(text.to_string()), 0).unwrap();
    let tid = reg.files[0].tasks[0].1.id;
    reg.record_spawn_result(tid, 0, 0, taskmaster::unit::SpawnResult::Spawned { pid: 3 });
    let created_before = reg.files[0].tasks[0].1.processes[0].created_at;
    reg.unload("/etc/f.yaml", 50);
    reg.load("/etc/f.yaml", Some(text.to_string()), 60).unwrap();
    let task = &reg.files[0].tasks[0].1;
    assert_ne!(task.id, tid, "a reloaded source gets a fresh id");
    assert_ne!(task.processes[0].created_at, created_before);
    assert_eq!(task.processes[0].created_at, 60);
}

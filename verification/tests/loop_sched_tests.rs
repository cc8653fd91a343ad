use zero_claw::loop_sched::{
    mix_nanos, parse_interval, rand_u32, tool_definitions, JobRegistry, TickOutcome,
};

#[test]
fn interval_formats() {
    assert_eq!(parse_interval("30s"), Some(30));
    assert_eq!(parse_interval("5m"), Some(300));
    assert_eq!(parse_interval("1h"), Some(3600));
    assert_eq!(parse_interval("2h30m"), Some(9000));
    assert_eq!(parse_interval("1h15m30s"), Some(4530));
    assert_eq!(parse_interval("45"), Some(45));
    assert_eq!(parse_interval(" 5M "), Some(300));
}

#[test]
fn interval_rejections() {
    assert_eq!(parse_interval(""), None);
    assert_eq!(parse_interval("0s"), None);
    assert_eq!(parse_interval("5x"), None);
    assert_eq!(parse_interval("h"), None);
    assert_eq!(parse_interval("5hm"), None);
    assert_eq!(parse_interval("99999999999999999999s"), None);
}

#[test]
fn clock_hash() {
    assert_eq!(mix_nanos(123456789), 467211544);
    let _ = rand_u32();
}

#[test]
fn create_list_pause_remove() {
    let mut reg = JobRegistry::new();
    let out = reg.handle_tool_call_with_seed(
        "loop_create",
        r#"{"schedule":"30s","prompt":"check mail"}"#,
        0x1bd91518,
    );
    assert_eq!(out.text, "Loop created: id=1bd91518, schedule=every 30s, prompt=\"check mail\"");
    let job = out.started.expect("job started");
    assert_eq!(job.id, "1bd91518");
    assert_eq!(job.interval_secs, 30);
    assert!(out.stopped.is_none());
    assert_eq!(reg.len(), 1);

    let list = reg.handle_tool_call_with_seed("loop_list", "{}", 0);
    assert_eq!(list.text, "- 1bd91518 | every 30s | runs:0 skips:0 | active | \"check mail\"");

    let p = reg.handle_tool_call_with_seed("loop_pause", r#"{"job_id":"1bd91518"}"#, 0);
    assert_eq!(p.text, "Paused loop job 1bd91518");
    assert_eq!(reg.list_jobs(), "- 1bd91518 | every 30s | runs:0 skips:0 | paused | \"check mail\"");
    let r = reg.handle_tool_call_with_seed("loop_resume", r#"{"job_id":"1bd91518"}"#, 0);
    assert_eq!(r.text, "Resumed loop job 1bd91518");
    assert_eq!(reg.list_jobs(), "- 1bd91518 | every 30s | runs:0 skips:0 | active | \"check mail\"");

    let rm = reg.handle_tool_call_with_seed("loop_remove", r#"{"job_id":"1bd91518"}"#, 0);
    assert_eq!(rm.text, "Removed loop job 1bd91518");
    assert_eq!(rm.stopped, Some("1bd91518".to_string()));
    assert_eq!(reg.len(), 0);
    assert_eq!(reg.list_jobs(), "No active loop jobs.");
}

#[test]
fn create_refusals() {
    let mut reg = JobRegistry::new();
    let a = reg.handle_tool_call_with_seed("loop_create", r#"{"schedule":"30s"}"#, 1);
    assert_eq!(a.text, "Error: schedule and prompt are required");
    let b = reg.handle_tool_call_with_seed("loop_create", "not json", 1);
    assert_eq!(b.text, "Error: schedule and prompt are required");
    let c = reg.create_job("3s", "hi", 1);
    assert_eq!(c.text, "Error: minimum interval is 5s");
    let d = reg.create_job("soon", "hi", 1);
    assert_eq!(
        d.text,
        "Error: cannot parse schedule 'soon'. Use formats like '30s', '5m', '1h', '2h30m'"
    );
    assert!(a.started.is_none() && b.started.is_none() && c.started.is_none() && d.started.is_none());
    assert_eq!(reg.len(), 0);
}

#[test]
fn unknown_ids_and_tools() {
    let mut reg = JobRegistry::new();
    assert_eq!(reg.remove_job("nope").text, "Job not found: nope");
    assert_eq!(reg.pause_job("nope").text, "Job not found: nope");
    assert_eq!(reg.resume_job("nope").text, "Job not found: nope");
    assert_eq!(reg.handle_tool_call("loop_fly", "{}").text, "Unknown loop tool: loop_fly");
}

#[test]
fn listing_joins_lines_and_truncates_prompt() {
    let mut reg = JobRegistry::new();
    let long = "x".repeat(70);
    reg.create_job("1m", &long, 1);
    reg.create_job("2h", "second", 2);
    let expected = format!(
        "- 00000001 | every 1m | runs:0 skips:0 | active | \"{}\"\n- 00000002 | every 2h | runs:0 skips:0 | active | \"second\"",
        "x".repeat(60)
    );
    assert_eq!(reg.list_jobs(), expected);
}

#[test]
fn same_id_replaces_job() {
    let mut reg = JobRegistry::new();
    reg.create_job("1m", "first", 7);
    reg.create_job("2m", "second", 7);
    assert_eq!(reg.len(), 1);
    assert_eq!(reg.get("00000007").unwrap().prompt, "second");
}

#[test]
fn timer_ticks() {
    let mut reg = JobRegistry::new();
    reg.create_job("10s", "ping", 9);
    match reg.tick("00000009", false) {
        TickOutcome::Fire(e) => {
            assert_eq!(e.job_id, "00000009");
            assert_eq!(e.prompt, "ping");
            assert_eq!(e.schedule, "10s");
        }
        other => panic!("unexpected {:?}", other),
    }
    assert!(matches!(reg.tick("00000009", true), TickOutcome::Skipped));
    reg.pause_job("00000009");
    assert!(matches!(reg.tick("00000009", false), TickOutcome::Idle));
    assert!(matches!(reg.tick("gone", false), TickOutcome::Idle));
    let job = reg.get("00000009").unwrap();
    assert_eq!(job.run_count, 1);
    assert_eq!(job.skip_count, 1);
    assert!(reg.list_jobs().contains("runs:1 skips:1 | paused"));
}

#[test]
fn loop_tool_definitions() {
    let defs = tool_definitions();
    let names: Vec<&str> = defs.iter().map(|t| t.name.as_str()).collect();
    assert_eq!(names, vec!["loop_create", "loop_list", "loop_remove", "loop_pause", "loop_resume"]);
    for d in &defs {
        let v: serde_json::Value = serde_json::from_str(&d.parameters).expect("schema is JSON");
        assert_eq!(v["type"], "object");
    }
    let create: serde_json::Value = serde_json::from_str(&defs[0].parameters).unwrap();
    assert_eq!(create["required"][0], "schedule");
    assert_eq!(create["required"][1], "prompt");
}

#[test]
fn schedules_add_up_when_joined() {
    let a = parse_interval("1H").unwrap();
    let b = parse_interval("30m15").unwrap();
    assert_eq!(parse_interval("1H30m15"), Some(a + b));
    assert_eq!(parse_interval("0s"), None);
    assert_eq!(parse_interval("0h0m"), None);
}

#[test]
fn ticks_count_runs_and_skips_then_stop_after_removal() {
    let mut reg = JobRegistry::new();
    reg.create_job("10s", "ping", 9);
    reg.create_job("1m", "other", 10);
    let pattern = [false, true, true, false, false, true, false];
    for busy in pattern {
        match reg.tick("00000009", busy) {
            TickOutcome::Fire(e) => {
                assert!(!busy);
                assert_eq!((e.job_id.as_str(), e.prompt.as_str(), e.schedule.as_str()), ("00000009", "ping", "10s"));
            }
            TickOutcome::Skipped => assert!(busy),
            TickOutcome::Idle => panic!("an active job must not idle"),
        }
    }
    let job = reg.get("00000009").unwrap();
    assert_eq!(job.run_count, 4);
    assert_eq!(job.skip_count, 3);
    assert_eq!(job.interval_secs, 10);
    assert_eq!(reg.get("0000000a").unwrap().run_count, 0);

    reg.remove_job("00000009");
    let listing = reg.list_jobs();
    for busy in [false, true, false] {
        assert!(matches!(reg.tick("00000009", busy), TickOutcome::Idle));
    }
    assert_eq!(reg.list_jobs(), listing);
    assert!(reg.get("00000009").is_none());
}

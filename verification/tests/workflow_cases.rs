use homepanel::error::ApiError;
use homepanel::overview::{
    disk_usage_from, hostname_from, memory_figures, meminfo_lookup, order_disks, primary_ips,
    read_meminfo_value, resolve_sqlite_database_path, service_counts, DiskUsage,
};
use homepanel::process::{backoff_delay, backoff_delay_millis, ProcessState};
use homepanel::protocol::{ClientTerminalMessage, ServerTerminalMessage};
use homepanel::servers::{
    apply_server_update, check_script_file, failure_message, merge_action_results,
    normalize_optional_text, plan_server_action, process_status, require_absolute,
    script_result, script_timeout_error, status_probe, systemd_status, tail_lines,
    validate_create, ActionPlan, CommandOutcome, LogPlan, ServerActionResult, ServerCreateRequest,
    ServerSettings, ServerUpdateRequest, StatusProbe,
};
use homepanel::services::{
    command_failed_error, output_lines, parse_list_units, parse_show_properties,
};
use homepanel::terminal::{
    attach_check, client_action, initial_metadata, mark_attached, mark_killed, opening_messages,
    output_message, ping_reply, reader_step, reconcile_status, wait_step, ClientAction,
    ReadOutcome, WaitDecision, WaitResult,
};
use homepanel::types::{TerminalId, TerminalKind, TerminalStatus, TerminalSummary, Timestamp};

fn bad_request_text(e: &ApiError) -> String {
    match e {
        ApiError::BadRequest(m) => m.clone(),
        other => panic!("expected a bad request, got {:?}", other),
    }
}

fn result(ok: bool, code: Option<i32>, out: &str, err: &str) -> ServerActionResult {
    ServerActionResult { ok, exit_code: code, stdout: out.to_string(), stderr: err.to_string() }
}

#[test]
fn merged_results_join_outputs() {
    let merged = merge_action_results(result(true, Some(0), "a", ""), result(false, None, "b", "e"));
    assert!(!merged.ok);
    assert_eq!(merged.exit_code, Some(0));
    assert_eq!(merged.stdout, "a\nb");
    assert_eq!(merged.stderr, "e");
}

#[test]
fn tail_keeps_last_lines() {
    let lines = vec!["1".to_string(), "2".to_string(), "3".to_string()];
    assert_eq!(tail_lines(lines.clone(), 2), vec!["2", "3"]);
    assert_eq!(tail_lines(lines.clone(), 0), vec!["1", "2", "3"]);
    assert_eq!(tail_lines(lines, 5), vec!["1", "2", "3"]);
}

fn known_detail(p: StatusProbe) -> (String, Option<String>) {
    match p {
        StatusProbe::Known { status } => (status.state, status.detail),
        _ => panic!("expected a known status"),
    }
}

#[test]
fn status_probes_follow_status_type() {
    match status_probe(&Some("systemd".to_string()), &Some("nginx.service".to_string())) {
        StatusProbe::Systemctl { unit } => assert_eq!(unit, "nginx.service"),
        _ => panic!("expected systemctl"),
    }
    match status_probe(&Some("process".to_string()), &Some("java".to_string())) {
        StatusProbe::Pgrep { process } => assert_eq!(process, "java"),
        _ => panic!("expected pgrep"),
    }
    let (state, detail) = known_detail(status_probe(&Some("systemd".to_string()), &Some("  ".to_string())));
    assert_eq!(state, "unknown");
    assert_eq!(detail.unwrap(), "No systemd unit configured");
    let (_, detail) = known_detail(status_probe(&None, &None));
    assert_eq!(detail.unwrap(), "Manual status");
    let (_, detail) = known_detail(status_probe(&Some("tcp".to_string()), &None));
    assert_eq!(detail.unwrap(), "This status check is not implemented yet");
}

fn exited(success: bool, code: Option<i32>, status_text: &str, stdout: &str) -> CommandOutcome {
    CommandOutcome::Exited {
        success,
        code,
        status_text: status_text.to_string(),
        stdout: stdout.to_string(),
    }
}

#[test]
fn systemd_and_pgrep_outcomes() {
    let s = systemd_status(exited(true, Some(0), "exit status: 0", "active\n"));
    assert_eq!(s.state, "running");
    assert_eq!(s.detail.unwrap(), "active");
    let s = systemd_status(exited(true, Some(0), "exit status: 0", "inactive\n"));
    assert_eq!(s.state, "stopped");
    let s = systemd_status(exited(false, Some(3), "exit status: 3", ""));
    assert_eq!(s.detail.unwrap(), "systemctl exited with status exit status: 3");
    let s = systemd_status(CommandOutcome::SpawnFailed { message: "boom".to_string() });
    assert_eq!(s.state, "unknown");
    let p = process_status("java", exited(false, Some(1), "exit status: 1", ""));
    assert_eq!(p.state, "stopped");
    assert_eq!(p.detail.unwrap(), "java");
    let p = process_status("java", exited(true, Some(0), "exit status: 0", "42"));
    assert_eq!(p.state, "running");
    let p = process_status("java", exited(false, Some(2), "exit status: 2", ""));
    assert_eq!(p.detail.unwrap(), "pgrep exited with status exit status: 2");
}

fn settings() -> ServerSettings {
    ServerSettings {
        name: "Old".to_string(),
        description: Some("desc".to_string()),
        working_dir: None,
        start_script: Some("/opt/start.sh".to_string()),
        stop_script: Some("/opt/stop.sh".to_string()),
        restart_script: None,
        log_type: Some("file".to_string()),
        log_path: Some("/var/log/x.log".to_string()),
        log_unit: None,
        status_type: None,
        status_value: None,
    }
}

fn empty_update() -> ServerUpdateRequest {
    ServerUpdateRequest {
        name: None,
        description: None,
        working_dir: None,
        start_script: None,
        stop_script: None,
        restart_script: None,
        log_type: None,
        log_path: None,
        log_unit: None,
        status_type: None,
        status_value: None,
    }
}

#[test]
fn server_updates_merge_and_validate() {
    let mut body = empty_update();
    body.description = Some("   ".to_string());
    body.working_dir = Some("  /srv/game ".to_string());
    body.log_type = Some("  ".to_string());
    let updated = apply_server_update(&settings(), body).unwrap();
    assert_eq!(updated.name, "Old");
    assert_eq!(updated.description, None);
    assert_eq!(updated.working_dir, Some("/srv/game".to_string()));
    assert_eq!(updated.log_type, Some("file".to_string()));
    assert_eq!(updated.start_script, Some("/opt/start.sh".to_string()));

    let mut body = empty_update();
    body.name = Some(" ".to_string());
    body.log_type = Some("x".to_string());
    assert_eq!(bad_request_text(&apply_server_update(&settings(), body).err().unwrap()), "name is required");

    let mut body = empty_update();
    body.log_type = Some("x".to_string());
    assert_eq!(
        bad_request_text(&apply_server_update(&settings(), body).err().unwrap()),
        "unsupported log type `x`"
    );

    let mut body = empty_update();
    body.status_type = Some(" ping ".to_string());
    assert_eq!(
        bad_request_text(&apply_server_update(&settings(), body).err().unwrap()),
        "unsupported status type `ping`"
    );
}

#[test]
fn action_plans_need_scripts() {
    let s = settings();
    match plan_server_action(&s, "start").unwrap() {
        ActionPlan::Run { script, label } => {
            assert_eq!(script, "/opt/start.sh");
            assert_eq!(label, "start");
        }
        _ => panic!("expected one script"),
    }
    assert!(matches!(plan_server_action(&s, "restart").unwrap(), ActionPlan::StopThenStart { .. }));
    let mut no_start = settings();
    no_start.start_script = None;
    assert_eq!(
        bad_request_text(&plan_server_action(&no_start, "restart").err().unwrap()),
        "restart script is not configured"
    );
    assert_eq!(
        bad_request_text(&plan_server_action(&no_start, "start").err().unwrap()),
        "start script is not configured"
    );
    assert_eq!(bad_request_text(&plan_server_action(&s, "kill").err().unwrap()), "unsupported action");
    assert!(matches!(
        homepanel::servers::plan_logs(&s).unwrap(),
        LogPlan::File { .. }
    ));
}

#[test]
fn script_checks_and_results() {
    assert_eq!(
        failure_message("systemctl", "exit status: 5", "  \n"),
        "systemctl exited with status exit status: 5"
    );
    assert_eq!(failure_message("systemctl", "exit status: 5", " oops "), "oops");
    assert_eq!(
        bad_request_text(&check_script_file("start script", "/x.sh", true, 0o644).unwrap_err()),
        "start script is not executable: /x.sh"
    );
    assert!(check_script_file("start script", "/x.sh", true, 0o755).is_ok());
    assert_eq!(
        bad_request_text(&check_script_file("start script", "/x.sh", false, 0o755).unwrap_err()),
        "start script must point to a file: /x.sh"
    );
    assert_eq!(
        bad_request_text(&require_absolute("x.sh", "start script").unwrap_err()),
        "start script must be absolute"
    );
    let r = script_result(true, Some(0), "out\n\n", "err  ");
    assert_eq!(r.stdout, "out");
    assert_eq!(r.stderr, "err");
    match script_timeout_error("start") {
        ApiError::Message { code, message } => {
            assert_eq!(code, "script_timeout");
            assert_eq!(message, "start script timed out after 30 seconds");
        }
        _ => panic!("expected a message"),
    }
    match command_failed_error("systemctl", "exit status: 1", "") {
        ApiError::Message { code, message } => {
            assert_eq!(code, "command_failed");
            assert_eq!(message, "systemctl exited with status exit status: 1");
        }
        _ => panic!("expected a message"),
    }
}

#[test]
fn optional_text_normalizes_once() {
    let once = normalize_optional_text(Some("  hi ".to_string()));
    assert_eq!(once, Some("hi".to_string()));
    assert_eq!(normalize_optional_text(once.clone()), once);
    assert_eq!(normalize_optional_text(Some("\t\n".to_string())), None);
    let (name, desc) = validate_create(ServerCreateRequest {
        name: " Minecraft ".to_string(),
        description: Some(" ".to_string()),
    })
    .unwrap();
    assert_eq!(name, "Minecraft");
    assert_eq!(desc, None);
}

#[test]
fn list_units_skips_short_lines() {
    let units = parse_list_units("a b c\nx.service loaded active running\n");
    assert_eq!(units.len(), 1);
    assert_eq!(units[0].sub, "running");
    assert_eq!(units[0].description, "");
}

#[test]
fn show_properties_edge_cases() {
    let d = parse_show_properties("Id=a\nId=b\nMainPID=abc\nFragmentPath=n/a\n");
    assert_eq!(d.name, "b");
    assert_eq!(d.main_pid, 0);
    assert_eq!(d.fragment_path, None);
    assert_eq!(d.memory_current, None);
    let d = parse_show_properties("MainPID=+7\nDescription=a=b\n");
    assert_eq!(d.name, "unknown.service");
    assert_eq!(d.main_pid, 7);
    assert_eq!(d.description, "a=b");
    assert_eq!(parse_show_properties("MainPID=4294967296").main_pid, 0);
}

#[test]
fn output_lines_split_like_str_lines() {
    assert_eq!(output_lines("a\r\nb\n\nc"), vec!["a", "b", "", "c"]);
    assert!(output_lines("").is_empty());
}

#[test]
fn sqlite_paths() {
    assert_eq!(resolve_sqlite_database_path("sqlite:///var/x.db"), Some("/var/x.db".to_string()));
    assert_eq!(resolve_sqlite_database_path("sqlite://rel.db"), Some("rel.db".to_string()));
    assert_eq!(resolve_sqlite_database_path("sqlite:mem.db"), Some("mem.db".to_string()));
    assert_eq!(resolve_sqlite_database_path("postgres://x"), None);
}

#[test]
fn counts_services() {
    let c = service_counts(
        "a.service loaded active running desc\nb.service loaded failed failed x\nc.service loaded inactive dead y\n\n",
    );
    assert_eq!(c.total, Some(3));
    assert_eq!(c.running, Some(1));
    assert_eq!(c.failed, Some(1));
}

#[test]
fn meminfo_readers() {
    let text = "MemTotal:       16384 kB\nMemFree: 100 kB\nMemFree: 200 kB\n";
    assert_eq!(meminfo_lookup(text, "MemTotal"), Some(16384));
    assert_eq!(meminfo_lookup(text, "MemFree"), Some(200));
    assert_eq!(meminfo_lookup(text, "Cached"), None);
    assert_eq!(read_meminfo_value(text, "MemTotal:"), None);
    assert_eq!(read_meminfo_value("Foo: 1 2\n", "Foo:"), Some(2));
}

#[test]
fn memory_and_disk_figures() {
    let m = memory_figures(Some(1000), None, Some(100), Some(20), Some(30));
    assert_eq!(m.total_bytes, Some(1_024_000));
    assert_eq!(m.available_bytes, Some(153_600));
    assert_eq!(m.used_bytes, Some(870_400));
    let m = memory_figures(Some(1000), Some(2000), None, None, None);
    assert_eq!(m.used_bytes, Some(0));
    let m = memory_figures(None, None, Some(1), None, None);
    assert_eq!(m.available_bytes, None);
    let d = disk_usage_from("/".to_string(), 4096, 10, 4).unwrap();
    assert_eq!(d.total_bytes, Some(40960));
    assert_eq!(d.available_bytes, Some(16384));
    assert_eq!(d.used_bytes, Some(24576));
    assert!(disk_usage_from("/".to_string(), 2, u64::MAX, 1).is_none());
}

fn disk(mount: &str, total: u64, avail: u64) -> DiskUsage {
    DiskUsage {
        mount_point: mount.to_string(),
        total_bytes: Some(total),
        used_bytes: Some(total - avail),
        available_bytes: Some(avail),
    }
}

#[test]
fn disks_sorted_and_deduplicated() {
    let out = order_disks(vec![
        (Some(1), disk("/var/lib/homepanel", 100, 50)),
        (Some(1), disk("/", 100, 50)),
        (Some(2), disk("/mnt/games", 7, 3)),
    ]);
    let mounts: Vec<&str> = out.iter().map(|d| d.mount_point.as_str()).collect();
    assert_eq!(mounts, vec!["/", "/mnt/games"]);
    let out = order_disks(vec![
        (Some(3), disk("/var/lib/homepanel", 100, 50)),
        (Some(1), disk("/", 100, 50)),
    ]);
    assert_eq!(out.len(), 1);
    let out = order_disks(vec![
        (Some(3), disk("/var/lib/homepanel", 90, 40)),
        (Some(1), disk("/", 100, 50)),
    ]);
    assert_eq!(out.len(), 2);
    assert_eq!(out[1].mount_point, "/var/lib/homepanel");
}

#[test]
fn host_facts() {
    assert_eq!(hostname_from("  myhost\n"), Some("myhost".to_string()));
    assert_eq!(hostname_from("  \n"), None);
    assert_eq!(primary_ips("192.168.1.2 10.0.0.1 \n"), vec!["192.168.1.2", "10.0.0.1"]);
}

fn ts(secs: i64) -> Timestamp {
    Timestamp { secs, nanos: 0 }
}

fn metadata() -> homepanel::types::TerminalMetadata {
    initial_metadata(
        TerminalId("terminal-1".to_string()),
        "first".to_string(),
        TerminalKind::Shell,
        "sleep 5".to_string(),
        "/tmp".to_string(),
        Some("/bin/bash".to_string()),
        80,
        24,
        false,
        None,
        ts(1),
        ts(1),
    )
}

#[test]
fn terminal_lifecycle() {
    let mut m = metadata();
    assert_eq!(m.status, TerminalStatus::Starting);
    assert!(attach_check(Some(m.status)).is_ok());
    mark_attached(&mut m, ts(2), ts(3));
    assert_eq!(m.status, TerminalStatus::Running);
    assert_eq!(m.last_attached_at, Some(ts(2)));
    assert_eq!(m.updated_at, ts(3));
    reconcile_status(&mut m, None, ts(4));
    assert_eq!(m.status, TerminalStatus::Running);
    reconcile_status(&mut m, Some(3), ts(5));
    assert_eq!(m.status, TerminalStatus::Exited);
    assert_eq!(m.exit_code, Some(3));
    assert!(matches!(attach_check(Some(m.status)), Err(ApiError::NotFound)));
    mark_attached(&mut m, ts(6), ts(6));
    assert_eq!(m.status, TerminalStatus::Exited);
    reconcile_status(&mut m, Some(u32::MAX), ts(7));
    assert_eq!(m.exit_code, None);
    let mut k = metadata();
    mark_killed(&mut k, ts(8));
    assert_eq!(k.exit_code, Some(0));
    assert!(matches!(attach_check(None), Err(ApiError::NotFound)));
    let summary = TerminalSummary::from(metadata());
    assert_eq!(summary.name, "first");
    assert_eq!(summary.cols, 80);
}

#[test]
fn reader_and_wait_decisions() {
    let s = reader_step(ReadOutcome::Closed { exit_code: None });
    assert_eq!(s.status, TerminalStatus::Exited);
    assert_eq!(s.exit_code, Some(0));
    assert!(s.announce_end && !s.keep_reading);
    let s = reader_step(ReadOutcome::Data);
    assert!(s.forward_output && s.keep_reading);
    let s = reader_step(ReadOutcome::Failed);
    assert_eq!(s.status, TerminalStatus::Failed);
    assert!(matches!(wait_step(0, WaitResult::StillRunning), WaitDecision::Retry));
    assert!(matches!(wait_step(9, WaitResult::StillRunning), WaitDecision::Done { exit_code: None }));
    assert!(matches!(wait_step(0, WaitResult::Exited { code: 2 }), WaitDecision::Done { exit_code: Some(2) }));
    assert!(matches!(wait_step(0, WaitResult::Error), WaitDecision::Done { exit_code: None }));
}

#[test]
fn client_messages_and_replies() {
    match client_action(ClientTerminalMessage::Input { data: "hé".to_string() }) {
        ClientAction::Write { bytes } => assert_eq!(bytes, vec![104, 195, 169]),
        _ => panic!("expected a write"),
    }
    assert!(matches!(
        client_action(ClientTerminalMessage::Resize { cols: 120, rows: 32 }),
        ClientAction::Resize { cols: 120, rows: 32 }
    ));
    assert!(matches!(client_action(ClientTerminalMessage::Ping), ClientAction::ReportStatus));
    assert!(matches!(
        ping_reply(None),
        ServerTerminalMessage::Status { status: TerminalStatus::Failed }
    ));
    assert!(matches!(
        ping_reply(Some(TerminalStatus::Running)),
        ServerTerminalMessage::Status { status: TerminalStatus::Running }
    ));
}

#[test]
fn websocket_messages_carry_base64() {
    for (bytes, text) in [(&b"abc"[..], "YWJj"), (&b"abcd"[..], "YWJjZA=="), (&b"\xff\xfe"[..], "//4=")] {
        match output_message(bytes, None) {
            (ServerTerminalMessage::Output { data }, false) => assert_eq!(data, text),
            _ => panic!("expected output"),
        }
    }
    let m = metadata();
    let opening = opening_messages(&m, b"hi");
    assert_eq!(opening.len(), 2);
    match &opening[1] {
        ServerTerminalMessage::Scrollback { data } => assert_eq!(data, "aGk="),
        _ => panic!("expected scrollback"),
    }
    assert_eq!(opening_messages(&m, b"").len(), 1);
    match output_message(b"hello", None) {
        (ServerTerminalMessage::Output { data }, false) => assert_eq!(data, "aGVsbG8="),
        _ => panic!("expected output"),
    }
    assert!(matches!(output_message(b"", Some(3)), (ServerTerminalMessage::Exit { code: Some(3) }, true)));
}

#[test]
fn terminal_names_and_ids() {
    assert_eq!(TerminalKind::GameServer.name(), "game_server");
    assert_eq!(TerminalStatus::Exited.name(), "exited");
    let id = TerminalId::new("terminal");
    assert!(id.0.starts_with("terminal-"));
    assert_eq!(id.0.len(), "terminal-".len() + 36);
}

#[test]
fn backoff_grows_to_five_seconds() {
    let values: Vec<u64> = (0..7).map(backoff_delay_millis).collect();
    assert_eq!(values, vec![250, 500, 1000, 2000, 4000, 5000, 5000]);
    assert_eq!(backoff_delay(3), std::time::Duration::from_millis(2000));
    assert_eq!(backoff_delay(100), std::time::Duration::from_millis(5000));
    let p = ProcessState::running();
    assert_eq!(p.status, TerminalStatus::Running);
    assert!(p.last_heartbeat.is_some());
}

fn change() -> ServerUpdateRequest {
    let mut body = empty_update();
    body.name = Some("  New  ".to_string());
    body.description = Some(" world ".to_string());
    body.log_type = Some(" journal ".to_string());
    body.log_unit = Some("mc.service".to_string());
    body.status_value = Some("   ".to_string());
    body
}

fn same_settings(a: &ServerSettings, b: &ServerSettings) -> bool {
    a.name == b.name
        && a.description == b.description
        && a.working_dir == b.working_dir
        && a.start_script == b.start_script
        && a.stop_script == b.stop_script
        && a.restart_script == b.restart_script
        && a.log_type == b.log_type
        && a.log_path == b.log_path
        && a.log_unit == b.log_unit
        && a.status_type == b.status_type
        && a.status_value == b.status_value
}

#[test]
fn same_update_twice_changes_nothing_more() {
    let mut current = settings();
    current.working_dir = Some("  /srv/mc  ".to_string());
    let once = apply_server_update(&current, change()).unwrap();
    let twice = apply_server_update(&once, change()).unwrap();
    assert!(same_settings(&once, &twice));
    assert_eq!(once.name, "New");
    assert_eq!(once.working_dir.as_deref(), Some("/srv/mc"));
    assert_eq!(once.log_type.as_deref(), Some("journal"));
    assert_eq!(once.status_value, None);
}

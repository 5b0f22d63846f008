use homepanel::auth::{extract_token, session_cookie, token_hash};
use homepanel::error::{server_error_status, ApiError, IoKind};
use homepanel::files::{
    admit_path, build_target_path, directory_list_response, ensure_parent_allowed, FileEntry,
    FileKind,
};
use homepanel::paths::{canonicalize_like, is_allowed_root, is_within_allowed_roots, FileAllowlist};
use homepanel::servers::{
    check_directory, check_log_file, check_log_path, missing_log_file_error, missing_path_error,
    path_error, path_error_for,
    restart_continues, restart_result, server_record, ServerActionResult, ServerSettings,
    ServerStatusSummary,
};
use homepanel::services::command_spawn_error;
use homepanel::state::session_record;
use homepanel::terminal::{frame_action, shell_args, shell_program, Frame, FrameAction};
use homepanel::overview::memory_figures_checked;

fn bad_request_text(e: &ApiError) -> String {
    match e {
        ApiError::BadRequest(m) => m.clone(),
        other => panic!("expected a bad request, got {:?}", other),
    }
}

fn roots() -> Vec<String> {
    vec!["/srv".to_string(), "/home/user".to_string()]
}

#[test]
fn server_errors_map_to_statuses() {
    assert_eq!(server_error_status(&ApiError::Unauthorized), 401);
    assert_eq!(server_error_status(&ApiError::Forbidden), 403);
    assert_eq!(server_error_status(&ApiError::NotFound), 404);
    assert_eq!(server_error_status(&ApiError::bad_request("x".to_string())), 400);
    assert_eq!(server_error_status(&ApiError::Database("x".to_string())), 500);
    let missing = std::io::Error::new(std::io::ErrorKind::NotFound, "gone");
    assert_eq!(server_error_status(&ApiError::Io(missing)), 404);
    let denied = std::io::Error::new(std::io::ErrorKind::PermissionDenied, "no");
    assert_eq!(server_error_status(&ApiError::Io(denied)), 403);
    let exists = std::io::Error::new(std::io::ErrorKind::AlreadyExists, "dup");
    assert_eq!(server_error_status(&ApiError::Io(exists)), 400);
}

#[test]
fn admitted_paths_stay_inside_allowlist() {
    let list = FileAllowlist { allowed_paths: vec!["/srv".to_string()] };
    assert_eq!(admit_path(&list, "/srv/games".to_string()).unwrap(), "/srv/games");
    assert!(matches!(admit_path(&list, "/etc/passwd".to_string()), Err(ApiError::Forbidden)));
    assert!(matches!(admit_path(&list, "/srv/../etc".to_string()), Err(ApiError::Forbidden)));
}

#[test]
fn parents_must_be_inside_roots() {
    assert_eq!(ensure_parent_allowed("/srv/a", &roots()).unwrap(), "/srv/a");
    assert!(matches!(ensure_parent_allowed("/var", &roots()), Err(ApiError::Forbidden)));
    assert!(matches!(ensure_parent_allowed("/srv/../etc", &roots()), Err(ApiError::Forbidden)));
}

#[test]
fn roots_are_recognised_by_components() {
    assert!(is_allowed_root("/srv", &roots()));
    assert!(is_allowed_root("/srv/", &roots()));
    assert!(is_allowed_root("/home//user", &roots()));
    assert!(!is_allowed_root("/srv/a", &roots()));
    assert!(!is_allowed_root("/home", &roots()));
}

fn entry(name: &str, kind: FileKind) -> FileEntry {
    FileEntry {
        name: name.to_string(),
        path: format!("/srv/{name}"),
        kind,
        size: 1,
        modified: None,
        readonly: false,
    }
}

#[test]
fn listings_sort_and_show_parents_inside_roots() {
    let listing = directory_list_response(
        "/srv/games",
        &roots(),
        vec![entry("b.txt", FileKind::File), entry("maps", FileKind::Dir)],
    )
    .unwrap();
    assert_eq!(listing.path, "/srv/games");
    assert_eq!(listing.parent_path.as_deref(), Some("/srv"));
    assert_eq!(listing.allowed_roots, roots());
    let names: Vec<&str> = listing.entries.iter().map(|e| e.name.as_str()).collect();
    assert_eq!(names, vec!["maps", "b.txt"]);

    let top = directory_list_response("/srv", &roots(), Vec::new()).unwrap();
    assert_eq!(top.parent_path, None);

    assert!(matches!(
        directory_list_response("/etc", &roots(), Vec::new()),
        Err(ApiError::Forbidden)
    ));
}

fn result(ok: bool, code: Option<i32>, out: &str) -> ServerActionResult {
    ServerActionResult { ok, exit_code: code, stdout: out.to_string(), stderr: String::new() }
}

#[test]
fn restarts_stop_after_a_failed_stop() {
    assert!(!restart_continues(&result(false, Some(1), "")));
    assert!(restart_continues(&result(true, Some(0), "")));
    let alone = restart_result(result(false, Some(3), "stopping"), None);
    assert!(!alone.ok);
    assert_eq!(alone.exit_code, Some(3));
    assert_eq!(alone.stdout, "stopping");
    let both = restart_result(result(true, Some(0), "stopped"), Some(result(true, None, "started")));
    assert!(both.ok);
    assert_eq!(both.exit_code, Some(0));
    assert_eq!(both.stdout, "stopped\nstarted");
}

#[test]
fn configured_paths_are_checked() {
    assert_eq!(
        bad_request_text(&missing_path_error("start script", "/opt/s.sh")),
        "start script does not exist: /opt/s.sh"
    );
    assert!(check_directory("working directory", "/srv", true).is_ok());
    assert_eq!(
        bad_request_text(&check_directory("working directory", "/srv/f", false).unwrap_err()),
        "working directory must point to a directory: /srv/f"
    );
    assert!(check_log_path("/var/log/a.log").is_ok());
    assert_eq!(
        bad_request_text(&check_log_path("a.log").unwrap_err()),
        "log file path must be absolute"
    );
    assert_eq!(
        bad_request_text(&missing_log_file_error("/var/log/a.log")),
        "log file does not exist: /var/log/a.log"
    );
    assert!(check_log_file("/var/log/a.log", true).is_ok());
    assert_eq!(
        bad_request_text(&check_log_file("/var/log", false).unwrap_err()),
        "log file path must point to a file: /var/log"
    );
}

#[test]
fn records_carry_settings_and_status() {
    let settings = ServerSettings {
        name: "Minecraft".to_string(),
        description: Some("world".to_string()),
        working_dir: Some("/srv/mc".to_string()),
        start_script: Some("/srv/mc/start.sh".to_string()),
        stop_script: None,
        restart_script: None,
        log_type: Some("file".to_string()),
        log_path: Some("/srv/mc/latest.log".to_string()),
        log_unit: None,
        status_type: Some("process".to_string()),
        status_value: Some("java".to_string()),
    };
    let status = ServerStatusSummary { state: "running".to_string(), detail: Some("java".to_string()) };
    let record = server_record(
        "id-1".to_string(),
        settings,
        status,
        "2024-01-01T00:00:00+00:00".to_string(),
        "2024-01-02T00:00:00+00:00".to_string(),
    );
    assert_eq!(record.id, "id-1");
    assert_eq!(record.name, "Minecraft");
    assert_eq!(record.start_script.as_deref(), Some("/srv/mc/start.sh"));
    assert_eq!(record.status.state, "running");
    assert_eq!(record.updated_at, "2024-01-02T00:00:00+00:00");
}

#[test]
fn command_errors_name_the_program() {
    match command_spawn_error("systemctl", "No such file or directory") {
        ApiError::Message { code, message } => {
            assert_eq!(code, "command_spawn_failed");
            assert_eq!(message, "systemctl: No such file or directory");
        }
        other => panic!("unexpected {:?}", other),
    }
}

#[test]
fn session_records_store_the_token_hash() {
    let record = session_record("u1".to_string(), "admin".to_string(), "secret-token");
    assert_eq!(record.user_id, "u1");
    assert_eq!(record.username, "admin");
    assert_eq!(record.token_hash, token_hash("secret-token"));
    assert_eq!(record.token_hash.len(), 64);
}

#[test]
fn shells_run_the_command_with_lc() {
    assert_eq!(shell_program(&None), "/bin/bash");
    assert_eq!(shell_program(&Some("/bin/zsh".to_string())), "/bin/zsh");
    assert_eq!(shell_args("sleep 5"), vec!["-lc".to_string(), "sleep 5".to_string()]);
}

#[test]
fn targets_of_plain_names_stay_inside_roots() {
    let t = build_target_path("/srv/games", "world").unwrap();
    assert_eq!(t, "/srv/games/world");
    assert!(is_within_allowed_roots(&t, &roots()));
    let t = build_target_path("/srv/", "notes.txt").unwrap();
    assert_eq!(t, "/srv/notes.txt");
    assert!(is_within_allowed_roots(&t, &roots()));
    let t = build_target_path("/srv", "logs/").unwrap();
    assert_eq!(t, "/srv/logs/");
    assert!(is_within_allowed_roots(&t, &roots()));
    // A name whose one component is `..` is accepted as written, and its
    // target leaves the directory.
    let t = build_target_path("/srv/games", "../").unwrap();
    assert_eq!(t, "/srv/games/../");
    assert!(!is_within_allowed_roots(&t, &roots()));
}

#[test]
fn canonical_paths_are_fixed_points() {
    for p in ["/srv/../etc/./passwd", "a/./b/../c", "../../x", "/", ".", "", "/srv//games/", "x/.."] {
        let once = canonicalize_like(p);
        assert_eq!(canonicalize_like(&once), once, "path {p:?}");
    }
    assert_eq!(canonicalize_like("/srv/../etc/./passwd"), "/etc/passwd");
    assert_eq!(canonicalize_like("x/.."), "x/..");
}

#[test]
fn session_cookie_token_reads_back() {
    let token = "0b6f3c1e-8a2d-4f7b-9c5e-1d2a3b4c5d6e";
    let set = session_cookie("homepanel_session", token, "; Secure");
    assert!(set.starts_with("homepanel_session=0b6f3c1e"));
    let sent = format!("homepanel_session={token}");
    assert_eq!(extract_token(Some(&sent), "homepanel_session").as_deref(), Some(token));
    let sent = format!("theme=dark; homepanel_session={token}");
    assert_eq!(extract_token(Some(&sent), "homepanel_session").as_deref(), Some(token));
}

#[test]
fn unreadable_configured_paths_map_to_errors() {
    let missing = || missing_path_error("start script", "/opt/s.sh");
    let e = path_error_for(IoKind::NotFound, std::io::Error::other("x"), missing());
    assert_eq!(bad_request_text(&e), "start script does not exist: /opt/s.sh");
    let e = path_error_for(IoKind::PermissionDenied, std::io::Error::other("x"), missing());
    assert!(matches!(e, ApiError::Forbidden));
    let e = path_error_for(IoKind::Other, std::io::Error::other("boom"), missing());
    assert!(matches!(e, ApiError::Io(_)));
    let denied = std::io::Error::new(std::io::ErrorKind::PermissionDenied, "no");
    assert!(matches!(path_error(denied, missing()), ApiError::Forbidden));
    let gone = std::io::Error::new(std::io::ErrorKind::NotFound, "gone");
    assert_eq!(bad_request_text(&path_error(gone, missing())), "start script does not exist: /opt/s.sh");
}

#[test]
fn upper_case_states_count_like_lower_case() {
    let counts = homepanel::overview::service_counts(
        "a.service loaded ACTIVE running A\nb.service loaded inactive FAILED B\nc.service loaded Failed dead C\n",
    );
    assert_eq!(counts.total, Some(3));
    assert_eq!(counts.running, Some(1));
    assert_eq!(counts.failed, Some(2));
}

#[test]
fn checked_memory_figures_refuse_overflow() {
    let m = memory_figures_checked(Some(1000), None, Some(100), Some(50), Some(50)).unwrap();
    assert_eq!(m.total_bytes, Some(1_024_000));
    assert_eq!(m.available_bytes, Some(204_800));
    assert_eq!(m.used_bytes, Some(819_200));
    assert!(memory_figures_checked(Some(u64::MAX / 1024 + 1), None, None, None, None).is_none());
    assert!(memory_figures_checked(None, None, Some(u64::MAX), Some(1), Some(1)).is_none());
    let top = memory_figures_checked(Some(u64::MAX / 1024), None, None, None, None).unwrap();
    assert_eq!(top.total_bytes, Some(u64::MAX / 1024 * 1024));
    assert_eq!(top.used_bytes, None);
}

#[test]
fn websocket_frames_map_to_actions() {
    match frame_action(Frame::Text { text: "{\"type\":\"ping\"}".to_string() }) {
        FrameAction::Handle { text } => assert_eq!(text, "{\"type\":\"ping\"}"),
        _ => panic!("expected handle"),
    }
    assert!(matches!(frame_action(Frame::Close), FrameAction::Stop));
    match frame_action(Frame::Ping { payload: vec![1, 2, 3] }) {
        FrameAction::Pong { payload } => assert_eq!(payload, vec![1, 2, 3]),
        _ => panic!("expected pong"),
    }
    assert!(matches!(frame_action(Frame::Other), FrameAction::Ignore));
}

#[test]
fn scrollback_answer_carries_base64() {
    assert_eq!(homepanel::protocol::scrollback_data(b"abcd"), "YWJjZA==");
    assert_eq!(homepanel::protocol::scrollback_data(b""), "");
    assert_eq!(homepanel::protocol::scrollback_data(&[0xff, 0x00, 0x10]), "/wAQ");
}

#[test]
fn fresh_ids_are_hyphenated_v4_uuids() {
    let a = homepanel::auth::fresh_id();
    let b = homepanel::auth::fresh_id();
    assert_eq!(a.len(), 36);
    let chars: Vec<char> = a.chars().collect();
    for (i, c) in chars.iter().enumerate() {
        if i == 8 || i == 13 || i == 18 || i == 23 {
            assert_eq!(*c, '-');
        } else {
            assert!(c.is_ascii_hexdigit() && !c.is_ascii_uppercase());
        }
    }
    assert_eq!(chars[14], '4');
    assert!(matches!(chars[19], '8' | '9' | 'a' | 'b'));
    assert_ne!(a, b);
}

#[test]
fn only_lines_of_three_words_are_services() {
    let counts = homepanel::overview::service_counts(
        "a.service loaded\n\nb.service loaded active running B\n   \nc.service loaded Ünknown\n",
    );
    assert_eq!(counts.total, Some(2));
    assert_eq!(counts.running, Some(1));
    assert_eq!(counts.failed, Some(0));
}

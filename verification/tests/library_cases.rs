use homepanel::auth::{
    auth_status, cleared_cookie, cookie_suffix, extract_token, login_check, new_session_id,
    require_user, session_cookie, setup_check, setup_required, token_hash, SessionId,
};
use homepanel::config::{config_candidates, AppConfig};
use homepanel::error::{file_status_for, server_status_for, ApiError, ApiErrorResponse, IoKind};
use homepanel::files::{
    build_target_path, check_requested_path, download_disposition, ensure_absolute, file_kind,
    is_probably_text, pick_directory, preview_content, resolve_parent_if_allowed, sort_entries,
    validate_component_name, FileEntry, FileKind,
};
use homepanel::paths::{canonicalize_like, is_within_allowed_roots, parent_path, FileAllowlist};
use homepanel::scrollback::ScrollbackBuffer;

fn bad_request_text(e: &ApiError) -> String {
    match e {
        ApiError::BadRequest(m) => m.clone(),
        other => panic!("expected a bad request, got {:?}", other),
    }
}

#[test]
fn scrollback_two_appends_equal_one() {
    let mut split = ScrollbackBuffer::new(4);
    split.append(&[1, 2]);
    split.append(&[3, 4, 5]);
    split.append(&[6]);
    let mut joined = ScrollbackBuffer::new(4);
    joined.append(&[1, 2]);
    joined.append(&[3, 4, 5, 6]);
    assert_eq!(split.snapshot(), vec![3, 4, 5, 6]);
    assert_eq!(split.snapshot(), joined.snapshot());
    assert_eq!(split.len(), 4);
}

#[test]
fn scrollback_zero_capacity_keeps_nothing() {
    let mut buffer = ScrollbackBuffer::new(0);
    buffer.append(b"abc");
    assert_eq!(buffer.len(), 0);
    assert!(buffer.snapshot().is_empty());
}

#[test]
fn extract_token_finds_named_cookie() {
    assert_eq!(extract_token(Some("a=1; session=tok; b=2"), "session"), Some("tok".to_string()));
    assert_eq!(extract_token(Some("session = tok ; x=1"), "session"), Some("tok".to_string()));
    assert_eq!(extract_token(Some("session=a=b"), "session"), Some("a=b".to_string()));
    assert_eq!(extract_token(Some("a=1;"), "a"), Some("1".to_string()));
}

#[test]
fn extract_token_stops_at_a_part_without_value() {
    assert_eq!(extract_token(Some("flag; session=tok"), "session"), None);
    assert_eq!(extract_token(Some("a=1;"), "x"), None);
    assert_eq!(extract_token(None, "session"), None);
}

#[test]
fn token_hash_is_hex_sha256() {
    assert_eq!(
        token_hash(""),
        "e3b0c44298fc1c149afbf4c8996fb92427ae41e4649b934ca495991b7852b855"
    );
    assert_eq!(
        token_hash("abc"),
        "ba7816bf8f01cfea414140de5dae2223b00361a396177a9cb410ff61f20015ad"
    );
}

fn assert_uuid_v4(s: &str) {
    let chars: Vec<char> = s.chars().collect();
    assert_eq!(chars.len(), 36);
    for (i, c) in chars.iter().enumerate() {
        if i == 8 || i == 13 || i == 18 || i == 23 {
            assert_eq!(*c, '-');
        } else {
            assert!(c.is_ascii_hexdigit() && !c.is_ascii_uppercase());
        }
    }
    assert_eq!(chars[14], '4');
    assert!(matches!(chars[19], '8' | '9' | 'a' | 'b'));
}

#[test]
fn session_ids_are_random_v4_uuids() {
    let a = new_session_id();
    let b = SessionId::new();
    assert_uuid_v4(&a.0);
    assert_uuid_v4(&b.0);
    assert_ne!(a.0, b.0);
}

#[test]
fn cookies_carry_secure_flag_over_https() {
    assert_eq!(cookie_suffix("https://panel.example"), "; Secure");
    assert_eq!(cookie_suffix("http://127.0.0.1:8080"), "");
    assert_eq!(
        session_cookie("homepanel_session", "tok", "; Secure"),
        "homepanel_session=tok; HttpOnly; Path=/; SameSite=Lax; Secure"
    );
    assert_eq!(
        cleared_cookie("homepanel_session", ""),
        "homepanel_session=; Max-Age=0; Path=/; SameSite=Lax"
    );
}

#[test]
fn setup_and_status_answers() {
    assert!(setup_required(0));
    assert!(!setup_required(2));
    let status = auth_status(false, Some("admin".to_string()));
    assert!(status.authenticated);
    assert_eq!(status.username, Some("admin".to_string()));
    assert!(!auth_status(true, None).authenticated);
}

#[test]
fn canonicalize_resolves_dots() {
    assert_eq!(canonicalize_like("/a/./b/../c"), "/a/c");
    assert_eq!(canonicalize_like("a/.."), "a/..");
    assert_eq!(canonicalize_like("/.."), "/");
    assert_eq!(canonicalize_like("./x/"), "x");
    assert_eq!(canonicalize_like(""), "");
}

#[test]
fn allowlist_accepts_inside_and_rejects_outside() {
    let allowlist = FileAllowlist { allowed_paths: vec!["/srv".to_string()] };
    assert!(allowlist.is_allowed("/srv"));
    assert!(allowlist.is_allowed("/srv/"));
    assert!(allowlist.is_allowed("/srv/a/../b"));
    assert!(allowlist.is_allowed("/srv/a/../../srv/b"));
    assert!(!allowlist.is_allowed("/srvx"));
    assert!(!allowlist.is_allowed("srv"));
    assert!(!allowlist.is_allowed("/etc/passwd"));
}

#[test]
fn roots_of_allowlist_are_allowed() {
    let allowlist = FileAllowlist {
        allowed_paths: vec!["/home".to_string(), "/srv/../mnt".to_string()],
    };
    assert!(allowlist.is_allowed("/home"));
    assert!(allowlist.is_allowed("/srv/../mnt"));
    assert!(allowlist.is_allowed("/mnt/disk"));
}

#[test]
fn within_roots_rejects_parent_after_root() {
    let roots = vec!["/srv".to_string()];
    assert!(is_within_allowed_roots("/srv/a", &roots));
    assert!(!is_within_allowed_roots("/srv/a/../b", &roots));
    assert!(!is_within_allowed_roots("/", &roots));
}

#[test]
fn parent_is_shown_only_inside_roots() {
    let roots = vec!["/srv".to_string()];
    assert_eq!(resolve_parent_if_allowed("/srv/a", &roots), Some("/srv".to_string()));
    assert_eq!(resolve_parent_if_allowed("/srv/a//b/", &roots), Some("/srv/a".to_string()));
    assert_eq!(resolve_parent_if_allowed("/srv", &roots), None);
    assert_eq!(resolve_parent_if_allowed("/", &roots), None);
}

#[test]
fn component_names_are_checked() {
    assert_eq!(bad_request_text(&validate_component_name("").unwrap_err()), "name is required");
    assert_eq!(bad_request_text(&validate_component_name("a\0b").unwrap_err()), "name is required");
    assert_eq!(
        bad_request_text(&validate_component_name("a/b").unwrap_err()),
        "name must not contain path separators"
    );
    assert_eq!(
        bad_request_text(&validate_component_name("..").unwrap_err()),
        "name must not be a traversal segment"
    );
    assert_eq!(
        bad_request_text(&validate_component_name(".").unwrap_err()),
        "name must not be a traversal segment"
    );
    assert_eq!(validate_component_name("notes.txt").unwrap(), "notes.txt");
    assert_eq!(validate_component_name("a/").unwrap(), "a/");
}

#[test]
fn target_paths_join_base_and_name() {
    assert_eq!(build_target_path("/srv", "x").unwrap(), "/srv/x");
    assert_eq!(build_target_path("/srv/", "x").unwrap(), "/srv/x");
    assert!(build_target_path("/srv", "/etc").is_err());
}

#[test]
fn raw_paths_are_checked() {
    assert_eq!(bad_request_text(&check_requested_path("rel").unwrap_err()), "path must be absolute");
    assert_eq!(
        bad_request_text(&check_requested_path("/a\0").unwrap_err()),
        "path contains an invalid byte"
    );
    assert!(check_requested_path("/ok").is_ok());
    assert!(ensure_absolute("/x").is_ok());
    assert!(ensure_absolute("x").is_err());
}

#[test]
fn text_detection_uses_bytes_and_names() {
    assert!(is_probably_text("/a/README.md", b"hi"));
    assert!(is_probably_text("/a/LICENSE", b"x"));
    assert!(is_probably_text("/etc/nginx.CONF", b"x"));
    assert!(!is_probably_text("/a/x.bin", b"x"));
    assert!(!is_probably_text("/a/.txt", b"x"));
    assert!(!is_probably_text("/a/x.txt", &[0xff, 0xfe]));
    assert!(!is_probably_text("/a/x.txt", &[b'a', 0]));
}

#[test]
fn preview_of_text_and_refusals() {
    let p = preview_content("/a/x.txt", true, 300000, b"hello".to_vec()).unwrap();
    assert_eq!(p.content, "hello");
    assert!(p.truncated);
    assert_eq!(p.size, 300000);
    let small = preview_content("/a/x.txt", true, 5, b"hello".to_vec()).unwrap();
    assert!(!small.truncated);
    assert_eq!(
        bad_request_text(&preview_content("/a", false, 0, Vec::new()).err().unwrap()),
        "preview is only available for files"
    );
    assert_eq!(
        bad_request_text(&preview_content("/a/x.bin", true, 1, b"x".to_vec()).err().unwrap()),
        "preview is only available for text-like files"
    );
}

fn entry(name: &str, kind: FileKind) -> FileEntry {
    FileEntry {
        name: name.to_string(),
        path: format!("/srv/{name}"),
        kind,
        size: 0,
        modified: None,
        readonly: false,
    }
}

#[test]
fn entries_sort_by_kind_then_name_stably() {
    let mut entries = vec![
        entry("b", FileKind::File),
        entry("Zeta", FileKind::Dir),
        entry("A", FileKind::File),
        entry("m", FileKind::Symlink),
        entry("alpha", FileKind::Dir),
        entry("o", FileKind::Other),
        entry("a", FileKind::File),
    ];
    sort_entries(&mut entries);
    let names: Vec<&str> = entries.iter().map(|e| e.name.as_str()).collect();
    assert_eq!(names, vec!["alpha", "Zeta", "m", "A", "a", "b", "o"]);
}

#[test]
fn file_kinds_prefer_symlink() {
    assert_eq!(file_kind(true, true, false), FileKind::Symlink);
    assert_eq!(file_kind(false, true, false), FileKind::Dir);
    assert_eq!(file_kind(false, false, true), FileKind::File);
    assert_eq!(file_kind(false, false, false), FileKind::Other);
}

#[test]
fn download_names_are_quoted_safely() {
    assert_eq!(download_disposition("/srv/a\"b.txt"), "attachment; filename=\"a_b.txt\"");
    assert_eq!(download_disposition("/"), "attachment; filename=\"download.bin\"");
}

#[test]
fn directory_choice_falls_back_to_first_root() {
    let roots = vec!["/srv".to_string(), "/home".to_string()];
    assert_eq!(pick_directory(Some("  "), &roots).unwrap(), "/srv");
    assert_eq!(pick_directory(Some("/x"), &[]).unwrap(), "/x");
    assert_eq!(pick_directory(None, &roots).unwrap(), "/srv");
    assert_eq!(
        bad_request_text(&pick_directory(None, &[]).unwrap_err()),
        "no accessible allowed paths are configured"
    );
}

#[test]
fn error_codes_texts_and_statuses() {
    assert_eq!(ApiError::NotFound.code(), "not_found");
    assert_eq!(ApiError::bad_request("x".to_string()).describe(), "bad request: x");
    assert_eq!(ApiError::message("c", "m".to_string()).code(), "c");
    let io = ApiError::Io(std::io::Error::new(std::io::ErrorKind::AlreadyExists, "exists"));
    assert_eq!(file_status_for(&io, IoKind::AlreadyExists), 409);
    assert_eq!(server_status_for(&io, IoKind::AlreadyExists), 400);
    assert!(io.describe().starts_with("io error: "));
    assert_eq!(file_status_for(&ApiError::Database("d".to_string()), IoKind::Other), 500);
    assert_eq!(server_status_for(&ApiError::Unauthorized, IoKind::Other), 401);
    let body = ApiErrorResponse::from_error(ApiError::Database("d".to_string()));
    assert_eq!(body.error.code, "database_error");
    assert_eq!(body.error.message, "database error: d");
    assert_eq!(homepanel::error::file_error_status(&io), 409);
    assert!(matches!(homepanel::error::resolve_error(std::io::Error::new(std::io::ErrorKind::NotFound, "x")), ApiError::NotFound));
}

#[test]
fn default_config_values() {
    let c = AppConfig::default();
    assert_eq!(c.agent.terminal_scrollback_bytes, 10 * 1024 * 1024);
    assert_eq!(c.auth.session_days, 30);
    assert_eq!(c.files.allowed_paths, vec!["/home", "/srv", "/mnt", "/DATA"]);
    assert_eq!(c.data.database_url, "sqlite:///var/lib/homepanel/homepanel.db");
    assert!(!c.security.allow_remote_terminal);
    assert_eq!(config_candidates(None), vec!["/etc/homepanel/config.toml", "./config.toml"]);
    assert_eq!(config_candidates(Some("/x.toml")), vec!["/x.toml"]);
}

#[test]
fn setup_runs_only_while_required() {
    assert!(setup_check(true).is_ok());
    assert!(matches!(setup_check(false), Err(ApiError::Forbidden)));
}

#[test]
fn login_needs_user_and_matching_password() {
    assert_eq!(login_check(Some("u1".to_string()), true).unwrap(), "u1");
    assert!(matches!(login_check(Some("u1".to_string()), false), Err(ApiError::Unauthorized)));
    assert!(matches!(login_check(None, true), Err(ApiError::Unauthorized)));
    assert!(matches!(login_check(None, false), Err(ApiError::Unauthorized)));
}

#[test]
fn signed_in_user_needs_token_and_session() {
    assert_eq!(require_user(Some("t".to_string()), Some("admin".to_string())).unwrap(), "admin");
    assert!(matches!(require_user(Some("t".to_string()), None), Err(ApiError::Unauthorized)));
    assert!(matches!(require_user(None, None), Err(ApiError::Unauthorized)));
}

#[test]
fn parents_follow_std_paths() {
    assert_eq!(parent_path("/srv/games/world").as_deref(), Some("/srv/games"));
    assert_eq!(parent_path("/srv").as_deref(), Some("/"));
    assert_eq!(parent_path("/"), None);
    assert_eq!(parent_path("name").as_deref(), Some(""));
    assert_eq!(parent_path("a/b/").as_deref(), Some("a"));
}

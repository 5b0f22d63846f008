use homepanel::config::AppConfig;
use homepanel::paths::FileAllowlist;
use homepanel::scrollback::ScrollbackBuffer;
use homepanel::servers::{
    normalize_log_lines, validate_log_type, validate_name, validate_status_type,
    DEFAULT_LOG_LINES, MAX_LOG_LINES,
};
use homepanel::services::{parse_list_units, parse_show_properties, validate_service_name};

#[test]
fn default_bind_is_localhost() {
    assert_eq!(AppConfig::default().server.bind, "127.0.0.1:8080");
}

#[test]
fn keeps_recent_bytes() {
    let mut buffer = ScrollbackBuffer::new(4);
    buffer.append(b"abc");
    buffer.append(b"def");
    assert_eq!(buffer.snapshot(), b"cdef");
}

#[test]
fn clear_works() {
    let mut buffer = ScrollbackBuffer::new(16);
    buffer.append(b"hello");
    buffer.clear();
    assert_eq!(buffer.len(), 0);
}

#[test]
fn allowlist_blocks_parent_escape() {
    let allowlist = FileAllowlist {
        allowed_paths: vec!["/srv".to_string()],
    };
    assert!(allowlist.is_allowed("/srv/minecraft"));
    assert!(!allowlist.is_allowed("/srv/../etc/passwd"));
}

#[test]
fn normalizes_log_limits() {
    assert_eq!(normalize_log_lines(None), DEFAULT_LOG_LINES);
    assert_eq!(normalize_log_lines(Some(0)), 1);
    assert_eq!(normalize_log_lines(Some(100)), 100);
    assert_eq!(normalize_log_lines(Some(5000)), MAX_LOG_LINES);
}

#[test]
fn validates_names() {
    assert!(validate_name("Minecraft").is_ok());
    assert!(validate_name("   ").is_err());
}

#[test]
fn validates_log_type_values() {
    assert_eq!(validate_log_type(Some("file".to_string())).unwrap(), Some("file".to_string()));
    assert!(validate_log_type(Some("bad".to_string())).is_err());
}

#[test]
fn validates_status_type_values() {
    assert_eq!(
        validate_status_type(Some("systemd".to_string())).unwrap(),
        Some("systemd".to_string())
    );
    assert!(validate_status_type(Some("bad".to_string())).is_err());
}

#[test]
fn validates_service_name() {
    assert!(validate_service_name("homepaneld.service").is_ok());
    assert!(validate_service_name("ssh@host.service").is_ok());
    assert!(validate_service_name("bad.service;rm -rf /").is_err());
    assert!(validate_service_name("bad.unit").is_err());
}

#[test]
fn parses_list_units_output() {
    let services = parse_list_units(
        "ssh.service loaded active running OpenBSD Secure Shell server\n\
         homepaneld.service loaded active running HomePanel daemon\n",
    );

    assert_eq!(services.len(), 2);
    assert_eq!(services[0].name, "ssh.service");
    assert_eq!(services[0].description, "OpenBSD Secure Shell server");
    assert_eq!(services[1].name, "homepaneld.service");
}

#[test]
fn parses_service_properties() {
    let service = parse_show_properties(
        "Id=homepaneld.service\n\
         LoadState=loaded\n\
         ActiveState=active\n\
         SubState=running\n\
         UnitFileState=enabled\n\
         Description=HomePanel daemon\n\
         FragmentPath=/usr/lib/systemd/system/homepaneld.service\n\
         MainPID=1234\n\
         MemoryCurrent=54321\n\
         CPUUsageNSec=98765\n",
    );

    assert_eq!(service.name, "homepaneld.service");
    assert_eq!(service.load_state, "loaded");
    assert_eq!(service.main_pid, 1234);
    assert_eq!(service.memory_current, Some(54321));
    assert_eq!(service.cpu_usage_nsec, Some(98765));
}

//! The panel's domain records: terminals, users, settings and audit events.

use vstd::prelude::*;

verus! {

#[verifier::external_type_specification]
#[verifier::external_body]
pub struct ExJsonValue(serde_json::Value);

/// A UTC instant: whole seconds since the Unix epoch and the nanoseconds
/// past that second (below one billion).
#[derive(Clone, Copy, Debug, PartialEq, Eq)]
pub struct Timestamp {
    pub secs: i64,
    pub nanos: u32,
}

/// The identifier of a terminal session.
#[derive(Clone, Debug, PartialEq, Eq, Hash)]
pub struct TerminalId(pub String);

/// What a terminal runs.
#[derive(Clone, Copy, Debug, PartialEq, Eq, Structural)]
pub enum TerminalKind {
    Shell,
    Command,
    GameServer,
    LogViewer,
    DockerExec,
    ServiceConsole,
}

/// Where a terminal is in its life.
#[derive(Clone, Copy, Debug, PartialEq, Eq, Structural)]
pub enum TerminalStatus {
    Starting,
    Running,
    Detached,
    Exited,
    Failed,
}

/// A request to open a terminal.
#[derive(Clone, Debug)]
pub struct TerminalRequest {
    pub name: String,
    pub kind: TerminalKind,
    pub command: String,
    pub cwd: String,
    pub cols: u16,
    pub rows: u16,
    pub env: std::collections::BTreeMap<String, String>,
    pub shell: Option<String>,
    pub auto_restart: bool,
    pub metadata_json: Option<serde_json::Value>,
}

/// Everything the panel records of a terminal.
#[derive(Clone, Debug)]
pub struct TerminalMetadata {
    pub id: TerminalId,
    pub name: String,
    pub kind: TerminalKind,
    pub status: TerminalStatus,
    pub command: String,
    pub cwd: String,
    pub shell: Option<String>,
    pub cols: u16,
    pub rows: u16,
    pub auto_restart: bool,
    pub exit_code: Option<i32>,
    pub created_at: Timestamp,
    pub updated_at: Timestamp,
    pub last_attached_at: Option<Timestamp>,
    pub metadata_json: Option<serde_json::Value>,
}

/// What a terminal list shows of a terminal.
#[derive(Clone, Debug)]
pub struct TerminalSummary {
    pub id: TerminalId,
    pub name: String,
    pub kind: TerminalKind,
    pub status: TerminalStatus,
    pub command: String,
    pub cwd: String,
    pub cols: u16,
    pub rows: u16,
    pub exit_code: Option<i32>,
    pub last_attached_at: Option<Timestamp>,
}

/// The summary of a terminal's record: its fields but the shell, the
/// restart flag, the times and the extra JSON.
pub open spec fn summary_of(v: TerminalMetadata) -> TerminalSummary {
    TerminalSummary {
        id: v.id,
        name: v.name,
        kind: v.kind,
        status: v.status,
        command: v.command,
        cwd: v.cwd,
        cols: v.cols,
        rows: v.rows,
        exit_code: v.exit_code,
        last_attached_at: v.last_attached_at,
    }
}

impl From<TerminalMetadata> for TerminalSummary {
    fn from(value: TerminalMetadata) -> (s: TerminalSummary) {
        TerminalSummary {
            id: value.id,
            name: value.name,
            kind: value.kind,
            status: value.status,
            command: value.command,
            cwd: value.cwd,
            cols: value.cols,
            rows: value.rows,
            exit_code: value.exit_code,
            last_attached_at: value.last_attached_at,
        }
    }
}

impl vstd::std_specs::convert::FromSpecImpl<TerminalMetadata> for TerminalSummary {
    open spec fn obeys_from_spec() -> bool {
        true
    }

    open spec fn from_spec(v: TerminalMetadata) -> TerminalSummary {
        summary_of(v)
    }
}

/// The role of a user.
#[derive(Clone, Copy, Debug, PartialEq, Eq, Structural)]
pub enum UserRole {
    Admin,
    User,
}

/// One stored setting.
pub struct SettingsEntry {
    pub key: String,
    pub value_json: serde_json::Value,
    pub updated_at: Timestamp,
}

/// A place logs can be read from.
pub enum LogSource {
    JournalUnit { unit: String },
    File { path: String },
    Terminal { terminal_id: String },
    DockerContainer { container_id: String },
}

/// An entry of the audit log.
pub struct AuditEvent {
    pub action: String,
    pub target_type: Option<String>,
    pub target_id: Option<String>,
    pub details_json: Option<serde_json::Value>,
    pub created_at: Timestamp,
}

/// The name under which a terminal kind is stored and sent.
pub open spec fn kind_name_spec(k: TerminalKind) -> Seq<char> {
    match k {
        TerminalKind::Shell => "shell"@,
        TerminalKind::Command => "command"@,
        TerminalKind::GameServer => "game_server"@,
        TerminalKind::LogViewer => "log_viewer"@,
        TerminalKind::DockerExec => "docker_exec"@,
        TerminalKind::ServiceConsole => "service_console"@,
    }
}

/// The name under which a terminal status is stored and sent.
pub open spec fn status_name_spec(s: TerminalStatus) -> Seq<char> {
    match s {
        TerminalStatus::Starting => "starting"@,
        TerminalStatus::Running => "running"@,
        TerminalStatus::Detached => "detached"@,
        TerminalStatus::Exited => "exited"@,
        TerminalStatus::Failed => "failed"@,
    }
}

impl TerminalKind {
    /// The snake-case name of this kind.
    pub fn name(&self) -> (s: &'static str)
        ensures
            s@ == kind_name_spec(*self),
    {
        match self {
            TerminalKind::Shell => "shell",
            TerminalKind::Command => "command",
            TerminalKind::GameServer => "game_server",
            TerminalKind::LogViewer => "log_viewer",
            TerminalKind::DockerExec => "docker_exec",
            TerminalKind::ServiceConsole => "service_console",
        }
    }
}

impl TerminalStatus {
    /// The snake-case name of this status.
    pub fn name(&self) -> (s: &'static str)
        ensures
            s@ == status_name_spec(*self),
    {
        match self {
            TerminalStatus::Starting => "starting",
            TerminalStatus::Running => "running",
            TerminalStatus::Detached => "detached",
            TerminalStatus::Exited => "exited",
            TerminalStatus::Failed => "failed",
        }
    }
}

impl TerminalId {
    /// A fresh identifier: `prefix`, a hyphen, then a random UUID.
    pub fn new(prefix: &str) -> (id: TerminalId)
        ensures
            id.0@.len() == prefix@.len() + 37,
            id.0@.subrange(0, prefix@.len() as int) == prefix@,
            id.0@[prefix@.len() as int] == '-',
            crate::auth::uuid_v4_text(id.0@.subrange(prefix@.len() as int + 1, id.0@.len() as int)),
    {
        let u = crate::auth::random_uuid_text();
        let s = crate::text::concat3(prefix, "-", u.as_str());
        proof {
            reveal_strlit("-");
            let v = s@;
            assert(v.subrange(0, prefix@.len() as int) =~= prefix@);
            assert(v.subrange(prefix@.len() as int + 1, v.len() as int) =~= u@);
        }
        TerminalId(s)
    }
}

} // verus!

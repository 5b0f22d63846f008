//! Server cards: validation of what users configure, the status shown for a
//! card, the scripts an action runs and the log lines it shows.

use crate::error::{bad_request_with, io_error_kind, ApiError, IoKind};
use crate::scrollback::keep_last;
use crate::text::{concat2, concat3, has_prefix, trim, trim_end, trim_end_string, trim_string};
use vstd::prelude::*;

verus! {

/// Lines shown when the request names no count.
pub const DEFAULT_LOG_LINES: usize = 200;

/// The most lines a request may ask for.
pub const MAX_LOG_LINES: usize = 1000;

/// Seconds a start, stop or restart script may run.
pub const SCRIPT_TIMEOUT_SECONDS: u64 = 30;

/// The status shown on a card.
pub struct ServerStatusSummary {
    pub state: String,
    pub detail: Option<String>,
}

/// A card as the API shows it.
pub struct ServerRecord {
    pub id: String,
    pub name: String,
    pub description: Option<String>,
    pub working_dir: Option<String>,
    pub start_script: Option<String>,
    pub stop_script: Option<String>,
    pub restart_script: Option<String>,
    pub log_type: Option<String>,
    pub log_path: Option<String>,
    pub log_unit: Option<String>,
    pub status_type: Option<String>,
    pub status_value: Option<String>,
    pub status: ServerStatusSummary,
    pub created_at: String,
    pub updated_at: String,
}

/// The answer listing cards.
pub struct ServerListResponse {
    pub items: Vec<ServerRecord>,
}

/// What running a card's script gave.
pub struct ServerActionResult {
    pub ok: bool,
    pub exit_code: Option<i32>,
    pub stdout: String,
    pub stderr: String,
}

/// The answer carrying a card's log lines.
pub struct ServerLogsResponse {
    pub items: Vec<String>,
}

/// A request to create a card.
pub struct ServerCreateRequest {
    pub name: String,
    pub description: Option<String>,
}

/// A request to change a card; absent fields keep their value.
pub struct ServerUpdateRequest {
    pub name: Option<String>,
    pub description: Option<String>,
    pub working_dir: Option<String>,
    pub start_script: Option<String>,
    pub stop_script: Option<String>,
    pub restart_script: Option<String>,
    pub log_type: Option<String>,
    pub log_path: Option<String>,
    pub log_unit: Option<String>,
    pub status_type: Option<String>,
    pub status_value: Option<String>,
}

/// The query of a log request.
pub struct ServerLogsQuery {
    pub lines: Option<usize>,
}

/// The fields of a card that users configure.
pub struct ServerSettings {
    pub name: String,
    pub description: Option<String>,
    pub working_dir: Option<String>,
    pub start_script: Option<String>,
    pub stop_script: Option<String>,
    pub restart_script: Option<String>,
    pub log_type: Option<String>,
    pub log_path: Option<String>,
    pub log_unit: Option<String>,
    pub status_type: Option<String>,
    pub status_value: Option<String>,
}

/// The text of an optional string.
pub open spec fn opt_view(v: Option<String>) -> Option<Seq<char>> {
    match v {
        Some(s) => Some(s@),
        None => None,
    }
}

/// Optional text trimmed, with blank text read as absent.
pub open spec fn normalized(v: Option<Seq<char>>) -> Option<Seq<char>> {
    match v {
        Some(s) => if trim(s).len() == 0 {
            None
        } else {
            Some(trim(s))
        },
        None => None,
    }
}

/// Trims optional text; blank text becomes `None`.
pub fn normalize_optional_text(value: Option<String>) -> (r: Option<String>)
    ensures
        opt_view(r) == normalized(opt_view(value)),
{
    match value {
        Some(item) => {
            let t = trim_string(item.as_str());
            if t.as_str().is_empty() {
                None
            } else {
                Some(t)
            }
        },
        None => None,
    }
}

/// A card name must hold something besides white space; it is kept trimmed.
pub fn validate_name(name: &str) -> (r: Result<String, ApiError>)
    ensures
        match r {
            Ok(n) => n@ == trim(name@) && n@.len() > 0,
            Err(e) => trim(name@).len() == 0 && bad_request_with(e, "name is required"@),
        },
{
    let t = trim_string(name);
    if t.as_str().is_empty() {
        return Err(ApiError::bad_request("name is required".to_owned()));
    }
    Ok(t)
}

/// The log types a card may use.
pub open spec fn is_log_type(s: Seq<char>) -> bool {
    s == "file"@ || s == "journal"@
}

/// The status checks a card may use.
pub open spec fn is_status_type(s: Seq<char>) -> bool {
    s == "manual"@ || s == "process"@ || s == "systemd"@ || s == "tcp"@ || s == "http"@
}

/// The log types a card accepts are exactly `file` and `journal`: a log
/// type whose trimmed text is one of them is kept, trimmed; any other
/// non-blank text is refused.
pub proof fn lemma_log_types_accepted(s: Seq<char>)
    ensures
        (trim(s) == "file"@ || trim(s) == "journal"@) ==> normalized(Some(s)) == Some(trim(s))
            && is_log_type(trim(s)),
        is_log_type(trim(s)) ==> (trim(s) == "file"@ || trim(s) == "journal"@),
{
    reveal_strlit("file");
    reveal_strlit("journal");
}

/// The status checks a card accepts are exactly `manual`, `process`,
/// `systemd`, `tcp` and `http`: a status type whose trimmed text is one of
/// them is kept, trimmed; any other non-blank text is refused.
pub proof fn lemma_status_types_accepted(s: Seq<char>)
    ensures
        (trim(s) == "manual"@ || trim(s) == "process"@ || trim(s) == "systemd"@ || trim(s)
            == "tcp"@ || trim(s) == "http"@) ==> normalized(Some(s)) == Some(trim(s))
            && is_status_type(trim(s)),
        is_status_type(trim(s)) ==> (trim(s) == "manual"@ || trim(s) == "process"@ || trim(s)
            == "systemd"@ || trim(s) == "tcp"@ || trim(s) == "http"@),
{
    reveal_strlit("manual");
    reveal_strlit("process");
    reveal_strlit("systemd");
    reveal_strlit("tcp");
    reveal_strlit("http");
}

/// Whether a string equals a literal.
fn str_is(s: &String, lit: &str) -> (r: bool)
    ensures
        r == (s@ == lit@),
{
    let l = lit.to_owned();
    *s == l
}

/// Accepts an absent or blank log type, `file` or `journal` (trimmed).
pub fn validate_log_type(value: Option<String>) -> (r: Result<Option<String>, ApiError>)
    ensures
        match normalized(opt_view(value)) {
            None => r matches Ok(None),
            Some(t) => if is_log_type(t) {
                (r matches Ok(Some(v)) && v@ == t)
            } else {
                (r matches Err(e) && bad_request_with(e, "unsupported log type `"@ + t + "`"@))
            },
        },
{
    let value = normalize_optional_text(value);
    match value {
        None => Ok(None),
        Some(v) => {
            if str_is(&v, "file") || str_is(&v, "journal") {
                Ok(Some(v))
            } else {
                Err(ApiError::bad_request(concat3("unsupported log type `", v.as_str(), "`")))
            }
        },
    }
}

/// Accepts an absent or blank status type, or one of `manual`, `process`,
/// `systemd`, `tcp` and `http` (trimmed).
pub fn validate_status_type(value: Option<String>) -> (r: Result<Option<String>, ApiError>)
    ensures
        match normalized(opt_view(value)) {
            None => r matches Ok(None),
            Some(t) => if is_status_type(t) {
                (r matches Ok(Some(v)) && v@ == t)
            } else {
                (r matches Err(e) && bad_request_with(e, "unsupported status type `"@ + t + "`"@))
            },
        },
{
    let value = normalize_optional_text(value);
    match value {
        None => Ok(None),
        Some(v) => {
            if str_is(&v, "manual") || str_is(&v, "process") || str_is(&v, "systemd") || str_is(
                &v,
                "tcp",
            ) || str_is(&v, "http") {
                Ok(Some(v))
            } else {
                Err(ApiError::bad_request(concat3("unsupported status type `", v.as_str(), "`")))
            }
        },
    }
}

/// The number of log lines to show: the request's count, or 200, kept
/// between 1 and 1000.
pub fn normalize_log_lines(requested: Option<usize>) -> (n: usize)
    ensures
        n == match requested {
            None => DEFAULT_LOG_LINES,
            Some(k) => if k < 1 {
                1
            } else if k > MAX_LOG_LINES {
                MAX_LOG_LINES
            } else {
                k
            },
        },
        1 <= n <= MAX_LOG_LINES,
{
    let k = match requested {
        Some(k) => k,
        None => DEFAULT_LOG_LINES,
    };
    if k < 1 {
        1
    } else if k > MAX_LOG_LINES {
        MAX_LOG_LINES
    } else {
        k
    }
}

/// The non-empty texts among `a` and `b`, joined by a line feed.
pub open spec fn join_nonempty(a: Seq<char>, b: Seq<char>) -> Seq<char> {
    if a.len() == 0 {
        b
    } else if b.len() == 0 {
        a
    } else {
        a + "\n"@ + b
    }
}

/// The outcome of a stop script followed by a start script: ok only if both
/// were, the start script's exit code when it has one, and the non-empty
/// outputs joined by line feeds.
pub fn merge_action_results(first: ServerActionResult, second: ServerActionResult) -> (r:
    ServerActionResult)
    ensures
        r.ok == (first.ok && second.ok),
        r.exit_code == match second.exit_code {
            Some(c) => Some(c),
            None => first.exit_code,
        },
        r.stdout@ == join_nonempty(first.stdout@, second.stdout@),
        r.stderr@ == join_nonempty(first.stderr@, second.stderr@),
{
    let exit_code = match second.exit_code {
        Some(c) => Some(c),
        None => first.exit_code,
    };
    let stdout = join_two(first.stdout, second.stdout);
    let stderr = join_two(first.stderr, second.stderr);
    ServerActionResult { ok: first.ok && second.ok, exit_code, stdout, stderr }
}

/// The non-empty texts among `a` and `b`, joined by a line feed.
fn join_two(a: String, b: String) -> (s: String)
    ensures
        s@ == join_nonempty(a@, b@),
{
    if a.as_str().is_empty() {
        b
    } else if b.as_str().is_empty() {
        a
    } else {
        concat3(a.as_str(), "\n", b.as_str())
    }
}

/// The lines a log view keeps of a file: the last `limit` of them, or all
/// of them when `limit` is 0.
pub open spec fn tail_of(lines: Seq<Seq<char>>, limit: nat) -> Seq<Seq<char>> {
    if limit == 0 {
        lines
    } else {
        keep_last(lines, limit)
    }
}

/// Keeps the last `limit` lines in a sliding window, in file order, as the
/// log view reads a file; a window of 0 never drops a line.
pub fn tail_lines(lines: Vec<String>, limit: usize) -> (out: Vec<String>)
    ensures
        out@.map_values(|s: String| s@) == tail_of(lines@.map_values(|s: String| s@), limit as nat),
{
    let n: usize = lines.len();
    if limit == 0 || n <= limit {
        return lines;
    }
    let mut lines = lines;
    let mut out: Vec<String> = Vec::new();
    let start: usize = n - limit;
    let ghost all = lines@;
    let mut rest = lines.split_off(start);
    let ghost kept = rest@;
    assert(kept =~= all.subrange(start as int, n as int));
    assert(kept.map_values(|s: String| s@) =~= all.map_values(|s: String| s@).subrange(
        start as int,
        n as int,
    ));
    rest
}

/// What a card's status check needs next.
pub enum StatusProbe {
    /// Ask `systemctl` for the unit's active state.
    Systemctl { unit: String },
    /// Ask `pgrep -x` whether the process runs.
    Pgrep { process: String },
    /// The status is known without asking anything.
    Known { status: ServerStatusSummary },
}

/// What a command run gave: its exit, or the error that kept it from running.
pub enum CommandOutcome {
    Exited { success: bool, code: Option<i32>, status_text: String, stdout: String },
    SpawnFailed { message: String },
}

/// Whether `s` shows `state` with detail `detail`.
pub open spec fn shows(s: ServerStatusSummary, state: Seq<char>, detail: Seq<char>) -> bool {
    s.state@ == state && opt_view(s.detail) == Some(detail)
}

/// Whether `p` is a known status showing `state` with detail `detail`.
pub open spec fn known(p: StatusProbe, state: Seq<char>, detail: Seq<char>) -> bool {
    match p {
        StatusProbe::Known { status } => shows(status, state, detail),
        _ => false,
    }
}

/// A status with state `unknown` and the given detail.
fn unknown_status(detail: &str) -> (s: ServerStatusSummary)
    ensures
        shows(s, "unknown"@, detail@),
{
    ServerStatusSummary { state: "unknown".to_owned(), detail: Some(detail.to_owned()) }
}

/// The configured value when it holds something besides white space.
pub open spec fn configured(v: Option<Seq<char>>) -> Option<Seq<char>> {
    match v {
        Some(s) => if trim(s).len() == 0 {
            None
        } else {
            Some(s)
        },
        None => None,
    }
}

/// Decides how to find a card's status: `systemd` asks systemctl about the
/// configured unit, `process` asks pgrep about the configured name, `tcp`
/// and `http` are not implemented, and anything else (manual by default)
/// is shown as manual.
pub fn status_probe(status_type: &Option<String>, status_value: &Option<String>) -> (p: StatusProbe)
    ensures
        ({
            let t = match status_type {
                Some(s) => s@,
                None => "manual"@,
            };
            let v = configured(opt_view(*status_value));
            if t == "systemd"@ {
                match v {
                    Some(u) => (p matches StatusProbe::Systemctl { unit } && unit@ == u),
                    None => known(p, "unknown"@, "No systemd unit configured"@),
                }
            } else if t == "process"@ {
                match v {
                    Some(u) => (p matches StatusProbe::Pgrep { process } && process@ == u),
                    None => known(p, "unknown"@, "No process name configured"@),
                }
            } else if t == "tcp"@ || t == "http"@ {
                known(p, "unknown"@, "This status check is not implemented yet"@)
            } else {
                known(p, "unknown"@, "Manual status"@)
            }
        }),
{
    let t = match status_type {
        Some(s) => s.clone(),
        None => "manual".to_owned(),
    };
    let v: Option<String> = match status_value {
        Some(s) => {
            let trimmed = trim_string(s.as_str());
            if trimmed.as_str().is_empty() {
                None
            } else {
                Some(s.clone())
            }
        },
        None => None,
    };
    if str_is(&t, "systemd") {
        match v {
            Some(unit) => StatusProbe::Systemctl { unit },
            None => StatusProbe::Known { status: unknown_status("No systemd unit configured") },
        }
    } else if str_is(&t, "process") {
        match v {
            Some(process) => StatusProbe::Pgrep { process },
            None => StatusProbe::Known { status: unknown_status("No process name configured") },
        }
    } else if str_is(&t, "tcp") || str_is(&t, "http") {
        StatusProbe::Known { status: unknown_status("This status check is not implemented yet") }
    } else {
        StatusProbe::Known { status: unknown_status("Manual status") }
    }
}

/// The status from `systemctl show --property=ActiveState --value`: a unit
/// whose trimmed state is `active` runs, any other state is stopped, and a
/// failed or unlaunched command leaves the status unknown.
pub fn systemd_status(outcome: CommandOutcome) -> (s: ServerStatusSummary)
    ensures
        match outcome {
            CommandOutcome::Exited { success, status_text, stdout, .. } => if success {
                shows(
                    s,
                    if trim(stdout@) == "active"@ {
                        "running"@
                    } else {
                        "stopped"@
                    },
                    trim(stdout@),
                )
            } else {
                shows(s, "unknown"@, "systemctl exited with status "@ + status_text@)
            },
            CommandOutcome::SpawnFailed { message } => shows(s, "unknown"@, message@),
        },
{
    match outcome {
        CommandOutcome::Exited { success, status_text, stdout, .. } => {
            if success {
                let active_state = trim_string(stdout.as_str());
                let state = if str_is(&active_state, "active") {
                    "running".to_owned()
                } else {
                    "stopped".to_owned()
                };
                ServerStatusSummary { state, detail: Some(active_state) }
            } else {
                ServerStatusSummary {
                    state: "unknown".to_owned(),
                    detail: Some(concat2("systemctl exited with status ", status_text.as_str())),
                }
            }
        },
        CommandOutcome::SpawnFailed { message } => ServerStatusSummary {
            state: "unknown".to_owned(),
            detail: Some(message),
        },
    }
}

/// The status from `pgrep -x`: a match runs, exit code 1 means stopped, any
/// other exit or a command that did not launch leaves it unknown.
pub fn process_status(process: &str, outcome: CommandOutcome) -> (s: ServerStatusSummary)
    ensures
        match outcome {
            CommandOutcome::Exited { success, code, status_text, .. } => if success {
                shows(s, "running"@, process@)
            } else if code == Some(1i32) {
                shows(s, "stopped"@, process@)
            } else {
                shows(s, "unknown"@, "pgrep exited with status "@ + status_text@)
            },
            CommandOutcome::SpawnFailed { message } => shows(s, "unknown"@, message@),
        },
{
    match outcome {
        CommandOutcome::Exited { success, code, status_text, .. } => {
            if success {
                ServerStatusSummary { state: "running".to_owned(), detail: Some(process.to_owned()) }
            } else if code == Some(1i32) {
                ServerStatusSummary { state: "stopped".to_owned(), detail: Some(process.to_owned()) }
            } else {
                ServerStatusSummary {
                    state: "unknown".to_owned(),
                    detail: Some(concat2("pgrep exited with status ", status_text.as_str())),
                }
            }
        },
        CommandOutcome::SpawnFailed { message } => ServerStatusSummary {
            state: "unknown".to_owned(),
            detail: Some(message),
        },
    }
}

/// A changed field: the request's value when it gives one, else the current
/// one, then trimmed with blank read as absent.
pub open spec fn updated_text(body: Option<Seq<char>>, current: Option<Seq<char>>) -> Option<
    Seq<char>,
> {
    match body {
        Some(v) => normalized(Some(v)),
        None => normalized(current),
    }
}

/// A changed type field: the validated request value when it gives a
/// non-blank one, else the current value unchanged.
pub open spec fn updated_type(body: Option<Seq<char>>, current: Option<Seq<char>>) -> Option<
    Seq<char>,
> {
    match normalized(body) {
        Some(t) => Some(t),
        None => current,
    }
}

/// Merges one optional field.
fn merge_text(body: Option<String>, current: &Option<String>) -> (r: Option<String>)
    ensures
        opt_view(r) == updated_text(opt_view(body), opt_view(*current)),
{
    match body {
        Some(v) => normalize_optional_text(Some(v)),
        None => normalize_optional_text(current.clone()),
    }
}

/// Applies a change request to a card. The name, when given, must not be
/// blank; the log and status types, when given and not blank, must be
/// supported ones; these are checked in that order and the first failure
/// is returned. Every other field takes the request's value when it gives
/// one, trimmed, with blank text clearing the field.
pub fn apply_server_update(current: &ServerSettings, body: ServerUpdateRequest) -> (r: Result<
    ServerSettings,
    ApiError,
>)
    ensures
        ({
            let name_bad = (body.name matches Some(n) && trim(n@).len() == 0);
            let log_bad = (normalized(opt_view(body.log_type)) matches Some(t) && !is_log_type(t));
            let status_bad = (normalized(opt_view(body.status_type)) matches Some(t)
                && !is_status_type(t));
            match r {
                Ok(s) => {
                    &&& !name_bad && !log_bad && !status_bad
                    &&& s.name@ == match body.name {
                        Some(n) => trim(n@),
                        None => current.name@,
                    }
                    &&& opt_view(s.description) == updated_text(
                        opt_view(body.description),
                        opt_view(current.description),
                    )
                    &&& opt_view(s.working_dir) == updated_text(
                        opt_view(body.working_dir),
                        opt_view(current.working_dir),
                    )
                    &&& opt_view(s.start_script) == updated_text(
                        opt_view(body.start_script),
                        opt_view(current.start_script),
                    )
                    &&& opt_view(s.stop_script) == updated_text(
                        opt_view(body.stop_script),
                        opt_view(current.stop_script),
                    )
                    &&& opt_view(s.restart_script) == updated_text(
                        opt_view(body.restart_script),
                        opt_view(current.restart_script),
                    )
                    &&& opt_view(s.log_type) == updated_type(
                        opt_view(body.log_type),
                        opt_view(current.log_type),
                    )
                    &&& opt_view(s.log_path) == updated_text(
                        opt_view(body.log_path),
                        opt_view(current.log_path),
                    )
                    &&& opt_view(s.log_unit) == updated_text(
                        opt_view(body.log_unit),
                        opt_view(current.log_unit),
                    )
                    &&& opt_view(s.status_type) == updated_type(
                        opt_view(body.status_type),
                        opt_view(current.status_type),
                    )
                    &&& opt_view(s.status_value) == updated_text(
                        opt_view(body.status_value),
                        opt_view(current.status_value),
                    )
                },
                Err(e) => {
                    &&& (name_bad || log_bad || status_bad)
                    &&& e is BadRequest
                    &&& name_bad ==> bad_request_with(e, "name is required"@)
                    &&& !name_bad && log_bad ==> bad_request_with(
                        e,
                        "unsupported log type `"@ + normalized(opt_view(body.log_type))->0 + "`"@,
                    )
                    &&& !name_bad && !log_bad ==> bad_request_with(
                        e,
                        "unsupported status type `"@ + normalized(opt_view(body.status_type))->0
                            + "`"@,
                    )
                },
            }
        }),
{
    let name = match body.name {
        Some(value) => match validate_name(value.as_str()) {
            Ok(n) => n,
            Err(e) => return Err(e),
        },
        None => current.name.clone(),
    };
    let log_type = match validate_log_type(body.log_type) {
        Ok(Some(v)) => Some(v),
        Ok(None) => current.log_type.clone(),
        Err(e) => return Err(e),
    };
    let status_type = match validate_status_type(body.status_type) {
        Ok(Some(v)) => Some(v),
        Ok(None) => current.status_type.clone(),
        Err(e) => return Err(e),
    };
    Ok(ServerSettings {
        name,
        description: merge_text(body.description, &current.description),
        working_dir: merge_text(body.working_dir, &current.working_dir),
        start_script: merge_text(body.start_script, &current.start_script),
        stop_script: merge_text(body.stop_script, &current.stop_script),
        restart_script: merge_text(body.restart_script, &current.restart_script),
        log_type,
        log_path: merge_text(body.log_path, &current.log_path),
        log_unit: merge_text(body.log_unit, &current.log_unit),
        status_type,
        status_value: merge_text(body.status_value, &current.status_value),
    })
}


/// The scripts a card action runs.
pub enum ActionPlan {
    /// Run one script, named by the label in messages.
    Run { script: String, label: &'static str },
    /// Run the stop script, and the start script only if the stop script
    /// succeeded.
    StopThenStart { stop: String, start: String },
}

/// Whether `p` runs the one script `script` under `label`.
pub open spec fn runs(p: ActionPlan, script: Seq<char>, label: Seq<char>) -> bool {
    match p {
        ActionPlan::Run { script: s, label: l } => s@ == script && l@ == label,
        _ => false,
    }
}

/// Picks the scripts for `start`, `stop` or `restart`. A restart without a
/// restart script stops and then starts, which needs both scripts.
pub fn plan_server_action(settings: &ServerSettings, action: &str) -> (r: Result<
    ActionPlan,
    ApiError,
>)
    ensures
        action@ == "start"@ ==> match settings.start_script {
            Some(s) => (r matches Ok(p) && runs(p, s@, "start"@)),
            None => (r matches Err(e) && bad_request_with(e, "start script is not configured"@)),
        },
        action@ == "stop"@ ==> match settings.stop_script {
            Some(s) => (r matches Ok(p) && runs(p, s@, "stop"@)),
            None => (r matches Err(e) && bad_request_with(e, "stop script is not configured"@)),
        },
        action@ == "restart"@ ==> match settings.restart_script {
            Some(s) => (r matches Ok(p) && runs(p, s@, "restart"@)),
            None => match (settings.stop_script, settings.start_script) {
                (Some(stop), Some(start)) => (r matches Ok(ActionPlan::StopThenStart { stop: a, start: b })
                    && a@ == stop@ && b@ == start@),
                _ => (r matches Err(e) && bad_request_with(e, "restart script is not configured"@)),
            },
        },
        action@ != "start"@ && action@ != "stop"@ && action@ != "restart"@ ==> (r matches Err(e)
            && bad_request_with(e, "unsupported action"@)),
{
    proof {
        reveal_strlit("start");
        reveal_strlit("stop");
        reveal_strlit("restart");
        assert("start"@.len() == 5 && "stop"@.len() == 4 && "restart"@.len() == 7);
        assert("start"@ != "stop"@);
        assert("start"@ != "restart"@);
        assert("stop"@ != "restart"@);
    }
    let a = action.to_owned();
    if str_is(&a, "start") {
        match &settings.start_script {
            Some(s) => Ok(ActionPlan::Run { script: s.clone(), label: "start" }),
            None => Err(ApiError::bad_request("start script is not configured".to_owned())),
        }
    } else if str_is(&a, "stop") {
        match &settings.stop_script {
            Some(s) => Ok(ActionPlan::Run { script: s.clone(), label: "stop" }),
            None => Err(ApiError::bad_request("stop script is not configured".to_owned())),
        }
    } else if str_is(&a, "restart") {
        match &settings.restart_script {
            Some(s) => Ok(ActionPlan::Run { script: s.clone(), label: "restart" }),
            None => match (&settings.stop_script, &settings.start_script) {
                (Some(stop), Some(start)) => Ok(
                    ActionPlan::StopThenStart { stop: stop.clone(), start: start.clone() },
                ),
                _ => Err(ApiError::bad_request("restart script is not configured".to_owned())),
            },
        }
    } else {
        Err(ApiError::bad_request("unsupported action".to_owned()))
    }
}

/// The result of a stop-then-start restart: the stop result alone when the
/// start script did not run, else both merged.
pub fn restart_result(stop: ServerActionResult, start: Option<ServerActionResult>) -> (r:
    ServerActionResult)
    ensures
        match start {
            None => r == stop,
            Some(st) => r.ok == (stop.ok && st.ok) && r.stdout@ == join_nonempty(
                stop.stdout@,
                st.stdout@,
            ) && r.stderr@ == join_nonempty(stop.stderr@, st.stderr@) && r.exit_code == match st.exit_code {
                Some(c) => Some(c),
                None => stop.exit_code,
            },
        },
{
    match start {
        None => stop,
        Some(st) => merge_action_results(stop, st),
    }
}

/// Whether the start script of a restart runs after the stop script gave
/// `stop`: only when it succeeded.
pub fn restart_continues(stop: &ServerActionResult) -> (go: bool)
    ensures
        go == stop.ok,
{
    stop.ok
}

/// The outcome of a finished script: its success, its exit code and its
/// outputs without trailing white space.
pub fn script_result(success: bool, exit_code: Option<i32>, stdout: &str, stderr: &str) -> (r:
    ServerActionResult)
    ensures
        r.ok == success,
        r.exit_code == exit_code,
        r.stdout@ == trim_end(stdout@),
        r.stderr@ == trim_end(stderr@),
{
    ServerActionResult {
        ok: success,
        exit_code,
        stdout: trim_end_string(stdout),
        stderr: trim_end_string(stderr),
    }
}

/// The error for a script that ran past the time limit.
pub fn script_timeout_error(action: &str) -> (e: ApiError)
    ensures
        e matches ApiError::Message { code, message } && code@ == "script_timeout"@ && message@
            == action@ + " script timed out after 30 seconds"@,
{
    ApiError::message("script_timeout", concat2(action, " script timed out after 30 seconds"))
}

/// Whether `p` is an absolute path, one that begins at the root.
pub open spec fn absolute(p: Seq<char>) -> bool {
    p.len() > 0 && p[0] == '/'
}

/// Whether `p` begins at the root.
pub fn is_absolute_path(p: &str) -> (b: bool)
    ensures
        b == absolute(p@),
{
    let c = crate::text::chars_of(p);
    c.len() > 0 && c[0] == '/'
}

/// Refuses a configured path that is not absolute, naming it by `label`.
pub fn require_absolute(path: &str, label: &str) -> (r: Result<(), ApiError>)
    ensures
        r is Ok <==> absolute(path@),
        !absolute(path@) ==> (r matches Err(e) && bad_request_with(e, label@ + " must be absolute"@)),
{
    if is_absolute_path(path) {
        Ok(())
    } else {
        Err(ApiError::bad_request(concat2(label, " must be absolute")))
    }
}

/// The error for a configured path that does not exist.
pub fn missing_path_error(label: &str, path: &str) -> (e: ApiError)
    ensures
        bad_request_with(e, label@ + " does not exist: "@ + path@),
{
    ApiError::bad_request(concat3(label, " does not exist: ", path))
}

/// The error for a configured path that could not be looked at, by the
/// kind of I/O failure: a missing path gives `missing`, a denied one is
/// forbidden, and any other failure is passed on.
pub fn path_error_for(kind: IoKind, err: std::io::Error, missing: ApiError) -> (e: ApiError)
    ensures
        match kind {
            IoKind::NotFound => e == missing,
            IoKind::PermissionDenied => e is Forbidden,
            _ => e == ApiError::Io(err),
        },
{
    match kind {
        IoKind::NotFound => missing,
        IoKind::PermissionDenied => ApiError::Forbidden,
        _ => ApiError::Io(err),
    }
}

/// The error for a configured path that could not be looked at.
pub fn path_error(err: std::io::Error, missing: ApiError) -> (e: ApiError)
    ensures
        e == missing || e is Forbidden || e == ApiError::Io(err),
{
    let kind = io_error_kind(&err);
    path_error_for(kind, err, missing)
}

/// Accepts a script that is a regular file with an execute bit set in
/// `mode`.
pub fn check_script_file(label: &str, path: &str, is_file: bool, mode: u32) -> (r: Result<
    (),
    ApiError,
>)
    ensures
        r is Ok <==> (is_file && mode & 0o111 != 0),
        !is_file ==> (r matches Err(e) && bad_request_with(
            e,
            label@ + " must point to a file: "@ + path@,
        )),
        is_file && mode & 0o111 == 0 ==> (r matches Err(e) && bad_request_with(
            e,
            label@ + " is not executable: "@ + path@,
        )),
{
    if !is_file {
        return Err(ApiError::bad_request(concat3(label, " must point to a file: ", path)));
    }
    if mode & 0o111 == 0 {
        return Err(ApiError::bad_request(concat3(label, " is not executable: ", path)));
    }
    Ok(())
}

/// Accepts a working directory that is a directory.
pub fn check_directory(label: &str, path: &str, is_dir: bool) -> (r: Result<(), ApiError>)
    ensures
        r is Ok <==> is_dir,
        !is_dir ==> (r matches Err(e) && bad_request_with(
            e,
            label@ + " must point to a directory: "@ + path@,
        )),
{
    if is_dir {
        Ok(())
    } else {
        Err(ApiError::bad_request(concat3(label, " must point to a directory: ", path)))
    }
}

/// The text of a failed command: its trimmed error output, or, when that
/// is empty, the program and its exit status.
pub fn failure_message(program: &str, status_text: &str, stderr: &str) -> (m: String)
    ensures
        m@ == if trim(stderr@).len() == 0 {
            program@ + " exited with status "@ + status_text@
        } else {
            trim(stderr@)
        },
{
    let t = trim_string(stderr);
    if t.as_str().is_empty() {
        concat3(program, " exited with status ", status_text)
    } else {
        t
    }
}

/// Where a card's log lines come from.
pub enum LogPlan {
    File { path: String },
    Journal { unit: String },
    Nothing,
}

/// Picks the log source of a card: a file for log type `file`, the journal
/// of a unit for `journal`, nothing otherwise.
pub fn plan_logs(settings: &ServerSettings) -> (r: Result<LogPlan, ApiError>)
    ensures
        match opt_view(settings.log_type) {
            Some(t) => if t == "file"@ {
                match settings.log_path {
                    Some(p) => (r matches Ok(LogPlan::File { path }) && path@ == p@),
                    None => (r matches Err(e) && bad_request_with(
                        e,
                        "log file path is not configured"@,
                    )),
                }
            } else if t == "journal"@ {
                match settings.log_unit {
                    Some(u) => (r matches Ok(LogPlan::Journal { unit }) && unit@ == u@),
                    None => (r matches Err(e) && bad_request_with(
                        e,
                        "journal unit is not configured"@,
                    )),
                }
            } else {
                r matches Ok(LogPlan::Nothing)
            },
            None => r matches Ok(LogPlan::Nothing),
        },
{
    match &settings.log_type {
        Some(t) => {
            if str_is(t, "file") {
                match &settings.log_path {
                    Some(p) => Ok(LogPlan::File { path: p.clone() }),
                    None => Err(ApiError::bad_request("log file path is not configured".to_owned())),
                }
            } else if str_is(t, "journal") {
                match &settings.log_unit {
                    Some(u) => Ok(LogPlan::Journal { unit: u.clone() }),
                    None => Err(ApiError::bad_request("journal unit is not configured".to_owned())),
                }
            } else {
                Ok(LogPlan::Nothing)
            }
        },
        None => Ok(LogPlan::Nothing),
    }
}

/// Accepts a log file path that is absolute.
pub fn check_log_path(path: &str) -> (r: Result<(), ApiError>)
    ensures
        r is Ok <==> absolute(path@),
        !absolute(path@) ==> (r matches Err(e) && bad_request_with(
            e,
            "log file path must be absolute"@,
        )),
{
    if is_absolute_path(path) {
        Ok(())
    } else {
        Err(ApiError::bad_request("log file path must be absolute".to_owned()))
    }
}

/// The error for a log file that does not exist.
pub fn missing_log_file_error(path: &str) -> (e: ApiError)
    ensures
        bad_request_with(e, "log file does not exist: "@ + path@),
{
    ApiError::bad_request(concat2("log file does not exist: ", path))
}

/// Accepts a log file path that names a regular file.
pub fn check_log_file(path: &str, is_file: bool) -> (r: Result<(), ApiError>)
    ensures
        r is Ok <==> is_file,
        !is_file ==> (r matches Err(e) && bad_request_with(
            e,
            "log file path must point to a file: "@ + path@,
        )),
{
    if is_file {
        Ok(())
    } else {
        Err(ApiError::bad_request(concat2("log file path must point to a file: ", path)))
    }
}

/// A new card's name and description: the name must not be blank and is
/// kept trimmed; the description is trimmed, blank read as absent.
pub fn validate_create(body: ServerCreateRequest) -> (r: Result<(String, Option<String>), ApiError>)
    ensures
        match r {
            Ok((n, d)) => n@ == trim(body.name@) && n@.len() > 0 && opt_view(d) == normalized(
                opt_view(body.description),
            ),
            Err(e) => trim(body.name@).len() == 0 && bad_request_with(e, "name is required"@),
        },
{
    let name = match validate_name(body.name.as_str()) {
        Ok(n) => n,
        Err(e) => return Err(e),
    };
    Ok((name, normalize_optional_text(body.description)))
}

/// A card as the API shows it, from its stored fields and its status.
pub fn server_record(
    id: String,
    settings: ServerSettings,
    status: ServerStatusSummary,
    created_at: String,
    updated_at: String,
) -> (r: ServerRecord)
    ensures
        r.id == id,
        r.name == settings.name,
        r.description == settings.description,
        r.working_dir == settings.working_dir,
        r.start_script == settings.start_script,
        r.stop_script == settings.stop_script,
        r.restart_script == settings.restart_script,
        r.log_type == settings.log_type,
        r.log_path == settings.log_path,
        r.log_unit == settings.log_unit,
        r.status_type == settings.status_type,
        r.status_value == settings.status_value,
        r.status == status,
        r.created_at == created_at,
        r.updated_at == updated_at,
{
    ServerRecord {
        id,
        name: settings.name,
        description: settings.description,
        working_dir: settings.working_dir,
        start_script: settings.start_script,
        stop_script: settings.stop_script,
        restart_script: settings.restart_script,
        log_type: settings.log_type,
        log_path: settings.log_path,
        log_unit: settings.log_unit,
        status_type: settings.status_type,
        status_value: settings.status_value,
        status,
        created_at,
        updated_at,
    }
}

} // verus!

verus! {

/// Normalizing optional text twice gives what normalizing once gives.
pub proof fn lemma_normalize_idempotent(v: Option<Seq<char>>)
    ensures
        normalized(normalized(v)) == normalized(v),
{
    match v {
        Some(s) => {
            crate::text::lemma_trim_idempotent(s);
        },
        None => {},
    }
}


/// Sending the same change request twice leaves a card as sending it once
/// did: each text field and each type field reaches a fixed point after one
/// application (the name, when given, is the request's trimmed name both
/// times).
pub proof fn lemma_update_idempotent(body: Option<Seq<char>>, current: Option<Seq<char>>)
    ensures
        updated_text(body, updated_text(body, current)) == updated_text(body, current),
        updated_type(body, updated_type(body, current)) == updated_type(body, current),
{
    lemma_normalize_idempotent(current);
}

} // verus!

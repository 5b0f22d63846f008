//! The life of a terminal session: its record as it starts, is attached to,
//! produces output and exits, and the decisions the session manager and the
//! WebSocket bridge take on each event.

use crate::error::ApiError;
use crate::protocol::{base64_encode, base64_of, ClientTerminalMessage, ServerTerminalMessage};
use crate::types::{TerminalId, TerminalKind, TerminalMetadata, TerminalStatus, Timestamp};
use crate::scrollback::keep_last;
use vstd::prelude::*;
use vstd::string::*;

verus! {

/// Whether a terminal in this status can be attached to: any but an exited
/// or failed one.
pub open spec fn attachable(s: TerminalStatus) -> bool {
    s != TerminalStatus::Exited && s != TerminalStatus::Failed
}

/// Whether a terminal in this status can be attached to.
pub fn is_attachable(status: TerminalStatus) -> (b: bool)
    ensures
        b == attachable(status),
{
    match status {
        TerminalStatus::Exited | TerminalStatus::Failed => false,
        _ => true,
    }
}

/// The record of a terminal that was just spawned: starting, not exited,
/// never attached.
pub fn initial_metadata(
    id: TerminalId,
    name: String,
    kind: TerminalKind,
    command: String,
    cwd: String,
    shell: Option<String>,
    cols: u16,
    rows: u16,
    auto_restart: bool,
    metadata_json: Option<serde_json::Value>,
    created_at: Timestamp,
    updated_at: Timestamp,
) -> (m: TerminalMetadata)
    ensures
        m == (TerminalMetadata {
            id,
            name,
            kind,
            status: TerminalStatus::Starting,
            command,
            cwd,
            shell,
            cols,
            rows,
            auto_restart,
            exit_code: None,
            created_at,
            updated_at,
            last_attached_at: None,
            metadata_json,
        }),
{
    TerminalMetadata {
        id,
        name,
        kind,
        status: TerminalStatus::Starting,
        command,
        cwd,
        shell,
        cols,
        rows,
        auto_restart,
        exit_code: None,
        created_at,
        updated_at,
        last_attached_at: None,
        metadata_json,
    }
}

/// The program a terminal runs its command with: the configured shell, or
/// `/bin/bash`.
pub fn shell_program(shell: &Option<String>) -> (p: String)
    ensures
        p@ == match shell {
            Some(s) => s@,
            None => "/bin/bash"@,
        },
{
    match shell {
        Some(s) => s.clone(),
        None => "/bin/bash".to_owned(),
    }
}

/// The arguments the shell gets: `-lc` and the command.
pub fn shell_args(command: &str) -> (args: Vec<String>)
    ensures
        args@.len() == 2,
        args@[0]@ == "-lc"@,
        args@[1]@ == command@,
{
    let mut args: Vec<String> = Vec::new();
    args.push("-lc".to_owned());
    args.push(command.to_owned());
    args
}

/// `m` with a new status and exit code, updated at `now`.
pub open spec fn with_status(
    m: TerminalMetadata,
    status: TerminalStatus,
    exit_code: Option<i32>,
    now: Timestamp,
) -> TerminalMetadata {
    TerminalMetadata { status, exit_code, updated_at: now, ..m }
}

/// Records a new status and exit code.
pub fn update_status(
    meta: &mut TerminalMetadata,
    status: TerminalStatus,
    exit_code: Option<i32>,
    now: Timestamp,
)
    ensures
        *final(meta) == with_status(*old(meta), status, exit_code, now),
{
    meta.status = status;
    meta.exit_code = exit_code;
    meta.updated_at = now;
}

/// `m` after an attach: attached at `attached_at`, updated at `updated_at`,
/// and running if it was starting.
pub open spec fn attached(m: TerminalMetadata, attached_at: Timestamp, updated_at: Timestamp) -> TerminalMetadata {
    TerminalMetadata {
        last_attached_at: Some(attached_at),
        updated_at,
        status: if m.status == TerminalStatus::Starting {
            TerminalStatus::Running
        } else {
            m.status
        },
        ..m
    }
}

/// Records an attach.
pub fn mark_attached(meta: &mut TerminalMetadata, attached_at: Timestamp, updated_at: Timestamp)
    ensures
        *final(meta) == attached(*old(meta), attached_at, updated_at),
{
    meta.last_attached_at = Some(attached_at);
    meta.updated_at = updated_at;
    if meta.status == TerminalStatus::Starting {
        meta.status = TerminalStatus::Running;
    }
}

/// A process exit code as an `i32`, when it fits.
pub fn exit_code_from(code: u32) -> (r: Option<i32>)
    ensures
        match r {
            Some(c) => code <= i32::MAX && c == code,
            None => code > i32::MAX,
        },
{
    if code <= 0x7fff_ffff {
        Some(code as i32)
    } else {
        None
    }
}

/// The record after checking on the process: an exited process marks the
/// terminal exited with its code.
pub fn reconcile_status(meta: &mut TerminalMetadata, exited: Option<u32>, now: Timestamp)
    ensures
        match exited {
            Some(code) => *final(meta) == with_status(
                *old(meta),
                TerminalStatus::Exited,
                if code <= i32::MAX {
                    Some(code as i32)
                } else {
                    None
                },
                now,
            ),
            None => *final(meta) == *old(meta),
        },
{
    match exited {
        Some(code) => {
            let exit_code = exit_code_from(code);
            update_status(meta, TerminalStatus::Exited, exit_code, now);
        },
        None => {},
    }
}

/// Whether an attach goes ahead: only to a terminal that exists and can be
/// attached to; otherwise the terminal is reported not found.
pub fn attach_check(status: Option<TerminalStatus>) -> (r: Result<(), ApiError>)
    ensures
        match status {
            Some(s) => if attachable(s) {
                r is Ok
            } else {
                r matches Err(ApiError::NotFound)
            },
            None => r matches Err(ApiError::NotFound),
        },
{
    match status {
        Some(s) => {
            if is_attachable(s) {
                Ok(())
            } else {
                Err(ApiError::NotFound)
            }
        },
        None => Err(ApiError::NotFound),
    }
}

/// The record of a terminal that was killed: exited with code 0.
pub fn mark_killed(meta: &mut TerminalMetadata, now: Timestamp)
    ensures
        *final(meta) == with_status(*old(meta), TerminalStatus::Exited, Some(0i32), now),
{
    update_status(meta, TerminalStatus::Exited, Some(0), now);
}

/// What a read from the terminal's PTY gave.
pub enum ReadOutcome {
    /// The PTY closed; the process exit code, if it was learnt.
    Closed { exit_code: Option<i32> },
    /// Some output arrived.
    Data,
    /// The read failed.
    Failed,
}

/// What the reader does after a read.
pub struct ReaderStep {
    /// The status to record.
    pub status: TerminalStatus,
    /// The exit code to record.
    pub exit_code: Option<i32>,
    /// Whether the output goes to the scrollback and the subscribers.
    pub forward_output: bool,
    /// Whether the subscribers are told, by an empty message, that the
    /// terminal ended.
    pub announce_end: bool,
    /// Whether the reader reads again.
    pub keep_reading: bool,
}

/// The reader's decision on a read, as `reader_step` takes it.
pub open spec fn step_of(outcome: ReadOutcome) -> ReaderStep {
    match outcome {
        ReadOutcome::Closed { exit_code } => ReaderStep {
            status: TerminalStatus::Exited,
            exit_code: match exit_code {
                Some(c) => Some(c),
                None => Some(0i32),
            },
            forward_output: false,
            announce_end: true,
            keep_reading: false,
        },
        ReadOutcome::Data => ReaderStep {
            status: TerminalStatus::Running,
            exit_code: None,
            forward_output: true,
            announce_end: false,
            keep_reading: true,
        },
        ReadOutcome::Failed => ReaderStep {
            status: TerminalStatus::Failed,
            exit_code: None,
            forward_output: false,
            announce_end: false,
            keep_reading: false,
        },
    }
}

/// The reader's decision: output keeps the terminal running and is
/// forwarded; a closed PTY marks it exited (code 0 when none was learnt)
/// and announces the end; a failed read marks it failed.
pub fn reader_step(outcome: ReadOutcome) -> (s: ReaderStep)
    ensures
        s == step_of(outcome),
        match outcome {
            ReadOutcome::Closed { exit_code } => s.status == TerminalStatus::Exited && s.exit_code
                == match exit_code {
                Some(c) => Some(c),
                None => Some(0i32),
            } && !s.forward_output && s.announce_end && !s.keep_reading,
            ReadOutcome::Data => s.status == TerminalStatus::Running && s.exit_code is None
                && s.forward_output && !s.announce_end && s.keep_reading,
            ReadOutcome::Failed => s.status == TerminalStatus::Failed && s.exit_code is None
                && !s.forward_output && !s.announce_end && !s.keep_reading,
        },
{
    match outcome {
        ReadOutcome::Closed { exit_code } => ReaderStep {
            status: TerminalStatus::Exited,
            exit_code: match exit_code {
                Some(c) => Some(c),
                None => Some(0),
            },
            forward_output: false,
            announce_end: true,
            keep_reading: false,
        },
        ReadOutcome::Data => ReaderStep {
            status: TerminalStatus::Running,
            exit_code: None,
            forward_output: true,
            announce_end: false,
            keep_reading: true,
        },
        ReadOutcome::Failed => ReaderStep {
            status: TerminalStatus::Failed,
            exit_code: None,
            forward_output: false,
            announce_end: false,
            keep_reading: false,
        },
    }
}

/// How many times the reader asks whether the process exited once its PTY
/// closed.
pub const EXIT_WAIT_ATTEMPTS: u32 = 10;

/// What asking the process whether it exited gave.
pub enum WaitResult {
    Exited { code: u32 },
    StillRunning,
    Error,
}

/// What the reader does next while waiting for the exit code.
pub enum WaitDecision {
    /// Stop waiting with this exit code.
    Done { exit_code: Option<i32> },
    /// Sleep briefly and ask again.
    Retry,
}

/// The waiting decision after attempt `attempt`, as `wait_step` takes it.
pub open spec fn wait_decision(attempt: int, result: WaitResult) -> WaitDecision {
    match result {
        WaitResult::Exited { code } => WaitDecision::Done {
            exit_code: if code <= i32::MAX {
                Some(code as i32)
            } else {
                None
            },
        },
        WaitResult::Error => WaitDecision::Done { exit_code: None },
        WaitResult::StillRunning => if attempt + 1 < EXIT_WAIT_ATTEMPTS {
            WaitDecision::Retry
        } else {
            WaitDecision::Done { exit_code: None }
        },
    }
}

/// The waiting decision after attempt `attempt` (counting from 0): an exit
/// gives its code, an error gives none, a running process is asked again
/// until ten attempts were made.
pub fn wait_step(attempt: u32, result: WaitResult) -> (d: WaitDecision)
    ensures
        d == wait_decision(attempt as int, result),
        match result {
            WaitResult::Exited { code } => d matches WaitDecision::Done { exit_code } && exit_code
                == if code <= i32::MAX {
                Some(code as i32)
            } else {
                None
            },
            WaitResult::Error => d matches WaitDecision::Done { exit_code } && exit_code is None,
            WaitResult::StillRunning => if attempt + 1 < EXIT_WAIT_ATTEMPTS {
                d is Retry
            } else {
                d matches WaitDecision::Done { exit_code } && exit_code is None
            },
        },
{
    match result {
        WaitResult::Exited { code } => WaitDecision::Done { exit_code: exit_code_from(code) },
        WaitResult::Error => WaitDecision::Done { exit_code: None },
        WaitResult::StillRunning => {
            if attempt < EXIT_WAIT_ATTEMPTS - 1 {
                WaitDecision::Retry
            } else {
                WaitDecision::Done { exit_code: None }
            }
        },
    }
}

/// What the session manager does for a browser message.
pub enum ClientAction {
    /// Write these bytes to the terminal.
    Write { bytes: Vec<u8> },
    /// Resize the terminal.
    Resize { cols: u16, rows: u16 },
    /// Answer with the terminal's status.
    ReportStatus,
    /// Empty the scrollback.
    ClearScrollback,
}

/// Maps a browser message to the manager's action: input is written as its
/// UTF-8 bytes.
pub fn client_action(message: ClientTerminalMessage) -> (a: ClientAction)
    ensures
        match message {
            ClientTerminalMessage::Input { data } => a matches ClientAction::Write { bytes }
                && bytes@ == vstd::utf8::encode_utf8(data@),
            ClientTerminalMessage::Resize { cols, rows } => a == (ClientAction::Resize {
                cols,
                rows,
            }),
            ClientTerminalMessage::Ping => a is ReportStatus,
            ClientTerminalMessage::ClearScrollback => a is ClearScrollback,
        },
{
    match message {
        ClientTerminalMessage::Input { data } => {
            let bytes = crate::ordering::bytes_to_vec(data.as_str().as_bytes());
            ClientAction::Write { bytes }
        },
        ClientTerminalMessage::Resize { cols, rows } => ClientAction::Resize { cols, rows },
        ClientTerminalMessage::Ping => ClientAction::ReportStatus,
        ClientTerminalMessage::ClearScrollback => ClientAction::ClearScrollback,
    }
}

/// A frame the browser sent over the terminal's WebSocket.
pub enum Frame {
    Text { text: String },
    Close,
    Ping { payload: Vec<u8> },
    Other,
}

/// What the bridge does with a frame.
pub enum FrameAction {
    /// Read the text as a terminal message and handle it.
    Handle { text: String },
    /// End the session.
    Stop,
    /// Answer with a pong carrying the payload.
    Pong { payload: Vec<u8> },
    /// Do nothing.
    Ignore,
}

/// The bridge's decision on a frame: text is handled, a close ends the
/// session, a ping is answered with a pong of the same payload, anything
/// else is ignored.
pub fn frame_action(frame: Frame) -> (a: FrameAction)
    ensures
        match frame {
            Frame::Text { text } => a == (FrameAction::Handle { text }),
            Frame::Close => a is Stop,
            Frame::Ping { payload } => a == (FrameAction::Pong { payload }),
            Frame::Other => a is Ignore,
        },
{
    match frame {
        Frame::Text { text } => FrameAction::Handle { text },
        Frame::Close => FrameAction::Stop,
        Frame::Ping { payload } => FrameAction::Pong { payload },
        Frame::Other => FrameAction::Ignore,
    }
}

/// The answer to a ping: the terminal's status, or failed when it is gone.
pub fn ping_reply(status: Option<TerminalStatus>) -> (m: ServerTerminalMessage)
    ensures
        m == (ServerTerminalMessage::Status {
            status: match status {
                Some(s) => s,
                None => TerminalStatus::Failed,
            },
        }),
{
    ServerTerminalMessage::Status {
        status: match status {
            Some(s) => s,
            None => TerminalStatus::Failed,
        },
    }
}

/// The messages that open a WebSocket session: a greeting with the
/// terminal's id and status, then the scrollback in Base64 unless it is
/// empty.
pub fn opening_messages(meta: &TerminalMetadata, scrollback: &[u8]) -> (ms: Vec<ServerTerminalMessage>)
    ensures
        ms@.len() == if scrollback@.len() == 0 {
            1int
        } else {
            2int
        },
        ms@[0] matches ServerTerminalMessage::Hello { terminal_id, status } && terminal_id@
            == meta.id.0@ && status == meta.status,
        scrollback@.len() > 0 ==> (ms@[1] matches ServerTerminalMessage::Scrollback { data }
            && data@ == base64_of(scrollback@)),
{
    let mut ms: Vec<ServerTerminalMessage> = Vec::new();
    ms.push(ServerTerminalMessage::Hello { terminal_id: meta.id.0.clone(), status: meta.status });
    if scrollback.len() > 0 {
        ms.push(ServerTerminalMessage::Scrollback { data: base64_encode(scrollback) });
    }
    ms
}

/// The message for output from the terminal, and whether the session
/// ends: empty output means the terminal exited and gives its exit code.
pub fn output_message(bytes: &[u8], exit_code: Option<i32>) -> (r: (ServerTerminalMessage, bool))
    ensures
        bytes@.len() == 0 ==> r.0 == (ServerTerminalMessage::Exit { code: exit_code }) && r.1,
        bytes@.len() > 0 ==> (r.0 matches ServerTerminalMessage::Output { data } && data@
            == base64_of(bytes@)) && !r.1,
{
    if bytes.len() == 0 {
        (ServerTerminalMessage::Exit { code: exit_code }, true)
    } else {
        (ServerTerminalMessage::Output { data: base64_encode(bytes) }, false)
    }
}

} // verus!

verus! {

/// A terminal whose process exited, or that was killed, cannot be attached
/// to any more.
pub proof fn lemma_exited_not_attachable(
    m: TerminalMetadata,
    exit_code: Option<i32>,
    now: Timestamp,
)
    ensures
        !attachable(with_status(m, TerminalStatus::Exited, exit_code, now).status),
        !attachable(with_status(m, TerminalStatus::Failed, exit_code, now).status),
{
}

/// Attaching never changes whether a terminal can be attached to, and a
/// terminal that was attached to is no longer starting.
pub proof fn lemma_attach_keeps_availability(m: TerminalMetadata, a: Timestamp, u: Timestamp)
    ensures
        attachable(attached(m, a, u).status) == attachable(m.status),
        attached(m, a, u).status != TerminalStatus::Starting,
        attached(m, a, u).id == m.id,
        attached(m, a, u).exit_code == m.exit_code,
{
}

} // verus!

verus! {

/// One read from a terminal's PTY and what it gave.
pub enum ReadEvent {
    /// Output bytes.
    Chunk { bytes: Seq<u8> },
    /// The end of output, with the exit code learnt from the process.
    End { exit_code: Option<i32> },
    /// A failed read.
    Error,
}

/// What the reader has done so far: the status and exit code recorded, the
/// scrollback, the messages sent to subscribers (an empty one marks the
/// end), and whether it still reads.
pub struct ReaderView {
    pub status: TerminalStatus,
    pub exit_code: Option<i32>,
    pub scrollback: Seq<u8>,
    pub sent: Seq<Seq<u8>>,
    pub reading: bool,
}

/// The kind of a read.
pub open spec fn outcome_of(e: ReadEvent) -> ReadOutcome {
    match e {
        ReadEvent::Chunk { .. } => ReadOutcome::Data,
        ReadEvent::End { exit_code } => ReadOutcome::Closed { exit_code },
        ReadEvent::Error => ReadOutcome::Failed,
    }
}

/// The bytes of a read (none but for output).
pub open spec fn bytes_of(e: ReadEvent) -> Seq<u8> {
    match e {
        ReadEvent::Chunk { bytes } => bytes,
        _ => Seq::empty(),
    }
}

/// The reader after one read, deciding by `reader_step`: forwarded output
/// goes to the scrollback (keeping the last `cap` bytes) and to the
/// subscribers; an announced end sends the empty end marker.
pub open spec fn read_once(st: ReaderView, e: ReadEvent, cap: nat) -> ReaderView {
    let s = step_of(outcome_of(e));
    ReaderView {
        status: s.status,
        exit_code: s.exit_code,
        scrollback: if s.forward_output {
            keep_last(st.scrollback + bytes_of(e), cap)
        } else {
            st.scrollback
        },
        sent: if s.forward_output {
            st.sent.push(bytes_of(e))
        } else if s.announce_end {
            st.sent.push(Seq::empty())
        } else {
            st.sent
        },
        reading: s.keep_reading,
    }
}

/// The reader after the reads `evs`, stopping once it stops reading.
pub open spec fn read_all(st: ReaderView, evs: Seq<ReadEvent>, cap: nat) -> ReaderView
    decreases evs.len(),
{
    if evs.len() == 0 || !st.reading {
        st
    } else {
        read_all(read_once(st, evs[0], cap), evs.drop_first(), cap)
    }
}

/// The chunks' bytes one after another.
pub open spec fn concat_all(cs: Seq<Seq<u8>>) -> Seq<u8>
    decreases cs.len(),
{
    if cs.len() == 0 {
        Seq::empty()
    } else {
        cs[0] + concat_all(cs.drop_first())
    }
}

/// The reads that give the chunks `cs`.
pub open spec fn chunk_events(cs: Seq<Seq<u8>>) -> Seq<ReadEvent> {
    cs.map_values(|b: Seq<u8>| ReadEvent::Chunk { bytes: b })
}

/// The reader after reading the chunks `cs` from `st`.
pub open spec fn after_chunks(st: ReaderView, cs: Seq<Seq<u8>>, cap: nat) -> ReaderView {
    if cs.len() == 0 {
        st
    } else {
        ReaderView {
            status: TerminalStatus::Running,
            exit_code: None,
            scrollback: keep_last(st.scrollback + concat_all(cs), cap),
            sent: st.sent + cs,
            reading: true,
        }
    }
}

/// Reading chunks while reading leaves the reader as `after_chunks` says,
/// whatever reads follow.
proof fn lemma_read_chunks(st: ReaderView, cs: Seq<Seq<u8>>, tail: Seq<ReadEvent>, cap: nat)
    requires
        st.reading,
    ensures
        read_all(st, chunk_events(cs) + tail, cap) == read_all(after_chunks(st, cs, cap), tail, cap),
    decreases cs.len(),
{
    if cs.len() == 0 {
        assert(chunk_events(cs) + tail =~= tail);
    } else {
        let evs = chunk_events(cs) + tail;
        let rest = cs.drop_first();
        assert(evs[0] == ReadEvent::Chunk { bytes: cs[0] });
        assert(evs.drop_first() =~= chunk_events(rest) + tail);
        let st1 = read_once(st, evs[0], cap);
        lemma_read_chunks(st1, rest, tail, cap);
        crate::scrollback::lemma_append_concat(st.scrollback, cs[0], concat_all(rest), cap);
        assert(st.scrollback + cs[0] + concat_all(rest) =~= st.scrollback + concat_all(cs));
        assert(st1.sent + rest =~= st.sent + cs);
        if rest.len() == 0 {
            assert(concat_all(rest) =~= Seq::<u8>::empty());
            assert(st.scrollback + cs[0] =~= st.scrollback + cs[0] + concat_all(rest));
            assert(st1.sent =~= st.sent + cs);
        }
    }
}

/// The reader over a terminal's life: starting with an empty scrollback,
/// each chunk of output is kept (the last `cap` bytes) and sent on with the
/// terminal running; the end of output marks it exited with the learnt
/// exit code, or 0 when none was learnt, and sends the empty end marker; a
/// failed read marks it failed. Nothing after the end or the failure is
/// read.
pub proof fn lemma_reader_run(
    status: TerminalStatus,
    cs: Seq<Seq<u8>>,
    last: ReadEvent,
    rest: Seq<ReadEvent>,
    cap: nat,
)
    requires
        !(last is Chunk),
    ensures
        ({
            let start = ReaderView {
                status,
                exit_code: None,
                scrollback: Seq::empty(),
                sent: Seq::empty(),
                reading: true,
            };
            let r = read_all(start, chunk_events(cs) + seq![last] + rest, cap);
            &&& r.scrollback == keep_last(concat_all(cs), cap)
            &&& !r.reading
            &&& match last {
                ReadEvent::End { exit_code } => r.status == TerminalStatus::Exited && r.exit_code
                    == match exit_code {
                    Some(c) => Some(c),
                    None => Some(0i32),
                } && r.sent == cs.push(Seq::empty()),
                _ => r.status == TerminalStatus::Failed && r.exit_code is None && r.sent == cs,
            }
        }),
        ({
            let start = ReaderView {
                status,
                exit_code: None,
                scrollback: Seq::empty(),
                sent: Seq::empty(),
                reading: true,
            };
            let r = read_all(start, chunk_events(cs), cap);
            cs.len() > 0 ==> r.status == TerminalStatus::Running && r.exit_code is None
                && r.reading && r.sent == cs && r.scrollback == keep_last(concat_all(cs), cap)
        }),
{
    let start = ReaderView {
        status,
        exit_code: None,
        scrollback: Seq::empty(),
        sent: Seq::empty(),
        reading: true,
    };
    let tail = seq![last] + rest;
    assert(chunk_events(cs) + seq![last] + rest =~= chunk_events(cs) + tail);
    lemma_read_chunks(start, cs, tail, cap);
    let mid = after_chunks(start, cs, cap);
    assert(Seq::<u8>::empty() + concat_all(cs) =~= concat_all(cs));
    assert(Seq::<Seq<u8>>::empty() + cs =~= cs);
    if cs.len() == 0 {
        assert(concat_all(cs) =~= Seq::<u8>::empty());
        assert(keep_last(Seq::<u8>::empty(), cap) =~= Seq::<u8>::empty());
    }
    assert(mid.reading);
    assert(tail[0] == last);
    assert(tail.drop_first() =~= rest);
    let after = read_once(mid, last, cap);
    assert(!after.reading);
    assert(read_all(mid, tail, cap) == read_all(after, rest, cap));
    assert(read_all(after, rest, cap) == after);
    lemma_read_chunks(start, cs, Seq::empty(), cap);
    assert(chunk_events(cs) + Seq::<ReadEvent>::empty() =~= chunk_events(cs));
}

/// The exit code the reader learns from polls `rs` of the process, from
/// attempt `attempt` on, deciding by `wait_step`.
pub open spec fn wait_from(rs: Seq<WaitResult>, attempt: int) -> Option<i32>
    decreases rs.len(),
{
    if rs.len() == 0 {
        None
    } else {
        match wait_decision(attempt, rs[0]) {
            WaitDecision::Done { exit_code } => exit_code,
            WaitDecision::Retry => wait_from(rs.drop_first(), attempt + 1),
        }
    }
}

/// The exit code the first poll that found the process no longer running
/// gives, among the polls `ps`: its code when it exited (if it fits an
/// `i32`), none when polling failed or no poll found it ended.
pub open spec fn first_exit(ps: Seq<WaitResult>) -> Option<i32>
    decreases ps.len(),
{
    if ps.len() == 0 {
        None
    } else {
        match ps[0] {
            WaitResult::Exited { code } => if code <= i32::MAX {
                Some(code as i32)
            } else {
                None
            },
            WaitResult::Error => None,
            WaitResult::StillRunning => first_exit(ps.drop_first()),
        }
    }
}

/// From attempt `attempt` on, only the next `10 - attempt` polls count.
proof fn lemma_wait_from(rs: Seq<WaitResult>, attempt: int)
    requires
        0 <= attempt < EXIT_WAIT_ATTEMPTS,
        rs.len() >= EXIT_WAIT_ATTEMPTS - attempt,
    ensures
        wait_from(rs, attempt) == first_exit(rs.take(EXIT_WAIT_ATTEMPTS - attempt)),
    decreases EXIT_WAIT_ATTEMPTS - attempt,
{
    let n = EXIT_WAIT_ATTEMPTS - attempt;
    let t = rs.take(n);
    assert(t[0] == rs[0]);
    assert(t.drop_first() =~= rs.drop_first().take(n - 1));
    if rs[0] is StillRunning {
        if attempt + 1 < EXIT_WAIT_ATTEMPTS {
            lemma_wait_from(rs.drop_first(), attempt + 1);
        } else {
            assert(t.drop_first() =~= Seq::<WaitResult>::empty());
        }
    }
}

/// The reader waits for the exit code over at most ten polls: the first
/// poll among the first ten that finds the process ended decides the code
/// (none when polling failed), and none is learnt when the first ten all
/// find it running.
pub proof fn lemma_wait_polls(rs: Seq<WaitResult>)
    requires
        rs.len() >= EXIT_WAIT_ATTEMPTS,
    ensures
        wait_from(rs, 0) == first_exit(rs.take(EXIT_WAIT_ATTEMPTS as int)),
{
    lemma_wait_from(rs, 0);
}

} // verus!

use homepanel::error::ApiError;
use homepanel::terminal::{initial_metadata, WaitResult};
use homepanel::terminal_table::TerminalTable;
use homepanel::types::{TerminalId, TerminalKind, TerminalMetadata, TerminalStatus, Timestamp};

fn ts(secs: i64) -> Timestamp {
    Timestamp { secs, nanos: 0 }
}

fn record(id: &str, name: &str) -> TerminalMetadata {
    initial_metadata(
        TerminalId(id.to_string()),
        name.to_string(),
        TerminalKind::Shell,
        "sleep 5".to_string(),
        "/tmp".to_string(),
        Some("/bin/bash".to_string()),
        80,
        24,
        false,
        None,
        ts(1),
        ts(1),
    )
}

fn id(s: &str) -> TerminalId {
    TerminalId(s.to_string())
}

#[test]
fn table_killing_one_terminal_keeps_attach_to_another() {
    let mut table = TerminalTable::new();
    table.insert(record("t-1", "first"));
    table.insert(record("t-2", "second"));
    assert!(table.attach(&id("t-1"), None, ts(2)).is_ok());
    assert!(table.attach(&id("t-2"), None, ts(2)).is_ok());
    assert!(table.kill(&id("t-2"), ts(3)).is_ok());
    assert!(table.attach(&id("t-1"), None, ts(4)).is_ok());
    assert!(matches!(table.attach(&id("t-2"), None, ts(4)), Err(ApiError::NotFound)));
    let second = table.get(&id("t-2")).unwrap();
    assert_eq!(second.status, TerminalStatus::Exited);
    assert_eq!(second.exit_code, Some(0));
    assert_eq!(table.get(&id("t-1")).unwrap().status, TerminalStatus::Running);
}

#[test]
fn table_reconciles_an_exit_before_attach() {
    let mut table = TerminalTable::new();
    table.insert(record("t-1", "short-lived"));
    assert!(matches!(table.attach(&id("t-1"), Some(0), ts(2)), Err(ApiError::NotFound)));
    let summaries = table.summaries();
    assert_eq!(summaries.len(), 1);
    assert_eq!(summaries[0].status, TerminalStatus::Exited);
    assert_eq!(summaries[0].exit_code, Some(0));
}

#[test]
fn table_answers_not_found_for_unknown_ids() {
    let mut table = TerminalTable::new();
    assert!(table.get(&id("nope")).is_none());
    assert!(matches!(table.attach(&id("nope"), None, ts(1)), Err(ApiError::NotFound)));
    assert!(matches!(table.kill(&id("nope"), ts(1)), Err(ApiError::NotFound)));
    assert!(!table.record_status(&id("nope"), TerminalStatus::Running, None, ts(1)));
    assert!(table.summaries().is_empty());
}

#[test]
fn table_insert_replaces_a_record_with_the_same_id() {
    let mut table = TerminalTable::new();
    table.insert(record("t-1", "first"));
    table.insert(record("t-2", "second"));
    table.insert(record("t-1", "renamed"));
    let names: Vec<String> = table.summaries().into_iter().map(|s| s.name).collect();
    assert_eq!(names, vec!["renamed", "second"]);
    assert!(table.record_status(&id("t-2"), TerminalStatus::Failed, None, ts(5)));
    assert_eq!(table.get(&id("t-2")).unwrap().status, TerminalStatus::Failed);
    assert_eq!(table.get(&id("t-1")).unwrap().status, TerminalStatus::Starting);
    table.reconcile(&id("t-1"), None, ts(6));
    assert_eq!(table.get(&id("t-1")).unwrap().status, TerminalStatus::Starting);
    table.reconcile(&id("t-1"), Some(3), ts(7));
    assert_eq!(table.get(&id("t-1")).unwrap().exit_code, Some(3));
}

fn run_reader(reads: Vec<(homepanel::terminal::ReadOutcome, Vec<u8>)>, cap: usize) -> (
    TerminalStatus,
    Option<i32>,
    Vec<u8>,
    Vec<Vec<u8>>,
) {
    let mut status = TerminalStatus::Starting;
    let mut exit_code = None;
    let mut scrollback = homepanel::scrollback::ScrollbackBuffer::new(cap);
    let mut sent = Vec::new();
    for (outcome, bytes) in reads {
        let step = homepanel::terminal::reader_step(outcome);
        if step.forward_output {
            scrollback.append(&bytes);
            sent.push(bytes);
        } else if step.announce_end {
            sent.push(Vec::new());
        }
        status = step.status;
        exit_code = step.exit_code;
        if !step.keep_reading {
            break;
        }
    }
    (status, exit_code, scrollback.snapshot(), sent)
}

#[test]
fn reader_keeps_output_and_ends_with_the_exit() {
    let (status, code, kept, sent) = run_reader(
        vec![
            (homepanel::terminal::ReadOutcome::Data, b"abc".to_vec()),
            (homepanel::terminal::ReadOutcome::Data, b"def".to_vec()),
            (homepanel::terminal::ReadOutcome::Closed { exit_code: None }, Vec::new()),
            (homepanel::terminal::ReadOutcome::Data, b"late".to_vec()),
        ],
        4,
    );
    assert_eq!(status, TerminalStatus::Exited);
    assert_eq!(code, Some(0));
    assert_eq!(kept, b"cdef".to_vec());
    assert_eq!(sent, vec![b"abc".to_vec(), b"def".to_vec(), Vec::new()]);

    let (status, code, kept, sent) = run_reader(
        vec![
            (homepanel::terminal::ReadOutcome::Data, b"x".to_vec()),
            (homepanel::terminal::ReadOutcome::Failed, Vec::new()),
        ],
        16,
    );
    assert_eq!(status, TerminalStatus::Failed);
    assert_eq!(code, None);
    assert_eq!(kept, b"x".to_vec());
    assert_eq!(sent, vec![b"x".to_vec()]);
}

fn poll(results: Vec<homepanel::terminal::WaitResult>) -> Option<i32> {
    let mut attempt: u32 = 0;
    for r in results {
        match homepanel::terminal::wait_step(attempt, r) {
            homepanel::terminal::WaitDecision::Done { exit_code } => return exit_code,
            homepanel::terminal::WaitDecision::Retry => attempt += 1,
        }
    }
    None
}

#[test]
fn waiting_takes_the_first_ended_poll_among_ten() {
    let mut rs: Vec<WaitResult> = (0..3).map(|_| WaitResult::StillRunning).collect();
    rs.push(WaitResult::Exited { code: 7 });
    assert_eq!(poll(rs), Some(7));
    let rs: Vec<WaitResult> = (0..12)
        .map(|i| if i == 10 { WaitResult::Exited { code: 1 } } else { WaitResult::StillRunning })
        .collect();
    assert_eq!(poll(rs), None);
    assert_eq!(poll(vec![WaitResult::StillRunning, WaitResult::Error]), None);
}

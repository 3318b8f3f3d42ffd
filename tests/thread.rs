use multi_threader::parser::Command;
use multi_threader::thread::{
    CommandMessage, IoWorker, MainThread, PoolError, PoolState, ShutdownReport, WorkerAction,
    WorkerEvent, WorkerExit,
};

fn message(line: &str, line_number: usize, io_thread_id: usize) -> CommandMessage {
    CommandMessage {
        command: Command::parse(line).unwrap(),
        line_number,
        io_thread_id,
    }
}

fn result_of(owner: &mut MainThread, line: &str, n: usize) -> Result<String, String> {
    owner.handle_message(message(line, n, 0)).result
}

#[test]
fn worker_skips_blank_lines() {
    let w = IoWorker::new(3);
    assert!(matches!(w.process_line("   \t", 1), WorkerAction::Skip));
    assert!(matches!(w.process_line("", 2), WorkerAction::Skip));
}

#[test]
fn worker_dispatches_parsed_lines_with_provenance() {
    let w = IoWorker::new(3);
    match w.process_line("GET a", 7) {
        WorkerAction::Dispatch(m) => {
            assert_eq!(m.line_number, 7);
            assert_eq!(m.io_thread_id, 3);
        }
        _ => panic!("expected a dispatch"),
    }
}

#[test]
fn worker_reports_parse_errors_and_keeps_running() {
    let mut w = IoWorker::new(1);
    match w.step(WorkerEvent::Received("INVALID foo".to_string(), 4)) {
        WorkerAction::ReportParseError {
            line_number,
            reason,
            raw,
        } => {
            assert_eq!(line_number, 4);
            assert_eq!(reason, "Invalid command: INVALID foo");
            assert_eq!(raw, "INVALID foo");
        }
        _ => panic!("expected a parse error"),
    }
    assert_eq!(w.exit_status(), None);
    assert!(matches!(
        w.step(WorkerEvent::Received("SET a 1".to_string(), 5)),
        WorkerAction::Dispatch(_)
    ));
}

#[test]
fn worker_exits_on_closed_queue_or_lost_owner() {
    let mut w = IoWorker::new(0);
    assert!(matches!(
        w.step(WorkerEvent::QueueClosed),
        WorkerAction::Exit(WorkerExit::Closed)
    ));
    assert_eq!(w.exit_status(), Some(WorkerExit::Closed));
    let mut v = IoWorker::new(1);
    assert!(matches!(
        v.step(WorkerEvent::DispatchFailed),
        WorkerAction::Exit(WorkerExit::Aborted)
    ));
    assert_eq!(v.exit_status(), Some(WorkerExit::Aborted));
    assert_eq!(v.id(), 1);
}

#[test]
fn single_worker_set_get_delete_get() {
    let mut owner = MainThread::new();
    assert_eq!(result_of(&mut owner, "SET a 1", 1), Ok("SET a = 1".to_string()));
    assert_eq!(result_of(&mut owner, "GET a", 2), Ok("GET a = 1".to_string()));
    assert_eq!(
        result_of(&mut owner, "DELETE a", 3),
        Ok("DELETED a (was: 1)".to_string())
    );
    assert_eq!(
        result_of(&mut owner, "GET a", 4),
        Err("Key 'a' not found".to_string())
    );
    assert_eq!(owner.processed_count(), 4);
}

#[test]
fn three_workers_disjoint_keys_any_order() {
    let orders = [[0, 1, 2], [2, 1, 0], [1, 2, 0]];
    let lines = ["SET a 1", "SET b 2", "SET c 3"];
    for order in orders.iter() {
        let mut owner = MainThread::new();
        for &i in order.iter() {
            let report = owner.handle_message(message(lines[i], i + 1, i));
            assert_eq!(report.io_thread_id, i);
            assert_eq!(report.line_number, i + 1);
        }
        assert_eq!(result_of(&mut owner, "GET a", 4), Ok("GET a = 1".to_string()));
        assert_eq!(result_of(&mut owner, "GET b", 5), Ok("GET b = 2".to_string()));
        assert_eq!(result_of(&mut owner, "GET c", 6), Ok("GET c = 3".to_string()));
    }
}

#[test]
fn parse_error_leaves_count_unaffected() {
    let worker = IoWorker::new(0);
    let mut owner = MainThread::new();
    for (n, line) in ["INVALID foo", "SET x 9", "GET x"].iter().enumerate() {
        match worker.process_line(line, n + 1) {
            WorkerAction::Dispatch(m) => {
                owner.handle_message(m);
            }
            WorkerAction::ReportParseError { line_number, .. } => assert_eq!(line_number, 1),
            _ => panic!("unexpected action"),
        }
    }
    assert_eq!(owner.processed_count(), 2);
}

#[test]
fn no_units_count_zero() {
    let owner = MainThread::new();
    assert_eq!(owner.processed_count(), 0);
    let mut pool = PoolState::new(2);
    pool.close_submission();
    assert_eq!(pool.begin_shutdown(), Ok(()));
    let report = ShutdownReport {
        processed_count: owner.processed_count(),
        worker_statuses: vec![WorkerExit::Closed, WorkerExit::Closed],
    };
    assert_eq!(report.processed_count, 0);
    assert!(report.all_workers_closed());
}

#[test]
fn misses_are_counted() {
    let mut owner = MainThread::new();
    assert!(result_of(&mut owner, "GET none", 1).is_err());
    assert!(result_of(&mut owner, "DELETE none", 2).is_err());
    assert_eq!(owner.processed_count(), 2);
}

#[test]
fn pool_starts_once() {
    let mut pool = PoolState::new(4);
    assert_eq!(pool.num_io_threads(), 4);
    assert_eq!(pool.start_main_thread(), Ok(()));
    assert_eq!(pool.start_main_thread(), Err(PoolError::AlreadyStarted));
}

#[test]
fn submission_fails_after_close_and_close_is_idempotent() {
    let mut pool = PoolState::new(1);
    assert_eq!(pool.accept_submission(), Ok(()));
    pool.close_submission();
    pool.close_submission();
    assert_eq!(pool.accept_submission(), Err(PoolError::QueueClosed));
}

#[test]
fn shutdown_happens_once() {
    let mut pool = PoolState::new(1);
    assert_eq!(pool.begin_shutdown(), Ok(()));
    assert_eq!(pool.accept_submission(), Err(PoolError::QueueClosed));
    assert_eq!(pool.begin_shutdown(), Err(PoolError::AlreadyShutDown));
}

#[test]
fn shutdown_report_counts_workers_that_did_not_panic() {
    let report = ShutdownReport {
        processed_count: 5,
        worker_statuses: vec![
            WorkerExit::Closed,
            WorkerExit::Panicked,
            WorkerExit::Closed,
            WorkerExit::Aborted,
        ],
    };
    assert_eq!(report.successful_shutdowns(), 3);
    assert!(!report.all_workers_closed());
    let empty = ShutdownReport {
        processed_count: 0,
        worker_statuses: vec![],
    };
    assert_eq!(empty.successful_shutdowns(), 0);
    assert!(empty.all_workers_closed());
    let aborted = ShutdownReport {
        processed_count: 0,
        worker_statuses: vec![WorkerExit::Aborted],
    };
    assert_eq!(aborted.successful_shutdowns(), 1);
    assert!(!aborted.all_workers_closed());
}

#[test]
fn count_equals_parsed_units_across_workers() {
    let lines = [
        "SET a 1", "", "BOGUS", "GET a", "DELETE a", "GET a", "  ", "SET b two words", "GET",
    ];
    let workers = [IoWorker::new(0), IoWorker::new(1), IoWorker::new(2)];
    let mut owner = MainThread::new();
    let mut pending = Vec::new();
    for (n, line) in lines.iter().enumerate() {
        if let WorkerAction::Dispatch(m) = workers[(n * 7) % 3].process_line(line, n + 1) {
            pending.push(m);
        }
    }
    // Apply in an order other than submission.
    pending.reverse();
    for m in pending {
        owner.handle_message(m);
    }
    assert_eq!(owner.processed_count(), 5);
}

use crate::handler::{apply_command, outcome_view, CommandHandler};
use crate::parser::{parse_error_message, parse_line, split_words, words, Command};
use vstd::prelude::*;

verus! {

/// A parsed command on its way from a worker to the state owner.
#[derive(Debug)]
pub struct CommandMessage {
    pub command: Command,
    pub line_number: usize,
    pub io_thread_id: usize,
}

/// How a worker's loop ended.
#[derive(PartialEq, Eq, Structural, Clone, Copy, Debug)]
pub enum WorkerExit {
    /// The submission queue was closed and drained.
    Closed,
    /// The state owner was gone when a command was dispatched.
    Aborted,
    /// The worker's thread panicked.
    Panicked,
}

/// What a worker observes.
pub enum WorkerEvent {
    /// A unit of work: a raw line and its sequence number.
    Received(String, usize),
    /// The submission queue is closed and empty.
    QueueClosed,
    /// The state owner no longer receives dispatched commands.
    DispatchFailed,
}

/// What a worker does next.
pub enum WorkerAction {
    /// Nothing: the line was blank.
    Skip,
    /// Report that a line does not parse, with its sequence number, the
    /// reason and the line itself, then wait for the next unit.
    ReportParseError { line_number: usize, reason: String, raw: String },
    /// Send a parsed command to the state owner.
    Dispatch(CommandMessage),
    /// Leave the loop.
    Exit(WorkerExit),
}

/// The decisions of one parsing worker.
pub struct IoWorker {
    id: usize,
    exit: Option<WorkerExit>,
}

impl IoWorker {
    pub closed spec fn spec_id(&self) -> usize {
        self.id
    }

    /// How the worker's loop has ended, if it has.
    pub closed spec fn spec_exit(&self) -> Option<WorkerExit> {
        self.exit
    }

    pub fn new(id: usize) -> (r: Self)
        ensures
            r.spec_id() == id,
            r.spec_exit() is None,
    {
        IoWorker { id, exit: None }
    }

    pub fn id(&self) -> (r: usize)
        ensures
            r == self.spec_id(),
    {
        self.id
    }

    pub fn exit_status(&self) -> (r: Option<WorkerExit>)
        ensures
            r == self.spec_exit(),
    {
        self.exit
    }

    /// Handles one unit of work: a blank line is skipped, a line that parses
    /// is dispatched with its provenance, any other is reported.
    pub fn process_line(&self, raw: &str, line_number: usize) -> (r: WorkerAction)
        ensures
            words(raw@).len() == 0 ==> r is Skip,
            words(raw@).len() > 0 ==> match parse_line(raw@) {
                Some(c) => r matches WorkerAction::Dispatch(m) && m.command@ == c && m.line_number
                    == line_number && m.io_thread_id == self.spec_id(),
                None => r matches WorkerAction::ReportParseError { line_number: n, reason, raw: text }
                    && n == line_number && reason@ == parse_error_message(raw@) && text@ == raw@,
            },
    {
        let parts = split_words(raw);
        if parts.len() == 0 {
            return WorkerAction::Skip;
        }
        match Command::parse(raw) {
            Ok(command) => WorkerAction::Dispatch(
                CommandMessage { command, line_number, io_thread_id: self.id },
            ),
            Err(reason) => WorkerAction::ReportParseError {
                line_number,
                reason,
                raw: String::from_str(raw),
            },
        }
    }

    /// One step of the worker's loop: the action to take on `event`.
    pub fn step(&mut self, event: WorkerEvent) -> (r: WorkerAction)
        requires
            old(self).spec_exit() is None,
        ensures
            final(self).spec_id() == old(self).spec_id(),
            match event {
                WorkerEvent::Received(raw, n) => final(self).spec_exit() is None && (words(raw@).len()
                    == 0 ==> r is Skip) && (words(raw@).len() > 0 ==> match parse_line(raw@) {
                    Some(c) => r matches WorkerAction::Dispatch(m) && m.command@ == c
                        && m.line_number == n && m.io_thread_id == old(self).spec_id(),
                    None => r matches WorkerAction::ReportParseError { line_number, reason, raw: text }
                        && line_number == n && reason@ == parse_error_message(raw@) && text@
                        == raw@,
                }),
                WorkerEvent::QueueClosed => final(self).spec_exit() == Some(WorkerExit::Closed)
                    && r == WorkerAction::Exit(WorkerExit::Closed),
                WorkerEvent::DispatchFailed => final(self).spec_exit() == Some(
                    WorkerExit::Aborted,
                ) && r == WorkerAction::Exit(WorkerExit::Aborted),
            },
    {
        match event {
            WorkerEvent::Received(raw, n) => self.process_line(raw.as_str(), n),
            WorkerEvent::QueueClosed => {
                self.exit = Some(WorkerExit::Closed);
                WorkerAction::Exit(WorkerExit::Closed)
            },
            WorkerEvent::DispatchFailed => {
                self.exit = Some(WorkerExit::Aborted);
                WorkerAction::Exit(WorkerExit::Aborted)
            },
        }
    }
}

/// The outcome of one applied command, tagged with its provenance.
pub struct MessageReport {
    pub line_number: usize,
    pub io_thread_id: usize,
    pub result: Result<String, String>,
}

/// The state owner: the only holder of the store, which applies every
/// dispatched command in the order received and counts them.
pub struct MainThread {
    handler: CommandHandler,
    processed_count: usize,
}

impl View for MainThread {
    type V = (Map<Seq<char>, Seq<char>>, nat);

    closed spec fn view(&self) -> (Map<Seq<char>, Seq<char>>, nat) {
        (self.handler@, self.processed_count as nat)
    }
}

impl MainThread {
    pub closed spec fn wf(&self) -> bool {
        self.handler.wf()
    }

    pub fn new() -> (r: Self)
        ensures
            r.wf(),
            r@ == (Map::<Seq<char>, Seq<char>>::empty(), 0nat),
    {
        MainThread { handler: CommandHandler::new(), processed_count: 0 }
    }

    /// Applies the command of `msg` to the store and counts it, whether it
    /// succeeds or not.
    pub fn handle_message(&mut self, msg: CommandMessage) -> (r: MessageReport)
        requires
            old(self).wf(),
            old(self)@.1 < usize::MAX,
        ensures
            final(self).wf(),
            final(self)@.1 == old(self)@.1 + 1,
            (final(self)@.0, outcome_view(r.result)) == apply_command(old(self)@.0, msg.command@),
            r.line_number == msg.line_number,
            r.io_thread_id == msg.io_thread_id,
    {
        self.processed_count = self.processed_count + 1;
        let result = self.handler.process_command(msg.command);
        MessageReport { line_number: msg.line_number, io_thread_id: msg.io_thread_id, result }
    }

    pub fn processed_count(&self) -> (r: usize)
        ensures
            r == self@.1,
    {
        self.processed_count
    }
}

/// A misuse of the pool's lifecycle.
#[derive(PartialEq, Eq, Structural, Clone, Copy, Debug)]
pub enum PoolError {
    /// The state owner was started before.
    AlreadyStarted,
    /// Submission was closed before.
    QueueClosed,
    /// The pool was shut down before.
    AlreadyShutDown,
}

/// The lifecycle of a pool: the state owner starts once, submission stays
/// open until closed, and the pool shuts down once.
pub struct PoolState {
    num_io_threads: usize,
    started: bool,
    submission_open: bool,
    shut_down: bool,
}

impl PoolState {
    pub closed spec fn spec_num_io_threads(&self) -> usize {
        self.num_io_threads
    }

    pub closed spec fn spec_started(&self) -> bool {
        self.started
    }

    pub closed spec fn spec_submission_open(&self) -> bool {
        self.submission_open
    }

    pub closed spec fn spec_shut_down(&self) -> bool {
        self.shut_down
    }

    pub fn new(num_io_threads: usize) -> (r: Self)
        ensures
            r.spec_num_io_threads() == num_io_threads,
            !r.spec_started(),
            r.spec_submission_open(),
            !r.spec_shut_down(),
    {
        PoolState { num_io_threads, started: false, submission_open: true, shut_down: false }
    }

    pub fn num_io_threads(&self) -> (r: usize)
        ensures
            r == self.spec_num_io_threads(),
    {
        self.num_io_threads
    }

    /// Marks the state owner as started; fails if it was started before.
    pub fn start_main_thread(&mut self) -> (r: Result<(), PoolError>)
        ensures
            final(self).spec_num_io_threads() == old(self).spec_num_io_threads(),
            final(self).spec_submission_open() == old(self).spec_submission_open(),
            final(self).spec_shut_down() == old(self).spec_shut_down(),
            final(self).spec_started(),
            old(self).spec_started() ==> r == Err::<(), PoolError>(PoolError::AlreadyStarted),
            !old(self).spec_started() ==> r is Ok,
    {
        if self.started {
            Err(PoolError::AlreadyStarted)
        } else {
            self.started = true;
            Ok(())
        }
    }

    /// Whether a unit may be submitted now: only while submission is open.
    pub fn accept_submission(&self) -> (r: Result<(), PoolError>)
        ensures
            self.spec_submission_open() ==> r is Ok,
            !self.spec_submission_open() ==> r == Err::<(), PoolError>(PoolError::QueueClosed),
    {
        if self.submission_open {
            Ok(())
        } else {
            Err(PoolError::QueueClosed)
        }
    }

    /// Closes submission; closing again changes nothing.
    pub fn close_submission(&mut self)
        ensures
            final(self).spec_num_io_threads() == old(self).spec_num_io_threads(),
            final(self).spec_started() == old(self).spec_started(),
            final(self).spec_shut_down() == old(self).spec_shut_down(),
            !final(self).spec_submission_open(),
    {
        self.submission_open = false;
    }

    /// Begins the shutdown: closes submission and marks the pool shut down;
    /// fails, changing nothing, if it was shut down before.
    pub fn begin_shutdown(&mut self) -> (r: Result<(), PoolError>)
        ensures
            final(self).spec_num_io_threads() == old(self).spec_num_io_threads(),
            final(self).spec_started() == old(self).spec_started(),
            old(self).spec_shut_down() ==> r == Err::<(), PoolError>(PoolError::AlreadyShutDown)
                && final(self).spec_submission_open() == old(self).spec_submission_open(),
            !old(self).spec_shut_down() ==> r is Ok && !final(self).spec_submission_open(),
            final(self).spec_shut_down(),
    {
        if self.shut_down {
            Err(PoolError::AlreadyShutDown)
        } else {
            self.submission_open = false;
            self.shut_down = true;
            Ok(())
        }
    }
}

/// How many of `statuses` are of a worker whose thread was joined without
/// a panic, whether its loop ended normally or was aborted.
pub open spec fn count_joined(statuses: Seq<WorkerExit>) -> nat
    decreases statuses.len(),
{
    if statuses.len() == 0 {
        0
    } else {
        count_joined(statuses.drop_last()) + if statuses.last() != WorkerExit::Panicked {
            1nat
        } else {
            0nat
        }
    }
}

/// What a shutdown returns: the state owner's count and how each worker
/// ended, in the order of the workers.
pub struct ShutdownReport {
    pub processed_count: usize,
    pub worker_statuses: Vec<WorkerExit>,
}

impl ShutdownReport {
    /// How many workers shut down without a panic.
    pub fn successful_shutdowns(&self) -> (r: usize)
        ensures
            r == count_joined(self.worker_statuses@),
    {
        let mut n: usize = 0;
        let mut i: usize = 0;
        while i < self.worker_statuses.len()
            invariant
                i <= self.worker_statuses@.len(),
                n == count_joined(self.worker_statuses@.subrange(0, i as int)),
                n <= i,
            decreases self.worker_statuses.len() - i,
        {
            assert(self.worker_statuses@.subrange(0, i + 1).drop_last() =~= self.worker_statuses@.subrange(
                0,
                i as int,
            ));
            if self.worker_statuses[i] != WorkerExit::Panicked {
                n = n + 1;
            }
            i = i + 1;
        }
        assert(self.worker_statuses@.subrange(0, i as int) =~= self.worker_statuses@);
        n
    }

    /// Whether every worker ended normally.
    pub fn all_workers_closed(&self) -> (r: bool)
        ensures
            r == (forall|i: int|
                0 <= i < self.worker_statuses@.len() ==> #[trigger] self.worker_statuses@[i]
                    == WorkerExit::Closed),
    {
        let mut i: usize = 0;
        while i < self.worker_statuses.len()
            invariant
                i <= self.worker_statuses@.len(),
                forall|j: int| 0 <= j < i ==> #[trigger] self.worker_statuses@[j] == WorkerExit::Closed,
            decreases self.worker_statuses.len() - i,
        {
            if self.worker_statuses[i] != WorkerExit::Closed {
                return false;
            }
            i = i + 1;
        }
        true
    }
}

} // verus!

//! A model of the whole pipeline, in which every interleaving of the
//! threads is a sequence of steps. The steps are those of the library's
//! components: a worker takes the unit at the head of the submission queue,
//! handles it as `IoWorker::process_line` does, and the state owner applies
//! what was dispatched as `MainThread::handle_message` does.
use crate::handler::apply_command;
use crate::parser::{parse_line, CommandView};
use vstd::prelude::*;

verus! {

/// Where a worker stands.
pub enum WorkerPhase {
    /// Waiting for a unit.
    Idle,
    /// Holding the unit at this position of the submissions.
    Holding(nat),
    /// Its loop has ended.
    Exited,
}

/// A state of the pipeline, with the history needed to state its laws.
pub struct PipelineModel {
    /// Every unit submitted so far: its text and its sequence number.
    pub submitted: Seq<(Seq<char>, nat)>,
    /// How many units workers have taken; the queue holds the rest.
    pub next: nat,
    /// Which worker took each unit taken so far.
    pub takers: Seq<nat>,
    /// Whether submission is closed.
    pub closed: bool,
    pub workers: Seq<WorkerPhase>,
    /// The positions of the units that were handled.
    pub handled: Set<nat>,
    /// The dispatch channel: command, sequence number, origin worker.
    pub dispatch: Seq<(CommandView, nat, nat)>,
    pub store: Map<Seq<char>, Seq<char>>,
    pub count: nat,
    /// The commands applied so far, in order, each with its sequence number.
    pub applied: Seq<(CommandView, nat)>,
    pub owner_done: bool,
}

/// One atomic step of one thread.
pub enum PipelineStep {
    Submit(Seq<char>, nat),
    Close,
    Fetch(nat),
    Handle(nat),
    WorkerExit(nat),
    Apply,
    OwnerExit,
}

/// The pipeline as it starts, with `n` idle workers.
pub open spec fn initial(n: nat) -> PipelineModel {
    PipelineModel {
        submitted: seq![],
        next: 0,
        takers: seq![],
        closed: false,
        workers: Seq::new(n, |w: int| WorkerPhase::Idle),
        handled: Set::empty(),
        dispatch: seq![],
        store: Map::empty(),
        count: 0,
        applied: seq![],
        owner_done: false,
    }
}

pub open spec fn enabled(s: PipelineModel, step: PipelineStep) -> bool {
    match step {
        PipelineStep::Submit(_, _) => !s.closed,
        PipelineStep::Close => !s.closed,
        PipelineStep::Fetch(w) => w < s.workers.len() && s.workers[w as int] is Idle && s.next
            < s.submitted.len(),
        PipelineStep::Handle(w) => w < s.workers.len() && s.workers[w as int] is Holding,
        PipelineStep::WorkerExit(w) => w < s.workers.len() && s.workers[w as int] is Idle
            && s.closed && s.next == s.submitted.len(),
        PipelineStep::Apply => s.dispatch.len() > 0,
        PipelineStep::OwnerExit => !s.owner_done && s.dispatch.len() == 0 && (forall|w: int|
            0 <= w < s.workers.len() ==> #[trigger] s.workers[w] is Exited),
    }
}

/// What a worker hands on for a unit: the command it denotes, if any.
pub open spec fn dispatched(s: PipelineModel, i: nat, w: nat) -> Seq<(CommandView, nat, nat)> {
    match parse_line(s.submitted[i as int].0) {
        Some(c) => seq![(c, s.submitted[i as int].1, w)],
        None => seq![],
    }
}

pub open spec fn step_result(s: PipelineModel, step: PipelineStep) -> PipelineModel {
    match step {
        PipelineStep::Submit(text, line) => PipelineModel {
            submitted: s.submitted.push((text, line)),
            ..s
        },
        PipelineStep::Close => PipelineModel { closed: true, ..s },
        PipelineStep::Fetch(w) => PipelineModel {
            workers: s.workers.update(w as int, WorkerPhase::Holding(s.next)),
            takers: s.takers.push(w),
            next: s.next + 1,
            ..s
        },
        PipelineStep::Handle(w) => {
            let i = s.workers[w as int]->Holding_0;
            PipelineModel {
                workers: s.workers.update(w as int, WorkerPhase::Idle),
                handled: s.handled.insert(i),
                dispatch: s.dispatch + dispatched(s, i, w),
                ..s
            }
        },
        PipelineStep::WorkerExit(w) => PipelineModel {
            workers: s.workers.update(w as int, WorkerPhase::Exited),
            ..s
        },
        PipelineStep::Apply => {
            let c = s.dispatch[0].0;
            PipelineModel {
                store: apply_command(s.store, c).0,
                count: s.count + 1,
                applied: s.applied.push((c, s.dispatch[0].1)),
                dispatch: s.dispatch.drop_first(),
                ..s
            }
        },
        PipelineStep::OwnerExit => PipelineModel { owner_done: true, ..s },
    }
}

/// The state after `steps`, if each of them could be taken in turn.
pub open spec fn run_steps(s: PipelineModel, steps: Seq<PipelineStep>) -> Option<PipelineModel>
    decreases steps.len(),
{
    if steps.len() == 0 {
        Some(s)
    } else if enabled(s, steps[0]) {
        run_steps(step_result(s, steps[0]), steps.drop_first())
    } else {
        None
    }
}

/// The positions of the submitted units that denote a command.
pub open spec fn parsed_positions(units: Seq<(Seq<char>, nat)>) -> Set<nat> {
    Set::new(|i: nat| i < units.len() && parse_line(units[i as int].0) is Some)
}

/// The commands that `units` denote, in order, each with its sequence number.
pub open spec fn commands_of(units: Seq<(Seq<char>, nat)>) -> Seq<(CommandView, nat)>
    decreases units.len(),
{
    if units.len() == 0 {
        seq![]
    } else {
        commands_of(units.drop_last()) + unit_commands(units.last())
    }
}

/// The command that a unit denotes with its sequence number, as a sequence
/// of none or one.
pub open spec fn unit_commands(u: (Seq<char>, nat)) -> Seq<(CommandView, nat)> {
    match parse_line(u.0) {
        Some(c) => seq![(c, u.1)],
        None => seq![],
    }
}

pub open spec fn is_parsed(s: PipelineModel, i: nat) -> bool {
    i < s.submitted.len() && parse_line(s.submitted[i as int].0) is Some
}

/// What holds in every reachable state.
pub open spec fn inv(s: PipelineModel) -> bool {
    &&& s.workers.len() >= 1
    &&& s.next <= s.submitted.len()
    &&& s.takers.len() == s.next
    &&& forall|w: int|
        0 <= w < s.workers.len() ==> match #[trigger] s.workers[w] {
            WorkerPhase::Holding(i) => i < s.next && !s.handled.contains(i) && s.takers[i as int]
                == w,
            WorkerPhase::Exited => s.closed && s.next == s.submitted.len(),
            WorkerPhase::Idle => true,
        }
    &&& s.handled.finite()
    &&& forall|i: nat| #[trigger] s.handled.contains(i) ==> i < s.next
    &&& forall|i: nat|
        i < s.next ==> #[trigger] s.handled.contains(i) || s.workers[s.takers[i as int] as int]
            == WorkerPhase::Holding(i)
    &&& forall|i: nat| i < s.next ==> #[trigger] s.takers[i as int] < s.workers.len()
    &&& s.count + s.dispatch.len() == s.handled.filter(|i: nat| is_parsed(s, i)).len()
    &&& s.count == s.applied.len()
    &&& s.owner_done ==> s.dispatch.len() == 0 && forall|w: int|
        0 <= w < s.workers.len() ==> #[trigger] s.workers[w] is Exited
}

pub proof fn lemma_initial_inv(n: nat)
    requires
        n >= 1,
    ensures
        inv(initial(n)),
{
    let s = initial(n);
    assert(s.handled.filter(|i: nat| is_parsed(s, i)) =~= Set::<nat>::empty());
}

/// Every step that can be taken keeps the invariant.
pub proof fn lemma_step_inv(s: PipelineModel, step: PipelineStep)
    requires
        inv(s),
        enabled(s, step),
    ensures
        inv(step_result(s, step)),
{
    let t = step_result(s, step);
    match step {
        PipelineStep::Submit(text, line) => {
            assert forall|i: nat| i < s.next implies t.submitted[i as int] == s.submitted[i as int] by {}
            assert(t.handled.filter(|i: nat| is_parsed(t, i)) =~= s.handled.filter(
                |i: nat| is_parsed(s, i),
            ));
        },
        PipelineStep::Close => {
            assert(t.handled.filter(|i: nat| is_parsed(t, i)) =~= s.handled.filter(
                |i: nat| is_parsed(s, i),
            ));
        },
        PipelineStep::Fetch(w) => {
            assert(!s.handled.contains(s.next));
            assert forall|v: int| 0 <= v < t.workers.len() implies match #[trigger] t.workers[v] {
                WorkerPhase::Holding(i) => i < t.next && !t.handled.contains(i) && t.takers[i as int]
                    == v,
                WorkerPhase::Exited => t.closed && t.next == t.submitted.len(),
                WorkerPhase::Idle => true,
            } by {
                if v != w {
                    assert(t.workers[v] == s.workers[v]);
                }
            }
            assert forall|i: nat| i < t.next implies #[trigger] t.handled.contains(i)
                || t.workers[t.takers[i as int] as int] == WorkerPhase::Holding(i) by {
                if i < s.next {
                    if !s.handled.contains(i) {
                        let v = s.takers[i as int];
                        assert(s.workers[v as int] == WorkerPhase::Holding(i));
                        assert(v != w);
                    }
                }
            }
            assert forall|i: nat| i < t.next implies #[trigger] t.takers[i as int]
                < t.workers.len() by {
                if i < s.next {
                    assert(t.takers[i as int] == s.takers[i as int]);
                }
            }
            assert(t.handled.filter(|i: nat| is_parsed(t, i)) =~= s.handled.filter(
                |i: nat| is_parsed(s, i),
            ));
        },
        PipelineStep::Handle(w) => {
            let i = s.workers[w as int]->Holding_0;
            assert(s.workers[w as int] == WorkerPhase::Holding(i));
            assert(!s.handled.contains(i));
            assert forall|v: int| 0 <= v < t.workers.len() implies match #[trigger] t.workers[v] {
                WorkerPhase::Holding(j) => j < t.next && !t.handled.contains(j) && t.takers[j as int]
                    == v,
                WorkerPhase::Exited => t.closed && t.next == t.submitted.len(),
                WorkerPhase::Idle => true,
            } by {
                if v != w {
                    assert(t.workers[v] == s.workers[v]);
                    if let WorkerPhase::Holding(j) = s.workers[v] {
                        assert(s.takers[j as int] == v);
                        assert(j != i);
                    }
                }
            }
            assert forall|j: nat| j < t.next implies #[trigger] t.handled.contains(j)
                || t.workers[t.takers[j as int] as int] == WorkerPhase::Holding(j) by {
                if j != i && !s.handled.contains(j) {
                    let v = s.takers[j as int];
                    assert(s.workers[v as int] == WorkerPhase::Holding(j));
                    assert(v != w);
                }
            }
            let fs = s.handled.filter(|k: nat| is_parsed(s, k));
            let ft = t.handled.filter(|k: nat| is_parsed(t, k));
            if is_parsed(s, i) {
                assert(ft =~= fs.insert(i));
            } else {
                assert(ft =~= fs);
            }
        },
        PipelineStep::WorkerExit(w) => {
            assert forall|v: int| 0 <= v < t.workers.len() implies match #[trigger] t.workers[v] {
                WorkerPhase::Holding(j) => j < t.next && !t.handled.contains(j) && t.takers[j as int]
                    == v,
                WorkerPhase::Exited => t.closed && t.next == t.submitted.len(),
                WorkerPhase::Idle => true,
            } by {
                if v != w {
                    assert(t.workers[v] == s.workers[v]);
                }
            }
            assert forall|j: nat| j < t.next implies #[trigger] t.handled.contains(j)
                || t.workers[t.takers[j as int] as int] == WorkerPhase::Holding(j) by {
                if !s.handled.contains(j) {
                    let v = s.takers[j as int];
                    assert(s.workers[v as int] == WorkerPhase::Holding(j));
                    assert(v != w);
                }
            }
            assert(t.handled.filter(|i: nat| is_parsed(t, i)) =~= s.handled.filter(
                |i: nat| is_parsed(s, i),
            ));
        },
        PipelineStep::Apply => {
            assert(t.handled.filter(|i: nat| is_parsed(t, i)) =~= s.handled.filter(
                |i: nat| is_parsed(s, i),
            ));
        },
        PipelineStep::OwnerExit => {
            assert(t.handled.filter(|i: nat| is_parsed(t, i)) =~= s.handled.filter(
                |i: nat| is_parsed(s, i),
            ));
        },
    }
}

/// The invariant holds after any run from the start.
pub proof fn lemma_run_inv(s: PipelineModel, steps: Seq<PipelineStep>)
    requires
        inv(s),
        run_steps(s, steps) is Some,
    ensures
        inv(run_steps(s, steps)->0),
    decreases steps.len(),
{
    if steps.len() > 0 {
        lemma_step_inv(s, steps[0]);
        lemma_run_inv(step_result(s, steps[0]), steps.drop_first());
    }
}

/// Each submitted unit is taken by exactly one worker and handled once:
/// a unit in a worker's hand was taken by that worker alone and was not
/// handled before, every unit taken is handled or still in the hand of the
/// worker that took it, and once the pipeline has finished every submitted
/// unit has been taken and handled.
pub proof fn lemma_each_unit_handled_once(n: nat, steps: Seq<PipelineStep>)
    requires
        n >= 1,
        run_steps(initial(n), steps) is Some,
    ensures
        ({
            let s = run_steps(initial(n), steps)->0;
            &&& s.next <= s.submitted.len()
            &&& s.takers.len() == s.next
            &&& forall|w: int|
                0 <= w < s.workers.len() ==> match #[trigger] s.workers[w] {
                    WorkerPhase::Holding(i) => !s.handled.contains(i) && s.takers[i as int] == w,
                    _ => true,
                }
            &&& forall|i: nat|
                i < s.next ==> #[trigger] s.handled.contains(i) || s.workers[s.takers[i as int] as int]
                    == WorkerPhase::Holding(i)
            &&& forall|i: nat| #[trigger] s.handled.contains(i) ==> i < s.next
            &&& s.owner_done ==> s.next == s.submitted.len() && s.handled =~= Set::new(
                |i: nat| i < s.submitted.len(),
            )
        }),
{
    lemma_initial_inv(n);
    lemma_run_inv(initial(n), steps);
    let s = run_steps(initial(n), steps)->0;
    if s.owner_done {
        assert(s.workers[0] is Exited);
        assert forall|i: nat| i < s.submitted.len() implies s.handled.contains(i) by {
            let v = s.takers[i as int];
            assert(s.workers[v as int] is Exited);
        }
    }
}

/// However many workers there are and however their steps interleave, once
/// the pipeline has finished, the state owner has counted exactly the
/// submitted units that denote a command.
pub proof fn lemma_count_is_parsed_units(n: nat, steps: Seq<PipelineStep>)
    requires
        n >= 1,
        run_steps(initial(n), steps) is Some,
        run_steps(initial(n), steps)->0.owner_done,
    ensures
        ({
            let s = run_steps(initial(n), steps)->0;
            s.count == parsed_positions(s.submitted).len()
        }),
{
    lemma_each_unit_handled_once(n, steps);
    let s = run_steps(initial(n), steps)->0;
    lemma_initial_inv(n);
    lemma_run_inv(initial(n), steps);
    assert(s.handled.filter(|i: nat| is_parsed(s, i)) =~= parsed_positions(s.submitted));
}

/// A unit that denotes no command is handled without harm: nothing is
/// dispatched for it, the count and the store do not change, and the worker
/// that handled it is idle again, ready to take the next unit. Units that do
/// parse are still dispatched and counted (see the laws above).
pub proof fn lemma_parse_error_is_local(s: PipelineModel, w: nat)
    requires
        inv(s),
        enabled(s, PipelineStep::Handle(w)),
        parse_line(s.submitted[s.workers[w as int]->Holding_0 as int].0) is None,
    ensures
        ({
            let t = step_result(s, PipelineStep::Handle(w));
            &&& t.dispatch == s.dispatch
            &&& t.count == s.count
            &&& t.store == s.store
            &&& t.applied == s.applied
            &&& t.workers[w as int] is Idle
            &&& t.handled == s.handled.insert(s.workers[w as int]->Holding_0)
            &&& inv(t)
        }),
{
    let i = s.workers[w as int]->Holding_0;
    assert(dispatched(s, i, w) =~= Seq::<(CommandView, nat, nat)>::empty());
    assert(s.dispatch + dispatched(s, i, w) =~= s.dispatch);
    lemma_step_inv(s, PipelineStep::Handle(w));
}

pub open spec fn phase_weight(p: WorkerPhase) -> nat {
    match p {
        WorkerPhase::Idle => 1,
        WorkerPhase::Holding(_) => 3,
        WorkerPhase::Exited => 0,
    }
}

pub open spec fn workers_weight(ws: Seq<WorkerPhase>) -> nat
    decreases ws.len(),
{
    if ws.len() == 0 {
        0
    } else {
        workers_weight(ws.drop_last()) + phase_weight(ws.last())
    }
}

/// A bound on the number of steps left once submission is closed.
pub open spec fn work_left(s: PipelineModel) -> nat {
    3 * (s.submitted.len() - s.next) as nat + workers_weight(s.workers) + s.dispatch.len() + (if s.owner_done {
        0nat
    } else {
        1nat
    }) + (if s.closed {
        0nat
    } else {
        1nat
    })
}

proof fn lemma_workers_weight_update(ws: Seq<WorkerPhase>, w: int, p: WorkerPhase)
    requires
        0 <= w < ws.len(),
    ensures
        workers_weight(ws.update(w, p)) + phase_weight(ws[w]) == workers_weight(ws) + phase_weight(
            p,
        ),
    decreases ws.len(),
{
    let u = ws.update(w, p);
    if w == ws.len() - 1 {
        assert(u.drop_last() =~= ws.drop_last());
    } else {
        assert(u.drop_last() =~= ws.drop_last().update(w, p));
        lemma_workers_weight_update(ws.drop_last(), w, p);
    }
}

/// A step that the pipeline can take next once submission is closed.
pub open spec fn progress_step(s: PipelineModel) -> PipelineStep {
    if exists|w: int| 0 <= w < s.workers.len() && #[trigger] s.workers[w] is Holding {
        PipelineStep::Handle(
            (choose|w: int| 0 <= w < s.workers.len() && #[trigger] s.workers[w] is Holding) as nat,
        )
    } else if exists|w: int| 0 <= w < s.workers.len() && #[trigger] s.workers[w] is Idle {
        let w = (choose|w: int| 0 <= w < s.workers.len() && #[trigger] s.workers[w] is Idle) as nat;
        if s.next < s.submitted.len() {
            PipelineStep::Fetch(w)
        } else {
            PipelineStep::WorkerExit(w)
        }
    } else if s.dispatch.len() > 0 {
        PipelineStep::Apply
    } else {
        PipelineStep::OwnerExit
    }
}

/// Shutdown cannot deadlock and always ends: once submission is closed,
/// until the state owner has finished some step can always be taken, and
/// every step that can be taken shrinks the work left, so at most
/// `work_left(s)` steps remain. This holds for any number of workers and
/// any number of submitted units, none included.
pub proof fn lemma_shutdown_terminates(s: PipelineModel, step: PipelineStep)
    requires
        inv(s),
        s.closed,
    ensures
        !s.owner_done ==> enabled(s, progress_step(s)),
        enabled(s, step) ==> work_left(step_result(s, step)) < work_left(s),
{
    if !s.owner_done {
        if exists|w: int| 0 <= w < s.workers.len() && #[trigger] s.workers[w] is Holding {
        } else if exists|w: int| 0 <= w < s.workers.len() && #[trigger] s.workers[w] is Idle {
        } else {
            assert forall|w: int| 0 <= w < s.workers.len() implies #[trigger] s.workers[w] is Exited by {
                assert(!(s.workers[w] is Holding));
                assert(!(s.workers[w] is Idle));
            }
        }
    }
    if enabled(s, step) {
        match step {
            PipelineStep::Fetch(w) => {
                lemma_workers_weight_update(s.workers, w as int, WorkerPhase::Holding(s.next));
            },
            PipelineStep::Handle(w) => {
                lemma_workers_weight_update(s.workers, w as int, WorkerPhase::Idle);
                let i = s.workers[w as int]->Holding_0;
                assert(dispatched(s, i, w).len() <= 1);
            },
            PipelineStep::WorkerExit(w) => {
                lemma_workers_weight_update(s.workers, w as int, WorkerPhase::Exited);
            },
            _ => {},
        }
    }
}

/// Whether the sequence numbers of `units` increase strictly.
pub open spec fn increasing_lines(units: Seq<(Seq<char>, nat)>) -> bool {
    forall|a: int, b: int| 0 <= a < b < units.len() ==> #[trigger] units[a].1 < #[trigger] units[b].1
}

proof fn lemma_increasing_prefix(units: Seq<(Seq<char>, nat)>, n: int)
    requires
        increasing_lines(units),
        0 <= n <= units.len(),
    ensures
        increasing_lines(units.take(n)),
{
    assert forall|a: int, b: int| 0 <= a < b < n implies #[trigger] units.take(n)[a].1
        < #[trigger] units.take(n)[b].1 by {
        assert(units[a].1 < units[b].1);
    }
}

/// The commands of units with increasing sequence numbers carry increasing
/// sequence numbers, each that of one of the units.
proof fn lemma_commands_keep_order(units: Seq<(Seq<char>, nat)>)
    requires
        increasing_lines(units),
    ensures
        forall|a: int, b: int|
            0 <= a < b < commands_of(units).len() ==> #[trigger] commands_of(units)[a].1
                < #[trigger] commands_of(units)[b].1,
        forall|a: int|
            0 <= a < commands_of(units).len() ==> exists|k: int|
                0 <= k < units.len() && #[trigger] commands_of(units)[a].1 == units[k].1,
    decreases units.len(),
{
    if units.len() > 0 {
        let init = units.drop_last();
        assert forall|a: int, b: int| 0 <= a < b < init.len() implies #[trigger] init[a].1
            < #[trigger] init[b].1 by {
            assert(units[a].1 < units[b].1);
        }
        lemma_commands_keep_order(init);
        let c = commands_of(units);
        let ci = commands_of(init);
        assert(c == ci + unit_commands(units.last()));
        assert forall|a: int| 0 <= a < c.len() implies exists|k: int|
            0 <= k < units.len() && #[trigger] c[a].1 == units[k].1 by {
            if a < ci.len() {
                let k = choose|k: int| 0 <= k < init.len() && #[trigger] ci[a].1 == init[k].1;
                assert(c[a].1 == units[k].1);
            } else {
                assert(c[a].1 == units[units.len() - 1].1);
            }
        }
        assert forall|a: int, b: int| 0 <= a < b < c.len() implies #[trigger] c[a].1
            < #[trigger] c[b].1 by {
            if b < ci.len() {
                assert(c[a] == ci[a] && c[b] == ci[b]);
            } else {
                let k = choose|k: int| 0 <= k < init.len() && #[trigger] ci[a].1 == init[k].1;
                assert(c[a] == ci[a]);
                assert(c[b].1 == units[units.len() - 1].1);
                assert(units[k].1 < units[units.len() - 1].1);
            }
        }
    }
}

/// The commands on their way through the pipeline when there is a single
/// worker: applied, in the dispatch channel, then in the worker's hand.
pub open spec fn commands_in_order(s: PipelineModel) -> Seq<(CommandView, nat)> {
    s.applied + s.dispatch.map_values(|m: (CommandView, nat, nat)| (m.0, m.1)) + match s.workers[0] {
        WorkerPhase::Holding(i) => unit_commands(s.submitted[i as int]),
        _ => seq![],
    }
}

pub open spec fn single_worker_inv(s: PipelineModel) -> bool {
    &&& s.workers.len() == 1
    &&& (s.workers[0] is Holding ==> s.workers[0]->Holding_0 + 1 == s.next)
    &&& commands_in_order(s) == commands_of(s.submitted.take(s.next as int))
}

proof fn lemma_single_worker_step(s: PipelineModel, step: PipelineStep)
    requires
        inv(s),
        single_worker_inv(s),
        enabled(s, step),
    ensures
        single_worker_inv(step_result(s, step)),
{
    let t = step_result(s, step);
    let proj = |m: (CommandView, nat, nat)| (m.0, m.1);
    match step {
        PipelineStep::Submit(text, line) => {
            assert(t.submitted.take(t.next as int) =~= s.submitted.take(s.next as int));
            if let WorkerPhase::Holding(i) = s.workers[0] {
                assert(t.submitted[i as int] == s.submitted[i as int]);
            }
            assert(commands_in_order(t) == commands_in_order(s));
        },
        PipelineStep::Fetch(w) => {
            assert(t.submitted.take(t.next as int).drop_last() =~= s.submitted.take(s.next as int));
            assert(t.workers[0] == WorkerPhase::Holding(s.next));
            assert(commands_in_order(t) =~= commands_in_order(s) + unit_commands(
                s.submitted[s.next as int],
            ));
        },
        PipelineStep::Handle(w) => {
            let i = s.workers[0]->Holding_0;
            assert(dispatched(s, i, w).map_values(proj) =~= unit_commands(s.submitted[i as int]));
            assert((s.dispatch + dispatched(s, i, w)).map_values(proj) =~= s.dispatch.map_values(proj)
                + dispatched(s, i, w).map_values(proj));
            assert(commands_in_order(t) =~= commands_in_order(s));
        },
        PipelineStep::WorkerExit(w) => {
            assert(commands_in_order(t) =~= commands_in_order(s));
        },
        PipelineStep::Apply => {
            assert(commands_in_order(t) =~= commands_in_order(s));
        },
        _ => {},
    }
}

proof fn lemma_single_worker_run(s: PipelineModel, steps: Seq<PipelineStep>)
    requires
        inv(s),
        single_worker_inv(s),
        run_steps(s, steps) is Some,
    ensures
        single_worker_inv(run_steps(s, steps)->0),
    decreases steps.len(),
{
    if steps.len() > 0 {
        lemma_single_worker_step(s, steps[0]);
        lemma_step_inv(s, steps[0]);
        lemma_single_worker_run(step_result(s, steps[0]), steps.drop_first());
    }
}

/// With exactly one worker, the commands are applied in the order in which
/// their units were submitted, each with its unit's sequence number: what
/// was applied, then what is in the dispatch channel, then what the worker
/// holds, is always the commands of the units taken so far, in order; once
/// the pipeline has finished, the applied commands are those of all
/// submitted units, in order. So when the units were submitted with
/// increasing sequence numbers, the applied ones increase too.
pub proof fn lemma_single_worker_keeps_order(steps: Seq<PipelineStep>)
    requires
        run_steps(initial(1), steps) is Some,
    ensures
        ({
            let s = run_steps(initial(1), steps)->0;
            &&& commands_in_order(s) == commands_of(s.submitted.take(s.next as int))
            &&& s.owner_done ==> s.applied == commands_of(s.submitted)
            &&& increasing_lines(s.submitted) ==> forall|a: int, b: int|
                0 <= a < b < s.applied.len() ==> #[trigger] s.applied[a].1 < #[trigger] s.applied[b].1
        }),
{
    let s0 = initial(1);
    lemma_initial_inv(1);
    assert(s0.submitted.take(0) =~= Seq::<(Seq<char>, nat)>::empty());
    assert(commands_in_order(s0) =~= Seq::<(CommandView, nat)>::empty());
    lemma_single_worker_run(s0, steps);
    lemma_run_inv(s0, steps);
    let s = run_steps(s0, steps)->0;
    if increasing_lines(s.submitted) {
        lemma_increasing_prefix(s.submitted, s.next as int);
        lemma_commands_keep_order(s.submitted.take(s.next as int));
        assert forall|a: int, b: int| 0 <= a < b < s.applied.len() implies #[trigger] s.applied[a].1
            < #[trigger] s.applied[b].1 by {
            assert(s.applied[a] == commands_in_order(s)[a]);
            assert(s.applied[b] == commands_in_order(s)[b]);
        }
    }
    if s.owner_done {
        lemma_each_unit_handled_once(1, steps);
        assert(s.workers[0] is Exited);
        assert(s.submitted.take(s.next as int) =~= s.submitted);
        assert(s.dispatch.map_values(|m: (CommandView, nat, nat)| (m.0, m.1)) =~= Seq::<
            (CommandView, nat),
        >::empty());
        assert(commands_in_order(s) =~= s.applied);
    }
}

} // verus!

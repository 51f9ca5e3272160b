//! The decisions of a job's execution task: admission, sequential
//! sub-operations with pacing, one retry after a rate-limited failure, and
//! cooperative cancellation. The task that runs a job performs each
//! [`Action`] and reports what happened as an [`Event`].

use crate::dto::GenerateResponse;
use crate::job::{JobStatus, StatusView};
use crate::outside::draw_between;
use vstd::prelude::*;

verus! {

/// The extra wait, in seconds, before the single retry of a rate-limited
/// sub-operation.
pub const RATE_LIMIT_BACKOFF_SECS: u64 = 20;

/// How many jobs may run at once unless configured otherwise.
pub const DEFAULT_ADMISSION_CAPACITY: usize = 1;

/// Where a job's execution task stands.
#[derive(Debug, Clone, Copy, PartialEq, Eq, Structural)]
pub enum Phase {
    /// Waiting for an admission permit, racing cancellation.
    AwaitingAdmission,
    /// Admitted; the status is being set to `Running`.
    Starting,
    /// A sub-operation is in flight.
    Calling,
    /// Waiting before the retry of a rate-limited sub-operation.
    BackingOff,
    /// Pacing delay between two sub-operations.
    CoolingDown,
    /// The final status has been decided.
    Finished,
}

/// What the task observed after performing the last action.
#[derive(Debug)]
pub enum Event {
    /// The admission permit was granted.
    Admitted,
    /// Cancellation won the race against admission.
    AdmissionCancelled,
    /// The admission limiter failed.
    AdmissionFailed(String),
    /// The last action (status update, backoff or cooldown) is over.
    Proceed,
    /// The sub-operation produced an output.
    CallSucceeded(GenerateResponse),
    /// The sub-operation failed; `rate_limited` tells whether the service
    /// refused for excess request rate.
    CallFailed { message: String, rate_limited: bool },
}

/// How a job ends.
#[derive(Debug)]
pub enum Verdict {
    Succeeded,
    Failed(String),
    Cancelled,
}

/// What the task must do next.
#[derive(Debug)]
pub enum Action {
    /// Set the job's status to `Running`, then report `Proceed`.
    MarkRunning,
    /// Perform one sub-operation and report its outcome.
    Call,
    /// Wait `RATE_LIMIT_BACKOFF_SECS` (interruptible), then report `Proceed`.
    Backoff,
    /// Wait the pacing delay (interruptible), then report `Proceed`.
    Cooldown,
    /// Release the admission permit, if held, and record the final status.
    Finish(Verdict),
    /// Nothing: the event does not apply in this phase.
    Idle,
}

/// The mathematical value of a [`JobRun`].
pub struct RunView {
    pub phase: Phase,
    pub quantity: nat,
    pub outputs: Seq<GenerateResponse>,
    pub attempt: nat,
    pub calls: nat,
    pub retry_error: Option<String>,
}

/// The number of sub-operations a request asks for: one when absent or zero.
pub open spec fn effective_quantity(requested: Option<u32>) -> nat {
    match requested {
        Some(q) => if q == 0 { 1 } else { q as nat },
        None => 1,
    }
}

pub open spec fn initial_run(requested: Option<u32>) -> RunView {
    RunView {
        phase: Phase::AwaitingAdmission,
        quantity: effective_quantity(requested),
        outputs: Seq::empty(),
        attempt: 0,
        calls: 0,
        retry_error: None,
    }
}

/// The final decision: a signalled cancellation overrides every other
/// outcome.
pub open spec fn finish(v: RunView, cancelled: bool, verdict: Verdict) -> (RunView, Action) {
    (
        RunView { phase: Phase::Finished, retry_error: None, ..v },
        Action::Finish(if cancelled { Verdict::Cancelled } else { verdict }),
    )
}

/// Before each sub-operation: stop when all are done or cancellation is
/// signalled, otherwise make the first attempt of the next one.
pub open spec fn next_iteration(v: RunView, cancelled: bool) -> (RunView, Action) {
    if v.outputs.len() >= v.quantity {
        finish(v, cancelled, Verdict::Succeeded)
    } else if cancelled {
        finish(v, cancelled, Verdict::Cancelled)
    } else {
        (RunView { phase: Phase::Calling, attempt: 1, calls: v.calls + 1, ..v }, Action::Call)
    }
}

/// One decision of the execution task, given the event and whether the job's
/// cancellation handle is signalled at the moment of deciding.
pub open spec fn transition(v: RunView, e: Event, cancelled: bool) -> (RunView, Action) {
    match v.phase {
        Phase::AwaitingAdmission => match e {
            Event::Admitted => (RunView { phase: Phase::Starting, ..v }, Action::MarkRunning),
            Event::AdmissionCancelled => finish(v, true, Verdict::Cancelled),
            Event::AdmissionFailed(m) => finish(v, cancelled, Verdict::Failed(m)),
            _ => (v, Action::Idle),
        },
        Phase::Starting | Phase::CoolingDown => match e {
            Event::Proceed => next_iteration(v, cancelled),
            _ => (v, Action::Idle),
        },
        Phase::Calling => match e {
            Event::CallSucceeded(o) => {
                let w = RunView { outputs: v.outputs.push(o), ..v };
                if w.outputs.len() >= w.quantity {
                    finish(w, cancelled, Verdict::Succeeded)
                } else {
                    (RunView { phase: Phase::CoolingDown, ..w }, Action::Cooldown)
                }
            },
            Event::CallFailed { message, rate_limited } => {
                if v.attempt == 1 && rate_limited && !cancelled {
                    (
                        RunView { phase: Phase::BackingOff, retry_error: Some(message), ..v },
                        Action::Backoff,
                    )
                } else {
                    finish(v, cancelled, Verdict::Failed(message))
                }
            },
            _ => (v, Action::Idle),
        },
        Phase::BackingOff => match e {
            Event::Proceed => {
                if cancelled {
                    finish(v, cancelled, Verdict::Failed(v.retry_error.unwrap()))
                } else {
                    (
                        RunView {
                            phase: Phase::Calling,
                            attempt: 2,
                            calls: v.calls + 1,
                            retry_error: None,
                            ..v
                        },
                        Action::Call,
                    )
                }
            },
            _ => (v, Action::Idle),
        },
        Phase::Finished => (v, Action::Idle),
    }
}

/// The execution state of one job.
pub struct JobRun {
    phase: Phase,
    quantity: u64,
    outputs: Vec<GenerateResponse>,
    attempt: u64,
    calls: u64,
    retry_error: Option<String>,
}

impl View for JobRun {
    type V = RunView;

    closed spec fn view(&self) -> RunView {
        RunView {
            phase: self.phase,
            quantity: self.quantity as nat,
            outputs: self.outputs@,
            attempt: self.attempt as nat,
            calls: self.calls as nat,
            retry_error: self.retry_error,
        }
    }
}

/// The invariant of a job's execution state.
pub open spec fn run_ok(v: RunView) -> bool {
    &&& 1 <= v.quantity <= u32::MAX
    &&& v.outputs.len() <= v.quantity
    &&& v.attempt <= 2
    &&& v.calls <= 2 * v.outputs.len() + v.attempt
    &&& (v.phase is Calling ==> 1 <= v.attempt && v.outputs.len() < v.quantity)
    &&& (v.phase is BackingOff ==> v.attempt == 1 && v.retry_error is Some && v.outputs.len() < v.quantity)
    &&& (v.phase is CoolingDown ==> v.outputs.len() < v.quantity)
    &&& (v.phase is AwaitingAdmission || v.phase is Starting || v.phase is CoolingDown
        ==> v.calls <= 2 * v.outputs.len())
}

impl JobRun {
    pub open spec fn wf(&self) -> bool {
        run_ok(self@)
    }

    /// A job waiting for admission that will run the requested number of
    /// sub-operations (one when absent or zero).
    pub fn new(requested: Option<u32>) -> (r: JobRun)
        ensures
            r@ == initial_run(requested),
            r.wf(),
    {
        let q: u64 = match requested {
            Some(q) => if q == 0 { 1 } else { q as u64 },
            None => 1,
        };
        let r = JobRun {
            phase: Phase::AwaitingAdmission,
            quantity: q,
            outputs: Vec::new(),
            attempt: 0,
            calls: 0,
            retry_error: None,
        };
        assert(r@.outputs =~= Seq::<GenerateResponse>::empty());
        r
    }

    /// The current phase.
    pub fn phase(&self) -> (r: Phase)
        ensures
            r == self@.phase,
    {
        self.phase
    }

    /// How many sub-operations the job runs.
    pub fn quantity(&self) -> (r: u64)
        ensures
            r == self@.quantity,
    {
        self.quantity
    }

    /// How many calls to the generation service were asked for so far.
    pub fn calls(&self) -> (r: u64)
        ensures
            r == self@.calls,
    {
        self.calls
    }

    /// How many outputs were collected so far.
    pub fn outputs_len(&self) -> (r: usize)
        ensures
            r == self@.outputs.len(),
    {
        self.outputs.len()
    }

    fn finish(&mut self, cancelled: bool, verdict: Verdict) -> (r: Action)
        ensures
            (final(self)@, r) == finish(old(self)@, cancelled, verdict),
    {
        self.phase = Phase::Finished;
        self.retry_error = None;
        Action::Finish(if cancelled { Verdict::Cancelled } else { verdict })
    }

    fn next_iteration(&mut self, cancelled: bool) -> (r: Action)
        requires
            run_ok(old(self)@),
            old(self)@.phase is Starting || old(self)@.phase is CoolingDown,
        ensures
            (final(self)@, r) == next_iteration(old(self)@, cancelled),
            run_ok(final(self)@),
    {
        if self.outputs.len() as u64 >= self.quantity {
            self.finish(cancelled, Verdict::Succeeded)
        } else if cancelled {
            self.finish(cancelled, Verdict::Cancelled)
        } else {
            self.phase = Phase::Calling;
            self.attempt = 1;
            self.calls = self.calls + 1;
            Action::Call
        }
    }

    /// Takes one decision; see [`transition`].
    pub fn step(&mut self, event: Event, cancelled: bool) -> (r: Action)
        requires
            old(self).wf(),
        ensures
            final(self).wf(),
            (final(self)@, r) == transition(old(self)@, event, cancelled),
    {
        match self.phase {
            Phase::AwaitingAdmission => match event {
                Event::Admitted => {
                    self.phase = Phase::Starting;
                    Action::MarkRunning
                },
                Event::AdmissionCancelled => self.finish(true, Verdict::Cancelled),
                Event::AdmissionFailed(m) => self.finish(cancelled, Verdict::Failed(m)),
                _ => Action::Idle,
            },
            Phase::Starting | Phase::CoolingDown => match event {
                Event::Proceed => self.next_iteration(cancelled),
                _ => Action::Idle,
            },
            Phase::Calling => match event {
                Event::CallSucceeded(o) => {
                    self.outputs.push(o);
                    if self.outputs.len() as u64 >= self.quantity {
                        self.finish(cancelled, Verdict::Succeeded)
                    } else {
                        self.phase = Phase::CoolingDown;
                        Action::Cooldown
                    }
                },
                Event::CallFailed { message, rate_limited } => {
                    if self.attempt == 1 && rate_limited && !cancelled {
                        self.phase = Phase::BackingOff;
                        self.retry_error = Some(message);
                        Action::Backoff
                    } else {
                        self.finish(cancelled, Verdict::Failed(message))
                    }
                },
                _ => Action::Idle,
            },
            Phase::BackingOff => match event {
                Event::Proceed => {
                    if cancelled {
                        let m = self.retry_error.take().unwrap();
                        self.finish(cancelled, Verdict::Failed(m))
                    } else {
                        self.phase = Phase::Calling;
                        self.attempt = 2;
                        self.calls = self.calls + 1;
                        self.retry_error = None;
                        Action::Call
                    }
                },
                _ => Action::Idle,
            },
            Phase::Finished => Action::Idle,
        }
    }

    /// The job status that a verdict stands for. A success carries the
    /// collected outputs; a failure or a cancellation drops them.
    pub fn final_status(&mut self, verdict: Verdict) -> (r: JobStatus)
        ensures
            r@ == match verdict {
                Verdict::Succeeded => StatusView::Succeeded(old(self)@.outputs),
                Verdict::Failed(m) => StatusView::Failed(m@),
                Verdict::Cancelled => StatusView::Cancelled,
            },
            final(self)@.phase == old(self)@.phase,
    {
        match verdict {
            Verdict::Succeeded => {
                let mut outputs: Vec<GenerateResponse> = Vec::new();
                std::mem::swap(&mut outputs, &mut self.outputs);
                JobStatus::Succeeded { outputs }
            },
            Verdict::Failed(m) => JobStatus::Failed { error: m },
            Verdict::Cancelled => JobStatus::Cancelled,
        }
    }
}

/// Pacing between two sub-operations, in milliseconds: a base delay and a
/// jitter bound.
#[derive(Debug, Clone, Copy)]
pub struct PacingConfig {
    pub base_ms: u64,
    pub jitter_ms: u64,
}

/// The range `[|base - jitter|, base + jitter]` of the pacing delay, or none
/// when the base is zero: then there is no delay at all.
pub open spec fn cooldown_bounds_spec(base: u64, jitter: u64) -> Option<(u64, u64)> {
    if base == 0 {
        None
    } else {
        Some(
            (
                if base >= jitter { (base - jitter) as u64 } else { (jitter - base) as u64 },
                (base + jitter) as u64,
            ),
        )
    }
}

/// See [`cooldown_bounds_spec`].
pub fn cooldown_bounds(cfg: &PacingConfig) -> (r: Option<(u64, u64)>)
    requires
        cfg.base_ms + cfg.jitter_ms <= u64::MAX,
    ensures
        r == cooldown_bounds_spec(cfg.base_ms, cfg.jitter_ms),
{
    if cfg.base_ms == 0 {
        return None;
    }
    let lo = if cfg.base_ms >= cfg.jitter_ms {
        cfg.base_ms - cfg.jitter_ms
    } else {
        cfg.jitter_ms - cfg.base_ms
    };
    Some((lo, cfg.base_ms + cfg.jitter_ms))
}

/// The pacing delay to wait, in milliseconds: none when the base is zero;
/// the lower bound when the range is a single point; otherwise a value drawn
/// uniformly from the range.
pub fn cooldown_delay_ms(cfg: &PacingConfig) -> (r: Option<u64>)
    requires
        cfg.base_ms + cfg.jitter_ms <= u64::MAX,
    ensures
        r is None <==> cfg.base_ms == 0,
        r matches Some(d) ==> cooldown_bounds_spec(cfg.base_ms, cfg.jitter_ms) matches Some((lo, hi))
            && lo <= d <= hi && (hi <= lo ==> d == lo),
{
    match cooldown_bounds(cfg) {
        None => None,
        Some((lo, hi)) => {
            if hi <= lo {
                Some(lo)
            } else {
                Some(draw_between(lo, hi))
            }
        },
    }
}

/// The actions taken for a sequence of (event, cancellation signalled)
/// observations, starting from `v`.
pub open spec fn replay(v: RunView, evs: Seq<(Event, bool)>) -> Seq<Action>
    decreases evs.len(),
{
    if evs.len() == 0 {
        Seq::empty()
    } else {
        let (w, a) = transition(v, evs[0].0, evs[0].1);
        seq![a] + replay(w, evs.skip(1))
    }
}

/// The state reached after the observations `evs`, starting from `v`.
pub open spec fn replay_state(v: RunView, evs: Seq<(Event, bool)>) -> RunView
    decreases evs.len(),
{
    if evs.len() == 0 {
        v
    } else {
        replay_state(transition(v, evs[0].0, evs[0].1).0, evs.skip(1))
    }
}

proof fn lemma_finished_stays(v: RunView, evs: Seq<(Event, bool)>)
    requires
        v.phase is Finished,
    ensures
        replay_state(v, evs) == v,
        replay(v, evs).len() == evs.len(),
        forall|k: int| 0 <= k < evs.len() ==> replay(v, evs)[k] is Idle,
    decreases evs.len(),
{
    if evs.len() > 0 {
        lemma_finished_stays(v, evs.skip(1));
        let r = replay(v, evs);
        assert forall|k: int| 0 <= k < evs.len() implies r[k] is Idle by {
            if k > 0 {
                assert(r[k] == replay(v, evs.skip(1))[k - 1]);
            }
        }
    }
}

proof fn lemma_replay_len(v: RunView, evs: Seq<(Event, bool)>)
    ensures
        replay(v, evs).len() == evs.len(),
    decreases evs.len(),
{
    if evs.len() > 0 {
        lemma_replay_len(transition(v, evs[0].0, evs[0].1).0, evs.skip(1));
    }
}

/// Once the task has been told to record a final status it is never told to
/// record another: every later decision is `Idle`, whatever is observed.
pub proof fn lemma_finish_is_last(v: RunView, evs: Seq<(Event, bool)>, k: int)
    requires
        0 <= k < evs.len(),
        replay(v, evs)[k] is Finish,
    ensures
        forall|m: int| k < m < evs.len() ==> replay(v, evs)[m] is Idle,
    decreases evs.len(),
{
    lemma_replay_len(v, evs);
    let (w, a) = transition(v, evs[0].0, evs[0].1);
    let r = replay(v, evs);
    if k == 0 {
        assert(a is Finish);
        assert(w.phase is Finished);
        lemma_finished_stays(w, evs.skip(1));
        assert forall|m: int| k < m < evs.len() implies r[m] is Idle by {
            assert(r[m] == replay(w, evs.skip(1))[m - 1]);
        }
    } else {
        assert(r[k] == replay(w, evs.skip(1))[k - 1]);
        lemma_finish_is_last(w, evs.skip(1), k - 1);
        assert forall|m: int| k < m < evs.len() implies r[m] is Idle by {
            assert(r[m] == replay(w, evs.skip(1))[m - 1]);
        }
    }
}

/// A job cancelled while it waits for admission ends `Cancelled` at once and
/// never calls the generation service, whatever is observed afterwards.
pub proof fn lemma_cancel_before_admission(requested: Option<u32>, evs: Seq<(Event, bool)>)
    requires
        evs.len() >= 1,
        evs[0].0 is AdmissionCancelled,
    ensures
        replay(initial_run(requested), evs)[0] == Action::Finish(Verdict::Cancelled),
        forall|m: int| 0 <= m < evs.len() ==> !(replay(initial_run(requested), evs)[m] is Call),
        replay_state(initial_run(requested), evs).calls == 0,
{
    let v = initial_run(requested);
    let (w, a) = transition(v, evs[0].0, evs[0].1);
    assert(w.phase is Finished && w.calls == 0);
    lemma_finished_stays(w, evs.skip(1));
    let r = replay(v, evs);
    assert forall|m: int| 0 <= m < evs.len() implies !(r[m] is Call) by {
        if m > 0 {
            assert(r[m] == replay(w, evs.skip(1))[m - 1]);
        }
    }
}

/// When cancellation is signalled at the moment of the final decision the
/// job ends `Cancelled`: outputs already collected are never reported as a
/// success, and a failure is not reported either.
pub proof fn lemma_cancel_discards_outputs(v: RunView, e: Event)
    requires
        transition(v, e, true).1 is Finish,
    ensures
        transition(v, e, true).1 == Action::Finish(Verdict::Cancelled),
{
}

/// A sub-operation that fails with a rate-limited error every time is
/// attempted exactly twice, then the job fails with the second error.
pub proof fn lemma_retry_bound(v: RunView, first: String, second: String)
    requires
        run_ok(v),
        v.phase is Calling,
        v.attempt == 1,
    ensures
        ({
            let evs = seq![
                (Event::CallFailed { message: first, rate_limited: true }, false),
                (Event::Proceed, false),
                (Event::CallFailed { message: second, rate_limited: true }, false),
            ];
            &&& replay(v, evs) == seq![
                Action::Backoff,
                Action::Call,
                Action::Finish(Verdict::Failed(second)),
            ]
            &&& replay_state(v, evs).calls == v.calls + 1
            &&& replay_state(v, evs).phase is Finished
        }),
{
    let evs = seq![
        (Event::CallFailed { message: first, rate_limited: true }, false),
        (Event::Proceed, false),
        (Event::CallFailed { message: second, rate_limited: true }, false),
    ];
    let e2 = evs.skip(1);
    let e3 = e2.skip(1);
    let e4 = e3.skip(1);
    assert(e2[0] == evs[1]);
    assert(e3[0] == evs[2]);
    assert(e4.len() == 0);
    let (v1, a1) = transition(v, evs[0].0, evs[0].1);
    let (v2, a2) = transition(v1, e2[0].0, e2[0].1);
    let (v3, a3) = transition(v2, e3[0].0, e3[0].1);
    assert(a1 == Action::Backoff && v1.calls == v.calls);
    assert(a2 == Action::Call && v2.calls == v.calls + 1 && v2.attempt == 2);
    assert(a3 == Action::Finish(Verdict::Failed(second)) && v3.calls == v.calls + 1);
    assert(replay(v3, e4) == Seq::<Action>::empty());
    assert(replay_state(v3, e4) == v3);
    assert(replay(v2, e3) == seq![a3] + replay(v3, e4));
    assert(replay(v2, e3) =~= seq![a3]);
    assert(replay(v1, e2) == seq![a2] + replay(v2, e3));
    assert(replay(v1, e2) =~= seq![a2, a3]);
    assert(replay(v, evs) == seq![a1] + replay(v1, e2));
    assert(replay(v, evs) =~= seq![a1, a2, a3]);
    assert(replay_state(v2, e3) == replay_state(v3, e4));
    assert(replay_state(v1, e2) == replay_state(v2, e3));
    assert(replay_state(v, evs) == replay_state(v1, e2));
}

/// No admission, no work: until an `Admitted` event has been observed the
/// task is never told to mark the job running or to call the service.
pub proof fn lemma_no_work_before_admission(v: RunView, evs: Seq<(Event, bool)>)
    requires
        v.phase is AwaitingAdmission || v.phase is Finished,
        forall|k: int| 0 <= k < evs.len() ==> !((#[trigger] evs[k]).0 is Admitted),
    ensures
        forall|m: int| 0 <= m < replay(v, evs).len() ==> !(replay(v, evs)[m] is Call) && !(replay(v, evs)[m] is MarkRunning),
    decreases evs.len(),
{
    lemma_replay_len(v, evs);
    if evs.len() > 0 {
        let (w, a) = transition(v, evs[0].0, evs[0].1);
        assert(!(evs[0].0 is Admitted));
        assert(w.phase is AwaitingAdmission || w.phase is Finished);
        let t = evs.skip(1);
        assert forall|k: int| 0 <= k < t.len() implies !((#[trigger] t[k]).0 is Admitted) by {
            assert(t[k] == evs[k + 1]);
        }
        lemma_no_work_before_admission(w, t);
        lemma_replay_len(w, t);
        let r = replay(v, evs);
        assert forall|m: int| 0 <= m < r.len() implies !(r[m] is Call) && !(r[m] is MarkRunning) by {
            if m > 0 {
                assert(r[m] == replay(w, t)[m - 1]);
            }
        }
    }
}

} // verus!

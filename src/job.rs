//! The job registry: an in-memory table of job records with a bounded
//! retention policy for finished jobs.

use crate::dto::{duplicate_outputs, GenerateResponse};
use crate::outside::draw_between;
use tokio_util::sync::CancellationToken;
use vstd::prelude::*;

verus! {

/// How many finished records the registry keeps, the most recently created.
pub const TERMINAL_WINDOW: usize = 3;

/// The category of work a job performs.
#[derive(Debug, Clone, Copy, PartialEq, Eq, Structural)]
pub enum JobKind {
    T2i,
    I2i,
    Inpaint,
    Character,
}

pub open spec fn kind_name(k: JobKind) -> Seq<char> {
    match k {
        JobKind::T2i => "t2i"@,
        JobKind::I2i => "i2i"@,
        JobKind::Inpaint => "inpaint"@,
        JobKind::Character => "character"@,
    }
}

impl JobKind {
    /// The short name under which the kind is reported.
    pub fn as_str(self) -> (r: &'static str)
        ensures
            r@ == kind_name(self),
    {
        match self {
            JobKind::T2i => "t2i",
            JobKind::I2i => "i2i",
            JobKind::Inpaint => "inpaint",
            JobKind::Character => "character",
        }
    }
}

/// Where a job stands. Exactly one variant holds at a time.
#[derive(Debug)]
pub enum JobStatus {
    Queued,
    Running,
    Succeeded { outputs: Vec<GenerateResponse> },
    Failed { error: String },
    Cancelled,
}

/// The mathematical value of a [`JobStatus`].
pub enum StatusView {
    Queued,
    Running,
    Succeeded(Seq<GenerateResponse>),
    Failed(Seq<char>),
    Cancelled,
}

impl StatusView {
    /// Succeeded, Failed and Cancelled are terminal.
    pub open spec fn is_final(self) -> bool {
        self is Succeeded || self is Failed || self is Cancelled
    }
}

impl View for JobStatus {
    type V = StatusView;

    open spec fn view(&self) -> StatusView {
        match self {
            JobStatus::Queued => StatusView::Queued,
            JobStatus::Running => StatusView::Running,
            JobStatus::Succeeded { outputs } => StatusView::Succeeded(outputs@),
            JobStatus::Failed { error } => StatusView::Failed(error@),
            JobStatus::Cancelled => StatusView::Cancelled,
        }
    }
}

impl JobStatus {
    /// An independent copy of the status.
    pub fn duplicate(&self) -> (r: JobStatus)
        ensures
            r@ == self@,
    {
        match self {
            JobStatus::Queued => JobStatus::Queued,
            JobStatus::Running => JobStatus::Running,
            JobStatus::Succeeded { outputs } => JobStatus::Succeeded {
                outputs: duplicate_outputs(outputs),
            },
            JobStatus::Failed { error } => JobStatus::Failed { error: error.clone() },
            JobStatus::Cancelled => JobStatus::Cancelled,
        }
    }
}

/// Whether a status is terminal.
pub fn is_terminal(status: &JobStatus) -> (r: bool)
    ensures
        r == status@.is_final(),
{
    match status {
        JobStatus::Succeeded { .. } | JobStatus::Failed { .. } | JobStatus::Cancelled => true,
        _ => false,
    }
}

/// One job as the registry holds it.
pub struct JobRecord {
    id: u128,
    seq: u64,
    kind: JobKind,
    created_at_ms: u64,
    started_at_ms: Option<u64>,
    finished_at_ms: Option<u64>,
    updated_at_ms: u64,
    status: JobStatus,
    cancel: CancellationToken,
}

/// The mathematical value of a [`JobRecord`]. `seq` is the record's creation
/// number; the low 64 bits of `id` hold it.
pub struct RecordView {
    pub id: u128,
    pub seq: u64,
    pub kind: JobKind,
    pub created: u64,
    pub started: Option<u64>,
    pub finished: Option<u64>,
    pub updated: u64,
    pub status: StatusView,
}

impl View for JobRecord {
    type V = RecordView;

    closed spec fn view(&self) -> RecordView {
        RecordView {
            id: self.id,
            seq: self.seq,
            kind: self.kind,
            created: self.created_at_ms,
            started: self.started_at_ms,
            finished: self.finished_at_ms,
            updated: self.updated_at_ms,
            status: self.status@,
        }
    }
}

/// A snapshot of one record, as `list` reports it.
#[derive(Debug)]
pub struct JobSummary {
    pub id: u128,
    pub kind: JobKind,
    pub created_at_ms: u64,
    pub started_at_ms: Option<u64>,
    pub finished_at_ms: Option<u64>,
    pub updated_at_ms: u64,
    pub status: JobStatus,
}

/// The mathematical value of a [`JobSummary`].
pub struct SummaryView {
    pub id: u128,
    pub kind: JobKind,
    pub created: u64,
    pub started: Option<u64>,
    pub finished: Option<u64>,
    pub updated: u64,
    pub status: StatusView,
}

impl View for JobSummary {
    type V = SummaryView;

    open spec fn view(&self) -> SummaryView {
        SummaryView {
            id: self.id,
            kind: self.kind,
            created: self.created_at_ms,
            started: self.started_at_ms,
            finished: self.finished_at_ms,
            updated: self.updated_at_ms,
            status: self.status@,
        }
    }
}

impl RecordView {
    pub open spec fn summary(self) -> SummaryView {
        SummaryView {
            id: self.id,
            kind: self.kind,
            created: self.created,
            started: self.started,
            finished: self.finished,
            updated: self.updated,
            status: self.status,
        }
    }

    /// The timestamp and identity invariants of one record, given the
    /// registry's clock.
    pub open spec fn well_formed(self, clock: u64) -> bool {
        &&& self.created <= self.updated <= clock
        &&& self.id as u64 == self.seq
        &&& (self.started matches Some(s) ==> self.created <= s <= self.updated)
        &&& (self.finished is Some <==> self.status.is_final())
        &&& (self.finished matches Some(f) ==> (self.started matches Some(s) && s <= f
            && f <= self.updated))
        &&& (self.status is Running ==> self.started is Some)
    }

    /// The record after a status change at time `ts`, from a non-terminal
    /// status.
    pub open spec fn with_status(self, st: StatusView, ts: u64) -> RecordView {
        RecordView {
            status: st,
            updated: ts,
            started: if self.started is None && (st is Running || st.is_final()) {
                Some(ts)
            } else {
                self.started
            },
            finished: if st.is_final() {
                Some(ts)
            } else {
                self.finished
            },
            ..self
        }
    }

    /// The record after an explicit cancellation at time `ts`: a terminal
    /// record keeps its start and finish times, anything else is finished now.
    pub open spec fn with_cancel(self, ts: u64) -> RecordView {
        if self.status.is_final() {
            RecordView { status: StatusView::Cancelled, updated: ts, ..self }
        } else {
            self.with_status(StatusView::Cancelled, ts)
        }
    }
}

pub open spec fn record_views(v: Seq<JobRecord>) -> Seq<RecordView> {
    v.map_values(|r: JobRecord| r@)
}

/// How many records of `s` are terminal.
pub open spec fn terminal_count(s: Seq<RecordView>) -> nat
    decreases s.len(),
{
    if s.len() == 0 {
        0
    } else {
        (if s[0].status.is_final() {
            1nat
        } else {
            0nat
        }) + terminal_count(s.skip(1))
    }
}

/// `s` without its first `n` terminal records.
pub open spec fn drop_terminals(s: Seq<RecordView>, n: nat) -> Seq<RecordView>
    decreases s.len(),
{
    if s.len() == 0 {
        s
    } else if s[0].status.is_final() && n > 0 {
        drop_terminals(s.skip(1), (n - 1) as nat)
    } else {
        seq![s[0]] + drop_terminals(s.skip(1), n)
    }
}

/// The retention policy: of the terminal records only the most recently
/// created `TERMINAL_WINDOW` stay.
pub open spec fn pruned(s: Seq<RecordView>) -> Seq<RecordView> {
    if terminal_count(s) <= TERMINAL_WINDOW {
        s
    } else {
        drop_terminals(s, (terminal_count(s) - TERMINAL_WINDOW) as nat)
    }
}

/// Records are kept in creation order.
pub open spec fn creation_ordered(s: Seq<RecordView>) -> bool {
    forall|i: int, j: int|
        0 <= i < j < s.len() ==> s[i].seq < s[j].seq && s[i].created <= s[j].created
}

pub open spec fn table_ok(s: Seq<RecordView>, clock: u64, issued: u64) -> bool {
    &&& forall|i: int| 0 <= i < s.len() ==> (#[trigger] s[i]).well_formed(clock) && s[i].seq < issued
    &&& creation_ordered(s)
    &&& terminal_count(s) <= TERMINAL_WINDOW
}

proof fn lemma_drop_terminals(s: Seq<RecordView>, n: nat)
    requires
        n <= terminal_count(s),
    ensures
        terminal_count(drop_terminals(s, n)) == terminal_count(s) - n,
        forall|x: RecordView| drop_terminals(s, n).contains(x) ==> s.contains(x),
        forall|x: RecordView| s.contains(x) && !x.status.is_final() ==> drop_terminals(s, n).contains(x),
        creation_ordered(s) ==> creation_ordered(drop_terminals(s, n)),
    decreases s.len(),
{
    if s.len() > 0 {
        let t = s.skip(1);
        assert forall|x: RecordView| t.contains(x) implies s.contains(x) by {
            let k = choose|k: int| 0 <= k < t.len() && t[k] == x;
            assert(s[k + 1] == x);
        }
        if s[0].status.is_final() && n > 0 {
            lemma_drop_terminals(t, (n - 1) as nat);
            assert forall|x: RecordView| s.contains(x) && !x.status.is_final() implies drop_terminals(s, n).contains(x) by {
                let k = choose|k: int| 0 <= k < s.len() && s[k] == x;
                assert(k != 0);
                assert(t[k - 1] == x);
                assert(t.contains(x));
            }
        } else {
            lemma_drop_terminals(t, n);
            let d = drop_terminals(t, n);
            let r = seq![s[0]] + d;
            assert(r.skip(1) =~= d);
            assert forall|x: RecordView| r.contains(x) implies s.contains(x) by {
                let k = choose|k: int| 0 <= k < r.len() && r[k] == x;
                if k > 0 {
                    assert(d[k - 1] == x);
                    assert(d.contains(x));
                } else {
                    assert(s[0] == x);
                }
            }
            assert forall|x: RecordView| s.contains(x) && !x.status.is_final() implies r.contains(x) by {
                let k = choose|k: int| 0 <= k < s.len() && s[k] == x;
                if k > 0 {
                    assert(t[k - 1] == x);
                    assert(t.contains(x));
                    assert(d.contains(x));
                    let m = choose|m: int| 0 <= m < d.len() && d[m] == x;
                    assert(r[m + 1] == x);
                } else {
                    assert(r[0] == x);
                }
            }
            if creation_ordered(s) {
                assert(creation_ordered(t));
                assert forall|i: int, j: int| 0 <= i < j < r.len() implies r[i].seq < r[j].seq
                    && r[i].created <= r[j].created by {
                    if i == 0 {
                        assert(d.contains(r[j])) by {
                            assert(d[j - 1] == r[j]);
                        }
                        assert(t.contains(r[j]));
                        let k = choose|k: int| 0 <= k < t.len() && t[k] == r[j];
                        assert(s[k + 1] == r[j]);
                    } else {
                        assert(r[i] == d[i - 1] && r[j] == d[j - 1]);
                    }
                }
            }
        }
    }
}

/// Retention: pruning leaves at most `TERMINAL_WINDOW` terminal records and
/// never evicts a record whose status is not terminal.
pub proof fn lemma_pruned(s: Seq<RecordView>)
    ensures
        terminal_count(pruned(s)) <= TERMINAL_WINDOW,
        forall|x: RecordView| pruned(s).contains(x) ==> s.contains(x),
        forall|x: RecordView| s.contains(x) && !x.status.is_final() ==> pruned(s).contains(x),
        creation_ordered(s) ==> creation_ordered(pruned(s)),
{
    if terminal_count(s) > TERMINAL_WINDOW {
        lemma_drop_terminals(s, (terminal_count(s) - TERMINAL_WINDOW) as nat);
    }
}

proof fn lemma_ids_unique(s: Seq<RecordView>, clock: u64, issued: u64)
    requires
        table_ok(s, clock, issued),
    ensures
        forall|i: int, j: int| 0 <= i < s.len() && 0 <= j < s.len() && s[i].id == s[j].id ==> i == j,
{
    assert forall|i: int, j: int| 0 <= i < s.len() && 0 <= j < s.len() && s[i].id == s[j].id implies i == j by {
        assert(s[i].well_formed(clock));
        assert(s[j].well_formed(clock));
        if i < j {
            assert(s[i].seq < s[j].seq);
        } else if j < i {
            assert(s[j].seq < s[i].seq);
        }
    }
}

/// The registry of jobs. Records are kept in creation order; every timestamp
/// comes from a clock that never runs backwards.
pub struct JobStore {
    records: Vec<JobRecord>,
    clock_ms: u64,
    issued: u64,
}

impl View for JobStore {
    type V = Seq<RecordView>;

    closed spec fn view(&self) -> Seq<RecordView> {
        record_views(self.records@)
    }
}

impl JobStore {
    /// The latest timestamp the registry has handed out.
    pub closed spec fn clock(&self) -> u64 {
        self.clock_ms
    }

    /// How many jobs have been created.
    pub closed spec fn issued(&self) -> u64 {
        self.issued
    }

    pub open spec fn wf(&self) -> bool {
        table_ok(self@, self.clock(), self.issued())
    }

    pub open spec fn has_job(&self, id: u128) -> bool {
        exists|i: int| 0 <= i < self@.len() && self@[i].id == id
    }

    pub open spec fn position(&self, id: u128) -> int {
        choose|i: int| 0 <= i < self@.len() && self@[i].id == id
    }

    pub open spec fn job(&self, id: u128) -> RecordView {
        self@[self.position(id)]
    }

    /// An empty registry.
    pub fn new() -> (r: JobStore)
        ensures
            r.wf(),
            r@ == Seq::<RecordView>::empty(),
            r.clock() == 0,
            r.issued() == 0,
    {
        let r = JobStore { records: Vec::new(), clock_ms: 0, issued: 0 };
        assert(r@ =~= Seq::<RecordView>::empty());
        r
    }

    /// Whether every creation number has been used, so that no further job
    /// can be created.
    pub fn ids_exhausted(&self) -> (r: bool)
        ensures
            r == (self.issued() == u64::MAX),
    {
        self.issued == u64::MAX
    }

    /// How many records the registry holds.
    pub fn len(&self) -> (r: usize)
        ensures
            r == self@.len(),
    {
        self.records.len()
    }

    /// Advances the clock to `now_ms` unless it is already later, and
    /// returns the clock.
    fn tick(&mut self, now_ms: u64) -> (r: u64)
        requires
            old(self).wf(),
        ensures
            r == if now_ms > old(self).clock() { now_ms } else { old(self).clock() },
            final(self).clock() == r,
            final(self)@ == old(self)@,
            final(self).issued() == old(self).issued(),
            final(self).wf(),
    {
        if now_ms > self.clock_ms {
            self.clock_ms = now_ms;
        }
        let ghost s = self@;
        assert forall|i: int| 0 <= i < s.len() implies (#[trigger] s[i]).well_formed(self.clock_ms)
            && s[i].seq < self.issued by {
            assert(s[i].well_formed(old(self).clock_ms));
        }
        self.clock_ms
    }

    /// The index of the record with this id.
    fn find(&self, id: u128) -> (r: Option<usize>)
        requires
            self.wf(),
        ensures
            r is None <==> !self.has_job(id),
            r matches Some(i) ==> i == self.position(id) && i < self@.len() && self@[i as int].id == id,
    {
        let mut i: usize = 0;
        while i < self.records.len()
            invariant
                i <= self.records@.len(),
                self.wf(),
                forall|k: int| 0 <= k < i ==> self@[k].id != id,
            decreases self.records@.len() - i,
        {
            if self.records[i].id == id {
                proof {
                    assert(self@[i as int].id == id);
                    lemma_ids_unique(self@, self.clock(), self.issued());
                }
                return Some(i);
            }
            assert(self@[i as int].id != id);
            i += 1;
        }
        None
    }

    fn count_terminal(&self) -> (r: usize)
        ensures
            r == terminal_count(self@),
    {
        let mut n: usize = 0;
        let len = self.records.len();
        let mut i: usize = len;
        while i > 0
            invariant
                len == self.records@.len(),
                i <= len,
                n == terminal_count(self@.skip(i as int)),
                n <= len - i,
            decreases i,
        {
            i -= 1;
            let ghost s = self@;
            assert(s.skip(i as int).skip(1) =~= s.skip(i + 1));
            if is_terminal(&self.records[i].status) {
                n += 1;
            }
        }
        assert(self@.skip(0) =~= self@);
        n
    }

    /// Applies the retention policy.
    fn prune_terminal_jobs(&mut self)
        ensures
            final(self)@ == pruned(old(self)@),
            final(self).clock() == old(self).clock(),
            final(self).issued() == old(self).issued(),
    {
        let total = self.count_terminal();
        if total <= TERMINAL_WINDOW {
            return;
        }
        let ghost orig = self@;
        let ghost excess = (total - TERMINAL_WINDOW) as nat;
        let mut left: usize = total - TERMINAL_WINDOW;
        let mut i: usize = 0;
        assert(self@.subrange(0, 0) + drop_terminals(self@.subrange(0, self@.len() as int), left as nat)
            =~= drop_terminals(orig, excess)) by {
            assert(self@.subrange(0, self@.len() as int) =~= orig);
        }
        while i < self.records.len()
            invariant
                i <= self.records@.len(),
                self.clock() == old(self).clock(),
                self.issued() == old(self).issued(),
                orig == old(self)@,
                excess == terminal_count(orig) - TERMINAL_WINDOW,
                self@.subrange(0, i as int) + drop_terminals(self@.subrange(i as int, self@.len() as int), left as nat)
                    == drop_terminals(orig, excess),
            decreases self.records@.len() - i,
        {
            let ghost s = self@;
            let ghost rest = s.subrange(i as int, s.len() as int);
            assert(rest.skip(1) =~= s.subrange(i + 1, s.len() as int));
            if left > 0 && is_terminal(&self.records[i].status) {
                self.records.remove(i);
                left -= 1;
                assert(self@.subrange(0, i as int) =~= s.subrange(0, i as int));
                assert(self@.subrange(i as int, self@.len() as int) =~= s.subrange(i + 1, s.len() as int));
            } else {
                i += 1;
                assert(self@.subrange(0, i as int) =~= s.subrange(0, i - 1) + seq![s[i - 1]]);
                assert(s.subrange(0, i - 1) + seq![s[i - 1]] + drop_terminals(s.subrange(i as int, s.len() as int), left as nat)
                    =~= s.subrange(0, i - 1) + (seq![s[i - 1]] + drop_terminals(s.subrange(i as int, s.len() as int), left as nat)));
            }
        }
        assert(self@.subrange(0, i as int) =~= self@);
        assert(self@.subrange(i as int, self@.len() as int) =~= Seq::<RecordView>::empty());
        assert(drop_terminals(Seq::<RecordView>::empty(), left as nat) == Seq::<RecordView>::empty());
        assert(self@ + Seq::<RecordView>::empty() =~= self@);
    }

    /// Registers a new job in `Queued` and returns its id and cancellation
    /// handle. The id's low 64 bits are the job's creation number, so no id
    /// is ever handed out twice; the high bits are random.
    pub fn create(&mut self, kind: JobKind, now_ms: u64) -> (r: (u128, CancellationToken))
        requires
            old(self).wf(),
            old(self).issued() < u64::MAX,
        ensures
            final(self).wf(),
            !old(self).has_job(r.0),
            final(self).issued() == old(self).issued() + 1,
            final(self).clock() == if now_ms > old(self).clock() { now_ms } else { old(self).clock() },
            final(self)@ == old(self)@.push(
                RecordView {
                    id: r.0,
                    seq: old(self).issued(),
                    kind,
                    created: final(self).clock(),
                    started: None,
                    finished: None,
                    updated: final(self).clock(),
                    status: StatusView::Queued,
                },
            ),
    {
        let ts = self.tick(now_ms);
        let nonce: u64 = draw_between(0, u64::MAX);
        let seq = self.issued;
        let id: u128 = ((nonce as u128) << 64u128) | (seq as u128);
        assert(((nonce as u128) << 64u128 | (seq as u128)) as u64 == seq) by (bit_vector);
        let cancel = CancellationToken::new();
        let handle = cancel.clone();
        let rec = JobRecord {
            id,
            seq,
            kind,
            created_at_ms: ts,
            started_at_ms: None,
            finished_at_ms: None,
            updated_at_ms: ts,
            status: JobStatus::Queued,
            cancel,
        };
        let ghost s = self@;
        self.records.push(rec);
        self.issued = seq + 1;
        proof {
            assert(self@ =~= s.push(rec@));
            assert forall|i: int| 0 <= i < s.len() implies s[i].id != id by {
                assert(s[i].well_formed(ts));
            }
            lemma_terminal_count_push(s, rec@);
            assert forall|i: int| 0 <= i < self@.len() implies (#[trigger] self@[i]).well_formed(ts)
                && self@[i].seq < self.issued by {
                if i < s.len() {
                    assert(s[i].well_formed(ts));
                }
            }
            assert(creation_ordered(self@)) by {
                assert forall|i: int, j: int| 0 <= i < j < self@.len() implies self@[i].seq < self@[j].seq
                    && self@[i].created <= self@[j].created by {
                    assert(s[i].well_formed(ts));
                }
            }
        }
        (id, handle)
    }

    /// Changes the status of a job and applies the retention policy. Nothing
    /// changes for an unknown id or for a job whose status is already
    /// terminal: only `cancel` overrides a terminal status.
    pub fn set_status(&mut self, id: u128, status: JobStatus, now_ms: u64)
        requires
            old(self).wf(),
        ensures
            final(self).wf(),
            final(self).issued() == old(self).issued(),
            final(self).clock() == if now_ms > old(self).clock() { now_ms } else { old(self).clock() },
            final(self)@ == pruned(
                if old(self).has_job(id) && !old(self).job(id).status.is_final() {
                    old(self)@.update(
                        old(self).position(id),
                        old(self).job(id).with_status(status@, final(self).clock()),
                    )
                } else {
                    old(self)@
                },
            ),
    {
        let ts = self.tick(now_ms);
        let ghost s = self@;
        match self.find(id) {
            Some(i) => {
                if !is_terminal(&self.records[i].status) {
                    let ghost before = s[i as int];
                    let mut rec = self.records.remove(i);
                    let running = match &status {
                        JobStatus::Running => true,
                        _ => false,
                    };
                    let fin = is_terminal(&status);
                    rec.status = status;
                    rec.updated_at_ms = ts;
                    if rec.started_at_ms.is_none() && (running || fin) {
                        rec.started_at_ms = Some(ts);
                    }
                    if fin {
                        rec.finished_at_ms = Some(ts);
                    }
                    self.records.insert(i, rec);
                    proof {
                        assert(self@ =~= s.update(i as int, before.with_status(rec@.status, ts)));
                        self.lemma_updated_ok(s, i as int, ts);
                    }
                }
            },
            None => {},
        }
        self.prune_after_update();
    }

    /// The status of a job, if the registry holds it.
    pub fn get_status(&self, id: u128) -> (r: Option<JobStatus>)
        requires
            self.wf(),
        ensures
            r is Some <==> self.has_job(id),
            r matches Some(st) ==> st@ == self.job(id).status,
    {
        match self.find(id) {
            Some(i) => Some(self.records[i].status.duplicate()),
            None => None,
        }
    }

    /// The `min(limit, len)` most recently created records, oldest first.
    /// The table is pruned already: every operation that could leave more
    /// than `TERMINAL_WINDOW` terminal records prunes before it returns.
    pub fn list(&self, limit: usize) -> (r: Vec<JobSummary>)
        requires
            self.wf(),
        ensures
            r@.len() == if limit < self@.len() { limit as int } else { self@.len() as int },
            forall|k: int| 0 <= k < r@.len() ==> (#[trigger] r@[k])@ == self@[self@.len() - r@.len() + k].summary(),
            forall|a: int, b: int| 0 <= a < b < r@.len() ==> r@[a].created_at_ms <= r@[b].created_at_ms,
            forall|a: int, b: int| 0 <= a < self@.len() - r@.len() && 0 <= b < r@.len()
                ==> self@[a].created <= r@[b].created_at_ms,
    {
        let len = self.records.len();
        let start: usize = if limit < len { len - limit } else { 0 };
        let mut out: Vec<JobSummary> = Vec::new();
        let mut i: usize = start;
        while i < len
            invariant
                len == self@.len(),
                start <= i <= len,
                out@.len() == i - start,
                forall|k: int| 0 <= k < out@.len() ==> (#[trigger] out@[k])@ == self@[start + k].summary(),
            decreases len - i,
        {
            let rec = &self.records[i];
            let summary = JobSummary {
                id: rec.id,
                kind: rec.kind,
                created_at_ms: rec.created_at_ms,
                started_at_ms: rec.started_at_ms,
                finished_at_ms: rec.finished_at_ms,
                updated_at_ms: rec.updated_at_ms,
                status: rec.status.duplicate(),
            };
            assert(summary@ == self@[i as int].summary());
            out.push(summary);
            i += 1;
        }
        proof {
            assert forall|a: int, b: int| 0 <= a < b < out@.len() implies out@[a].created_at_ms
                <= out@[b].created_at_ms by {
                assert(out@[a]@ == self@[start + a].summary());
                assert(out@[b]@ == self@[start + b].summary());
            }
            assert forall|a: int, b: int| 0 <= a < self@.len() - out@.len() && 0 <= b < out@.len()
                implies self@[a].created <= out@[b].created_at_ms by {
                assert(out@[b]@ == self@[start + b].summary());
            }
        }
        out
    }

    /// Signals the job's cancellation handle and forces its status to
    /// `Cancelled`, even over a terminal status. Returns whether the id was
    /// known.
    pub fn cancel(&mut self, id: u128, now_ms: u64) -> (r: bool)
        requires
            old(self).wf(),
        ensures
            r == old(self).has_job(id),
            final(self).wf(),
            final(self).issued() == old(self).issued(),
            final(self).clock() == if now_ms > old(self).clock() { now_ms } else { old(self).clock() },
            final(self)@ == if r {
                pruned(
                    old(self)@.update(
                        old(self).position(id),
                        old(self).job(id).with_cancel(final(self).clock()),
                    ),
                )
            } else {
                old(self)@
            },
    {
        let ts = self.tick(now_ms);
        let ghost s = self@;
        match self.find(id) {
            Some(i) => {
                let ghost before = s[i as int];
                let mut rec = self.records.remove(i);
                rec.cancel.cancel();
                let was_final = is_terminal(&rec.status);
                rec.status = JobStatus::Cancelled;
                rec.updated_at_ms = ts;
                if !was_final {
                    if rec.started_at_ms.is_none() {
                        rec.started_at_ms = Some(ts);
                    }
                    rec.finished_at_ms = Some(ts);
                }
                self.records.insert(i, rec);
                proof {
                    assert(self@ =~= s.update(i as int, before.with_cancel(ts)));
                    self.lemma_updated_ok(s, i as int, ts);
                }
                self.prune_after_update();
                true
            },
            None => {
                assert(pruned(s) == s);
                false
            },
        }
    }

    /// Prunes a table whose records are well formed and ordered, restoring
    /// the bound on terminal records.
    fn prune_after_update(&mut self)
        requires
            forall|i: int| 0 <= i < old(self)@.len() ==> (#[trigger] old(self)@[i]).well_formed(old(self).clock())
                && old(self)@[i].seq < old(self).issued(),
            creation_ordered(old(self)@),
        ensures
            final(self).wf(),
            final(self)@ == pruned(old(self)@),
            final(self).clock() == old(self).clock(),
            final(self).issued() == old(self).issued(),
    {
        let ghost s = self@;
        self.prune_terminal_jobs();
        proof {
            lemma_pruned(s);
            let p = self@;
            assert forall|i: int| 0 <= i < p.len() implies (#[trigger] p[i]).well_formed(self.clock())
                && p[i].seq < self.issued() by {
                assert(p.contains(p[i]));
                assert(s.contains(p[i]));
            }
        }
    }

    /// After one record of a well-formed table is replaced by a record with
    /// the same identity and creation time that is well formed at `ts`, the
    /// table is well formed apart from the bound on terminal records.
    proof fn lemma_updated_ok(&self, s: Seq<RecordView>, i: int, ts: u64)
        requires
            table_ok(s, ts, self.issued()),
            0 <= i < s.len(),
            self@.len() == s.len(),
            self@ == s.update(i, self@[i]),
            self@[i].id == s[i].id,
            self@[i].seq == s[i].seq,
            self@[i].created == s[i].created,
            self@[i].well_formed(ts),
        ensures
            forall|k: int| 0 <= k < self@.len() ==> (#[trigger] self@[k]).well_formed(ts) && self@[k].seq < self.issued(),
            creation_ordered(self@),
    {
        assert forall|k: int| 0 <= k < self@.len() implies (#[trigger] self@[k]).well_formed(ts)
            && self@[k].seq < self.issued() by {
            assert(s[k].well_formed(ts));
        }
    }
}

proof fn lemma_terminal_count_push(s: Seq<RecordView>, x: RecordView)
    ensures
        terminal_count(s.push(x)) == terminal_count(s) + if x.status.is_final() { 1nat } else { 0nat },
    decreases s.len(),
{
    if s.len() == 0 {
        assert(s.push(x).skip(1) =~= Seq::<RecordView>::empty());
        assert(s.push(x)[0] == x);
        assert(terminal_count(s) == 0);
        assert(terminal_count(s.push(x).skip(1)) == 0);
    } else {
        assert(s.push(x).skip(1) =~= s.skip(1).push(x));
        assert(s.push(x)[0] == s[0]);
        lemma_terminal_count_push(s.skip(1), x);
        assert(terminal_count(s.push(x)) == (if s[0].status.is_final() { 1nat } else { 0nat })
            + terminal_count(s.skip(1).push(x)));
    }
}

/// In a well-formed registry every job satisfies the timestamp invariants:
/// it started no later than it finished, and it has a finish time exactly
/// when its status is terminal. Every operation of [`JobStore`] keeps the
/// registry well formed.
pub proof fn lemma_job_timestamps(store: &JobStore, i: int)
    requires
        store.wf(),
        0 <= i < store@.len(),
    ensures
        store@[i].finished is Some <==> store@[i].status.is_final(),
        store@[i].started matches Some(s) ==> store@[i].finished matches Some(f) ==> s <= f,
        store@[i].created <= store@[i].updated,
{
    assert(store@[i].well_formed(store.clock()));
}

/// However the registry was driven, it holds at most `TERMINAL_WINDOW`
/// terminal records: every operation keeps it well formed, and pruning never
/// evicts a non-terminal record (see [`lemma_pruned`]).
pub proof fn lemma_retention_bound(store: &JobStore)
    requires
        store.wf(),
    ensures
        terminal_count(store@) <= TERMINAL_WINDOW,
{
}

} // verus!

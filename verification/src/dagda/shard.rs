//! Workers and the shards that host them.

use vstd::prelude::*;

use crate::dagda::controller::WorkerMessage;
use crate::ids::{is_v4_id, new_v4_id};
use crate::keyed::{keys_distinct, lemma_put_keeps_keys_distinct, put_at};
use crate::model::{Blueprint, BlueprintView};

verus! {

/// Lifecycle state of a worker.
#[derive(Debug, Clone, Copy, PartialEq, Eq, Structural)]
pub enum Status {
    Idle,
    InProgress,
    Completed,
    Stopped,
    Paused,
}

impl Status {
    /// The text a user sees for the status.
    pub open spec fn label(self) -> Seq<char> {
        match self {
            Status::Idle => "Idle"@,
            Status::InProgress => "In Progress"@,
            Status::Completed => "Completed"@,
            Status::Stopped => "Stopped"@,
            Status::Paused => "Paused"@,
        }
    }

    /// The text a user sees for the status.
    pub fn as_str(&self) -> (s: &'static str)
        ensures
            s@ == self.label(),
    {
        match self {
            Status::Idle => "Idle",
            Status::InProgress => "In Progress",
            Status::Completed => "Completed",
            Status::Stopped => "Stopped",
            Status::Paused => "Paused",
        }
    }
}

/// A control operation that a user applies to a worker.
#[derive(Debug, Clone, Copy, PartialEq, Eq, Structural)]
pub enum WorkerOp {
    Start,
    Pause,
    Resume,
    Stop,
}

/// One unit of construction work: a blueprint and how far it has got.
#[derive(Debug)]
pub struct Worker {
    id: u128,
    blueprint: Blueprint,
    status: Status,
    ticks: u64,
    parent: Option<u128>,
}

/// The mathematical content of a [`Worker`].
pub struct WorkerView {
    pub id: u128,
    pub blueprint: BlueprintView,
    pub status: Status,
    pub ticks: nat,
    pub parent: Option<u128>,
}

impl WorkerView {
    /// Ticks the blueprint asks for.
    pub open spec fn total(self) -> nat {
        self.blueprint.ticks as nat
    }

    /// Progress never runs past the blueprint's ticks.
    pub open spec fn wf(self) -> bool {
        self.ticks <= self.total()
    }

    pub open spec fn with_status(self, status: Status) -> WorkerView {
        WorkerView { status, ..self }
    }
}

/// A worker as it is made: idle, with no progress.
pub open spec fn fresh_worker(id: u128, blueprint: BlueprintView, parent: Option<u128>) -> WorkerView {
    WorkerView { id, blueprint, status: Status::Idle, ticks: 0, parent }
}

/// The worker after one tick.
pub open spec fn ticked(w: WorkerView) -> WorkerView {
    if w.status == Status::InProgress {
        if w.ticks >= w.total() {
            w.with_status(Status::Completed)
        } else if w.ticks + 1 >= w.total() {
            WorkerView { ticks: w.ticks + 1, status: Status::Completed, ..w }
        } else {
            WorkerView { ticks: w.ticks + 1, ..w }
        }
    } else {
        w
    }
}

/// What one tick makes the worker report, in order.
pub open spec fn tick_messages(w: WorkerView) -> Seq<WorkerMessage> {
    if w.status == Status::InProgress {
        if w.ticks >= w.total() {
            seq![WorkerMessage::Completed(w.id)]
        } else if w.ticks + 1 >= w.total() {
            seq![
                WorkerMessage::Progress(w.id, (w.ticks + 1) as u64, w.total() as u64),
                WorkerMessage::Completed(w.id),
            ]
        } else {
            seq![WorkerMessage::Progress(w.id, (w.ticks + 1) as u64, w.total() as u64)]
        }
    } else {
        Seq::empty()
    }
}

/// The worker after a control operation.
pub open spec fn applied(w: WorkerView, op: WorkerOp) -> WorkerView {
    match op {
        WorkerOp::Start => w.with_status(Status::InProgress),
        WorkerOp::Pause => w.with_status(Status::Paused),
        WorkerOp::Resume => w.with_status(Status::InProgress),
        WorkerOp::Stop => WorkerView { status: Status::Stopped, ticks: 0, ..w },
    }
}

/// The worker after `n` ticks.
pub open spec fn ticked_times(w: WorkerView, n: nat) -> WorkerView
    decreases n,
{
    if n == 0 {
        w
    } else {
        ticked(ticked_times(w, (n - 1) as nat))
    }
}

/// Ticks change nothing about a worker that is not in progress: idle, paused,
/// stopped and completed workers stay exactly as they are.
pub proof fn lemma_tick_only_moves_in_progress(w: WorkerView, n: nat)
    requires
        w.status != Status::InProgress,
    ensures
        ticked_times(w, n) == w,
    decreases n,
{
    if n > 0 {
        lemma_tick_only_moves_in_progress(w, (n - 1) as nat);
    }
}

/// A worker in progress gains exactly one tick per tick until it reaches the
/// blueprint's ticks, and is completed at that moment and not before; its
/// identity, blueprint and owner never change.
pub proof fn lemma_progress_until_complete(w: WorkerView, n: nat)
    requires
        w.status == Status::InProgress,
        w.ticks < w.total(),
        n <= w.total() - w.ticks,
    ensures
        ticked_times(w, n).ticks == w.ticks + n,
        ticked_times(w, n).status == (if w.ticks + n < w.total() {
            Status::InProgress
        } else {
            Status::Completed
        }),
        ticked_times(w, n).id == w.id,
        ticked_times(w, n).blueprint == w.blueprint,
        ticked_times(w, n).parent == w.parent,
    decreases n,
{
    if n > 0 {
        lemma_progress_until_complete(w, (n - 1) as nat);
    }
}

/// A started worker whose blueprint asks for `t > 0` ticks is completed after
/// exactly `t` ticks, with progress `t`; after fewer ticks it is still in
/// progress. A blueprint of no ticks completes on the first tick.
pub proof fn lemma_started_worker_completes(id: u128, blueprint: BlueprintView, parent: Option<u128>, n: nat)
    ensures
        ({
            let w = applied(fresh_worker(id, blueprint, parent), WorkerOp::Start);
            let t = blueprint.ticks as nat;
            &&& (t > 0 && n < t) ==> ticked_times(w, n).status == Status::InProgress
                && ticked_times(w, n).ticks == n
            &&& (t > 0 && n >= t) ==> ticked_times(w, n).status == Status::Completed
                && ticked_times(w, n).ticks == t
            &&& (t == 0 && n > 0) ==> ticked_times(w, n).status == Status::Completed
                && ticked_times(w, n).ticks == 0
        }),
{
    let w = applied(fresh_worker(id, blueprint, parent), WorkerOp::Start);
    let t = blueprint.ticks as nat;
    if t > 0 {
        if n < t {
            lemma_progress_until_complete(w, n);
        } else {
            lemma_progress_until_complete(w, t);
            lemma_ticks_compose(w, t, (n - t) as nat);
            lemma_tick_only_moves_in_progress(ticked_times(w, t), (n - t) as nat);
        }
    } else if n > 0 {
        assert(ticked_times(w, 1) == w.with_status(Status::Completed));
        lemma_ticks_compose(w, 1, (n - 1) as nat);
        lemma_tick_only_moves_in_progress(ticked_times(w, 1), (n - 1) as nat);
    }
}

/// Everything the worker reports over `k` ticks, in order.
pub open spec fn messages_over(w: WorkerView, k: nat) -> Seq<WorkerMessage>
    decreases k,
{
    if k == 0 {
        Seq::empty()
    } else {
        messages_over(w, (k - 1) as nat) + tick_messages(ticked_times(w, (k - 1) as nat))
    }
}

/// The reports of a started worker with `n` ticks to do, after `k` ticks: one
/// progress report for each tick done, up to `n`, then one completion report
/// once `k` reaches `n`.
pub open spec fn expected_reports(id: u128, n: nat, k: nat) -> Seq<WorkerMessage> {
    let m = if k < n {
        k
    } else {
        n
    };
    Seq::new(m, |i: int| WorkerMessage::Progress(id, (i + 1) as u64, n as u64)) + if k >= n {
        seq![WorkerMessage::Completed(id)]
    } else {
        Seq::<WorkerMessage>::empty()
    }
}

/// A started worker whose blueprint asks for `n > 0` ticks reports, over `k`
/// ticks, `Progress(id, i, n)` for `i` from 1 to `min(k, n)` in order, followed
/// by exactly one `Completed(id)` once `k >= n`. With a blueprint of no ticks it
/// reports one `Completed(id)` on the first tick and nothing after.
pub proof fn lemma_started_worker_reports(id: u128, blueprint: BlueprintView, parent: Option<u128>, k: nat)
    ensures
        ({
            let w = applied(fresh_worker(id, blueprint, parent), WorkerOp::Start);
            let n = blueprint.ticks as nat;
            &&& n > 0 ==> messages_over(w, k) == expected_reports(id, n, k)
            &&& (n == 0 && k > 0) ==> messages_over(w, k) == seq![WorkerMessage::Completed(id)]
        }),
    decreases k,
{
    let w = applied(fresh_worker(id, blueprint, parent), WorkerOp::Start);
    let n = blueprint.ticks as nat;
    if k > 0 {
        let j = (k - 1) as nat;
        lemma_started_worker_reports(id, blueprint, parent, j);
        lemma_started_worker_completes(id, blueprint, parent, j);
        let prev = ticked_times(w, j);
        if n > 0 {
            if j < n {
                lemma_progress_until_complete(w, j);
                assert(prev.ticks == j && prev.status == Status::InProgress && prev.id == id);
                assert(prev.blueprint == blueprint);
                let p = Seq::new(j, |i: int| WorkerMessage::Progress(id, (i + 1) as u64, n as u64));
                let q = Seq::new(k, |i: int| WorkerMessage::Progress(id, (i + 1) as u64, n as u64));
                assert(q =~= p.push(WorkerMessage::Progress(id, k as u64, n as u64)));
                if k == n {
                    assert(tick_messages(prev) == seq![
                        WorkerMessage::Progress(id, k as u64, n as u64),
                        WorkerMessage::Completed(id),
                    ]);
                    assert(messages_over(w, k) =~= expected_reports(id, n, k));
                } else {
                    assert(tick_messages(prev) == seq![WorkerMessage::Progress(id, k as u64, n as u64)]);
                    assert(messages_over(w, k) =~= expected_reports(id, n, k));
                }
            } else {
                assert(prev.status == Status::Completed);
                assert(tick_messages(prev) =~= Seq::<WorkerMessage>::empty());
                assert(messages_over(w, k) =~= expected_reports(id, n, k));
            }
        } else {
            if j == 0 {
                assert(prev == w);
                assert(w.ticks >= w.total() && w.status == Status::InProgress && w.id == id);
                assert(tick_messages(w) == seq![WorkerMessage::Completed(id)]);
                assert(messages_over(w, 0) == Seq::<WorkerMessage>::empty());
                assert(messages_over(w, k) =~= seq![WorkerMessage::Completed(id)]);
            } else {
                assert(prev.status == Status::Completed);
                assert(tick_messages(prev) =~= Seq::<WorkerMessage>::empty());
                assert(messages_over(w, k) =~= seq![WorkerMessage::Completed(id)]);
            }
        }
    }
}

/// `a` ticks followed by `b` ticks are `a + b` ticks.
pub proof fn lemma_ticks_compose(w: WorkerView, a: nat, b: nat)
    ensures
        ticked_times(ticked_times(w, a), b) == ticked_times(w, a + b),
    decreases b,
{
    if b > 0 {
        lemma_ticks_compose(w, a, (b - 1) as nat);
        assert(ticked_times(w, a + b) == ticked(ticked_times(w, (a + b - 1) as nat)));
    }
}

/// Every tick keeps progress within the blueprint's ticks.
pub proof fn lemma_tick_keeps_progress_bounded(w: WorkerView)
    requires
        w.wf(),
    ensures
        ticked(w).wf(),
        ticked(w).id == w.id,
        ticked(w).parent == w.parent,
        ticked(w).blueprint == w.blueprint,
{
}

/// Pausing and then resuming puts the worker back in progress with its
/// progress untouched; a worker that was in progress is exactly as before.
pub proof fn lemma_pause_then_resume(w: WorkerView)
    ensures
        applied(applied(w, WorkerOp::Pause), WorkerOp::Resume) == w.with_status(Status::InProgress),
        w.status == Status::InProgress ==> applied(applied(w, WorkerOp::Pause), WorkerOp::Resume) == w,
{
}

/// A paused worker does not advance, however many ticks pass.
pub proof fn lemma_paused_worker_holds(w: WorkerView, n: nat)
    ensures
        ticked_times(applied(w, WorkerOp::Pause), n) == applied(w, WorkerOp::Pause),
{
    lemma_tick_only_moves_in_progress(applied(w, WorkerOp::Pause), n);
}

/// Stopping drops all progress, and a stopped worker that is started again
/// begins from no progress.
pub proof fn lemma_stop_resets_progress(w: WorkerView)
    ensures
        applied(w, WorkerOp::Stop).ticks == 0,
        applied(w, WorkerOp::Stop).status == Status::Stopped,
        applied(applied(w, WorkerOp::Stop), WorkerOp::Start).ticks == 0,
        applied(applied(w, WorkerOp::Stop), WorkerOp::Start).status == Status::InProgress,
{
}

impl View for Worker {
    type V = WorkerView;

    closed spec fn view(&self) -> WorkerView {
        WorkerView {
            id: self.id,
            blueprint: self.blueprint@,
            status: self.status,
            ticks: self.ticks as nat,
            parent: self.parent,
        }
    }
}

impl Clone for Worker {
    fn clone(&self) -> (res: Self)
        ensures
            res@ == self@,
    {
        Worker {
            id: self.id,
            blueprint: self.blueprint.clone(),
            status: self.status,
            ticks: self.ticks,
            parent: self.parent,
        }
    }
}

impl Worker {
    /// A worker with the given identifier, idle and without progress.
    pub fn with_id(id: u128, blueprint: Blueprint, parent: Option<u128>) -> (w: Self)
        ensures
            w@ == fresh_worker(id, blueprint@, parent),
            w@.wf(),
    {
        Worker { id, blueprint, status: Status::Idle, ticks: 0, parent }
    }

    /// A worker with a fresh random identifier and no parent.
    pub fn new(blueprint: Blueprint) -> (w: Self)
        ensures
            w@ == fresh_worker(w@.id, blueprint@, None),
            w@.wf(),
            is_v4_id(w@.id),
    {
        Worker::with_id(new_v4_id(), blueprint, None)
    }

    /// A worker with a fresh random identifier, owned by `parent`.
    pub fn new_with_parent(blueprint: Blueprint, parent: u128) -> (w: Self)
        ensures
            w@ == fresh_worker(w@.id, blueprint@, Some(parent)),
            w@.wf(),
            is_v4_id(w@.id),
    {
        Worker::with_id(new_v4_id(), blueprint, Some(parent))
    }

    pub fn id(&self) -> (id: u128)
        ensures
            id == self@.id,
    {
        self.id
    }

    pub fn parent(&self) -> (parent: Option<u128>)
        ensures
            parent == self@.parent,
    {
        self.parent
    }

    pub fn blueprint(&self) -> (bp: &Blueprint)
        ensures
            bp@ == self@.blueprint,
    {
        &self.blueprint
    }

    pub fn status(&self) -> (status: Status)
        ensures
            status == self@.status,
    {
        self.status
    }

    pub fn ticks(&self) -> (ticks: u64)
        ensures
            ticks == self@.ticks,
    {
        self.ticks
    }

    /// Whether `parent_id` owns this worker.
    pub fn is_child(&self, parent_id: u128) -> (b: bool)
        ensures
            b == (self@.parent == Some(parent_id)),
    {
        match self.parent {
            Some(p) => p == parent_id,
            None => false,
        }
    }

    /// Ticks done and ticks asked for.
    pub fn progress(&self) -> (p: (u64, u64))
        ensures
            p.0 == self@.ticks,
            p.1 == self@.total(),
    {
        (self.ticks, self.blueprint.ticks)
    }

    pub fn start(&mut self)
        ensures
            final(self)@ == old(self)@.with_status(Status::InProgress),
    {
        self.status = Status::InProgress;
    }

    /// Stops the worker and drops its progress.
    pub fn stop(&mut self)
        ensures
            final(self)@ == (WorkerView { status: Status::Stopped, ticks: 0, ..old(self)@ }),
    {
        self.status = Status::Stopped;
        self.ticks = 0;
    }

    /// Stops the worker after an error and gives back the report of it.
    pub fn fail(&mut self, error: String) -> (msg: WorkerMessage)
        ensures
            final(self)@ == (WorkerView { status: Status::Stopped, ticks: 0, ..old(self)@ }),
            msg == WorkerMessage::Failed(old(self)@.id, error),
    {
        self.status = Status::Stopped;
        self.ticks = 0;
        WorkerMessage::Failed(self.id, error)
    }

    pub fn pause(&mut self)
        ensures
            final(self)@ == old(self)@.with_status(Status::Paused),
    {
        self.status = Status::Paused;
    }

    pub fn resume(&mut self)
        ensures
            final(self)@ == old(self)@.with_status(Status::InProgress),
    {
        self.status = Status::InProgress;
    }

    /// Applies a control operation.
    pub fn apply(&mut self, op: WorkerOp)
        ensures
            final(self)@ == applied(old(self)@, op),
    {
        match op {
            WorkerOp::Start => self.start(),
            WorkerOp::Pause => self.pause(),
            WorkerOp::Resume => self.resume(),
            WorkerOp::Stop => self.stop(),
        }
    }

    /// Advances an in-progress worker by one tick and reports what happened.
    pub fn tick(&mut self) -> (msgs: Vec<WorkerMessage>)
        requires
            old(self)@.wf(),
        ensures
            final(self)@ == ticked(old(self)@),
            final(self)@.wf(),
            msgs@ == tick_messages(old(self)@),
    {
        let mut msgs: Vec<WorkerMessage> = Vec::new();
        if self.status == Status::InProgress {
            if self.ticks >= self.blueprint.ticks {
                self.status = Status::Completed;
                msgs.push(WorkerMessage::Completed(self.id));
                return msgs;
            }
            self.ticks = self.ticks + 1;
            msgs.push(WorkerMessage::Progress(self.id, self.ticks, self.blueprint.ticks));
            if self.ticks >= self.blueprint.ticks {
                self.status = Status::Completed;
                msgs.push(WorkerMessage::Completed(self.id));
            }
        }
        msgs
    }
}

} // verus!

verus! {

/// Whether some worker of `ws` has identifier `id`.
pub open spec fn has_worker(ws: Seq<WorkerView>, id: u128) -> bool {
    exists|i: int| 0 <= i < ws.len() && ws[i].id == id
}

/// No two workers of `ws` share an identifier.
pub open spec fn worker_ids_distinct(ws: Seq<WorkerView>) -> bool {
    keys_distinct(ws, |w: WorkerView| w.id)
}

/// The position of the worker with identifier `id` (meaningful where there is one).
pub open spec fn worker_index(ws: Seq<WorkerView>, id: u128) -> int {
    choose|i: int| 0 <= i < ws.len() && ws[i].id == id
}

/// `ws` with `w` put in place of the worker with the same identifier, or
/// added at the end where there is none.
pub open spec fn insert_worker(ws: Seq<WorkerView>, w: WorkerView) -> Seq<WorkerView> {
    if has_worker(ws, w.id) {
        ws.update(worker_index(ws, w.id), w)
    } else {
        ws.push(w)
    }
}

/// Everything that one tick of every worker in `ws` reports, in worker order.
pub open spec fn tick_messages_all(ws: Seq<WorkerView>) -> Seq<WorkerMessage>
    decreases ws.len(),
{
    if ws.len() == 0 {
        Seq::empty()
    } else {
        tick_messages_all(ws.drop_last()) + tick_messages(ws.last())
    }
}

/// The mathematical content of a [`Shard`].
pub struct ShardView {
    pub id: u128,
    pub workers: Seq<WorkerView>,
    pub max_capacity: nat,
    /// identifiers of all tasks ever dispatched here, in order
    pub register: Seq<u128>,
}

impl ShardView {
    /// Number of tasks dispatched to the shard.
    pub open spec fn capacity(self) -> nat {
        self.register.len()
    }

    pub open spec fn has_room(self) -> bool {
        self.capacity() < self.max_capacity
    }

    pub open spec fn wf(self) -> bool {
        &&& worker_ids_distinct(self.workers)
        &&& forall|i: int| 0 <= i < self.workers.len() ==> #[trigger] self.workers[i].wf()
        &&& self.register.len() <= self.max_capacity
    }

    /// The shard after taking `w` in.
    pub open spec fn admitted(self, w: WorkerView) -> ShardView {
        ShardView {
            workers: insert_worker(self.workers, w),
            register: self.register.push(w.id),
            ..self
        }
    }

    /// The shard after `op` on its worker `id`.
    pub open spec fn with_op(self, id: u128, op: WorkerOp) -> ShardView {
        let i = worker_index(self.workers, id);
        ShardView { workers: self.workers.update(i, applied(self.workers[i], op)), ..self }
    }

    /// The shard after one tick of every worker.
    pub open spec fn after_tick(self) -> ShardView {
        ShardView { workers: self.workers.map_values(|w: WorkerView| ticked(w)), ..self }
    }
}

/// A shard with no workers yet.
pub open spec fn empty_shard(id: u128, max_capacity: nat) -> ShardView {
    ShardView { id, workers: Seq::empty(), max_capacity, register: Seq::empty() }
}

/// Hosts up to a fixed number of workers and ticks them together.
#[derive(Debug)]
pub struct Shard {
    pub id: u128,
    workers: Vec<Worker>,
    max_capacity: u64,
    register: Vec<u128>,
}

impl View for Shard {
    type V = ShardView;

    closed spec fn view(&self) -> ShardView {
        ShardView {
            id: self.id,
            workers: self.workers@.map_values(|w: Worker| w@),
            max_capacity: self.max_capacity as nat,
            register: self.register@,
        }
    }
}

proof fn lemma_unique_index(ws: Seq<WorkerView>, id: u128, i: int)
    requires
        worker_ids_distinct(ws),
        0 <= i < ws.len(),
        ws[i].id == id,
    ensures
        has_worker(ws, id),
        worker_index(ws, id) == i,
{
    assert(has_worker(ws, id));
    let j = worker_index(ws, id);
    assert(0 <= j < ws.len() && ws[j].id == id);
}

/// Control operations act on the run state alone: no operation changes a
/// worker's identity, owner or blueprint; start, pause and resume keep its
/// progress, and only stop drops it. Start and resume put it in progress,
/// pause pauses it, stop stops it.
pub proof fn lemma_control_changes_only_state(w: WorkerView, op: WorkerOp)
    ensures
        applied(w, op).id == w.id,
        applied(w, op).parent == w.parent,
        applied(w, op).blueprint == w.blueprint,
        op != WorkerOp::Stop ==> applied(w, op).ticks == w.ticks,
        op == WorkerOp::Stop ==> applied(w, op).ticks == 0,
        (op == WorkerOp::Start || op == WorkerOp::Resume) ==> applied(w, op).status
            == Status::InProgress,
        op == WorkerOp::Pause ==> applied(w, op).status == Status::Paused,
        op == WorkerOp::Stop ==> applied(w, op).status == Status::Stopped,
        w.wf() ==> applied(w, op).wf(),
{
}

/// Starting a paused worker again, or resuming it, carries on from the
/// progress it had: no tick of work is lost.
pub proof fn lemma_restart_keeps_progress(w: WorkerView, again: WorkerOp)
    requires
        again == WorkerOp::Start || again == WorkerOp::Resume,
    ensures
        applied(applied(w, WorkerOp::Pause), again).ticks == w.ticks,
        applied(applied(w, WorkerOp::Pause), again).status == Status::InProgress,
        applied(applied(w, WorkerOp::Pause), again) == w.with_status(Status::InProgress),
{
}

/// Ticking every worker of a list reports, among its messages, every report of
/// every single worker's tick.
pub proof fn lemma_tick_all_reports_each_worker(ws: Seq<WorkerView>, j: int, m: WorkerMessage)
    requires
        0 <= j < ws.len(),
        tick_messages(ws[j]).contains(m),
    ensures
        tick_messages_all(ws).contains(m),
    decreases ws.len(),
{
    let p = ws.drop_last();
    if j < ws.len() - 1 {
        assert(p[j] == ws[j]);
        lemma_tick_all_reports_each_worker(p, j, m);
        let k = choose|k: int| 0 <= k < tick_messages_all(p).len() && tick_messages_all(p)[k] == m;
        assert((tick_messages_all(p) + tick_messages(ws.last()))[k] == m);
    } else {
        let k = choose|k: int| 0 <= k < tick_messages(ws[j]).len() && tick_messages(ws[j])[k] == m;
        let a = tick_messages_all(p);
        assert((a + tick_messages(ws.last()))[a.len() + k] == m);
    }
}

/// What one tick of an in-progress worker reports, read off its state: one
/// step of progress towards its blueprint's ticks, and a completion report
/// once that step reaches them (or at once, where nothing is left to do).
pub proof fn lemma_tick_reports_step(w: WorkerView)
    requires
        w.status == Status::InProgress,
        w.wf(),
    ensures
        w.ticks < w.total() ==> tick_messages(w).contains(
            WorkerMessage::Progress(w.id, (w.ticks + 1) as u64, w.blueprint.ticks),
        ),
        w.ticks + 1 >= w.total() ==> tick_messages(w).contains(WorkerMessage::Completed(w.id)),
{
    if w.ticks >= w.total() {
        assert(tick_messages(w)[0] == WorkerMessage::Completed(w.id));
    } else if w.ticks + 1 >= w.total() {
        assert(tick_messages(w)[0] == WorkerMessage::Progress(
            w.id,
            (w.ticks + 1) as u64,
            w.blueprint.ticks,
        ));
        assert(tick_messages(w)[1] == WorkerMessage::Completed(w.id));
    } else {
        assert(tick_messages(w)[0] == WorkerMessage::Progress(
            w.id,
            (w.ticks + 1) as u64,
            w.blueprint.ticks,
        ));
    }
}

/// A shard with room that takes a worker in holds it afterwards, exactly as
/// given, and counts one more dispatched task.
pub proof fn lemma_admitted_holds_worker(s: ShardView, w: WorkerView)
    requires
        s.wf(),
        s.has_room(),
        w.wf(),
    ensures
        has_worker(s.admitted(w).workers, w.id),
        s.admitted(w).workers[worker_index(s.admitted(w).workers, w.id)] == w,
        s.admitted(w).capacity() == s.capacity() + 1,
        s.admitted(w).wf(),
{
    let a = s.admitted(w);
    let k = if has_worker(s.workers, w.id) {
        worker_index(s.workers, w.id)
    } else {
        s.workers.len() as int
    };
    assert(a.workers == put_at(s.workers, k, w));
    lemma_put_keeps_keys_distinct(s.workers, |v: WorkerView| v.id, k, w);
    assert(a.workers[k] == w);
    lemma_unique_index(a.workers, w.id, k);
    assert forall|j: int| 0 <= j < a.workers.len() implies #[trigger] a.workers[j].wf() by {
        if j != k {
            assert(a.workers[j] == s.workers[j]);
        }
    }
}

/// A shard never holds more dispatched tasks than its capacity allows, and a
/// shard without room has exactly as many as its capacity.
pub proof fn lemma_capacity_bounded(s: ShardView)
    requires
        s.wf(),
    ensures
        s.capacity() <= s.max_capacity,
        !s.has_room() ==> s.capacity() == s.max_capacity,
{
}

impl Shard {
    /// An empty shard that takes up to `max_capacity` tasks.
    pub fn new(id: u128, max_capacity: u64) -> (s: Self)
        ensures
            s@ == empty_shard(id, max_capacity as nat),
            s@.wf(),
    {
        let s = Shard { id, workers: Vec::new(), max_capacity, register: Vec::new() };
        assert(s@.workers =~= Seq::<WorkerView>::empty());
        s
    }

    pub fn id(&self) -> (id: u128)
        ensures
            id == self@.id,
    {
        self.id
    }

    /// Number of tasks dispatched to the shard.
    pub fn capacity(&self) -> (c: u64)
        requires
            self@.wf(),
        ensures
            c == self@.capacity(),
    {
        self.register.len() as u64
    }

    /// Number of workers the shard holds.
    pub fn worker_count(&self) -> (n: usize)
        ensures
            n == self@.workers.len(),
    {
        self.workers.len()
    }

    /// The worker at position `i`.
    pub fn worker_at(&self, i: usize) -> (w: &Worker)
        requires
            i < self@.workers.len(),
        ensures
            w@ == self@.workers[i as int],
    {
        &self.workers[i]
    }

    fn find_worker(&self, id: u128) -> (r: Option<usize>)
        requires
            self@.wf(),
        ensures
            r is Some <==> has_worker(self@.workers, id),
            r matches Some(i) ==> i < self@.workers.len() && worker_index(self@.workers, id) == i,
    {
        let mut i: usize = 0;
        while i < self.workers.len()
            invariant
                i <= self.workers.len(),
                self@.wf(),
                forall|j: int| 0 <= j < i ==> #[trigger] self@.workers[j].id != id,
            decreases self.workers.len() - i,
        {
            if self.workers[i].id() == id {
                proof {
                    lemma_unique_index(self@.workers, id, i as int);
                }
                return Some(i);
            }
            i = i + 1;
        }
        None
    }

    /// Whether the shard holds the worker `id`.
    pub fn contains_worker(&self, id: u128) -> (b: bool)
        requires
            self@.wf(),
        ensures
            b == has_worker(self@.workers, id),
    {
        self.find_worker(id).is_some()
    }

    /// The worker with identifier `id`, if the shard holds it.
    pub fn get_worker(&self, id: u128) -> (r: Option<&Worker>)
        requires
            self@.wf(),
        ensures
            r is Some <==> has_worker(self@.workers, id),
            r matches Some(w) ==> w@ == self@.workers[worker_index(self@.workers, id)],
    {
        match self.find_worker(id) {
            Some(i) => Some(&self.workers[i]),
            None => None,
        }
    }

    /// Applies `op` to the worker `id`; tells whether the shard holds it.
    pub fn apply(&mut self, id: u128, op: WorkerOp) -> (found: bool)
        requires
            old(self)@.wf(),
        ensures
            found == has_worker(old(self)@.workers, id),
            found ==> final(self)@ == old(self)@.with_op(id, op),
            !found ==> final(self)@ == old(self)@,
            final(self)@.wf(),
    {
        match self.find_worker(id) {
            Some(i) => {
                self.workers[i].apply(op);
                proof {
                    assert(self@.workers =~= old(self)@.workers.update(
                        i as int,
                        applied(old(self)@.workers[i as int], op),
                    ));
                    assert forall|j: int| 0 <= j < self@.workers.len() implies #[trigger] self@.workers[j].wf() by {
                        if j != i {
                            assert(self@.workers[j] == old(self)@.workers[j]);
                        }
                    }
                }
                true
            },
            None => false,
        }
    }

    /// Takes `worker` in if the shard has room; otherwise refuses and changes nothing.
    pub fn dispatch_worker(&mut self, worker: Worker) -> (res: Result<u128, String>)
        requires
            old(self)@.wf(),
            worker@.wf(),
        ensures
            final(self)@.wf(),
            old(self)@.has_room() ==> res == Ok::<u128, String>(worker@.id)
                && final(self)@ == old(self)@.admitted(worker@),
            !old(self)@.has_room() ==> (res matches Err(e) && e@ == "Shard capacity exceeded"@
                && final(self)@ == old(self)@),
    {
        if self.capacity() >= self.max_capacity {
            return Err(String::from_str("Shard capacity exceeded"));
        }
        let worker_id = worker.id();
        let ghost w = worker@;
        match self.find_worker(worker_id) {
            Some(i) => {
                self.workers.set(i, worker);
                assert(self@.workers =~= old(self)@.workers.update(i as int, w));
            },
            None => {
                self.workers.push(worker);
                assert(self@.workers =~= old(self)@.workers.push(w));
            },
        }
        proof {
            lemma_admitted_holds_worker(old(self)@, w);
        }
        self.register.push(worker_id);
        Ok(worker_id)
    }

    /// Makes a worker for `blueprint` with a fresh identifier if the shard has room.
    pub fn dispatch(&mut self, blueprint: &Blueprint) -> (res: Result<u128, String>)
        requires
            old(self)@.wf(),
        ensures
            final(self)@.wf(),
            old(self)@.has_room() ==> (res matches Ok(id)
                && final(self)@ == old(self)@.admitted(fresh_worker(id, blueprint@, None))
                && is_v4_id(id)),
            !old(self)@.has_room() ==> (res matches Err(e) && e@ == "Shard capacity exceeded"@
                && final(self)@ == old(self)@),
    {
        if self.capacity() >= self.max_capacity {
            return Err(String::from_str("Shard capacity exceeded"));
        }
        let worker = Worker::new(blueprint.clone());
        self.dispatch_worker(worker)
    }

    /// Makes a worker for `blueprint`, owned by `parent`, if the shard has room.
    pub fn dispatch_with_parent(&mut self, blueprint: &Blueprint, parent: u128) -> (res: Result<
        u128,
        String,
    >)
        requires
            old(self)@.wf(),
        ensures
            final(self)@.wf(),
            old(self)@.has_room() ==> (res matches Ok(id)
                && final(self)@ == old(self)@.admitted(fresh_worker(id, blueprint@, Some(parent)))
                && is_v4_id(id)),
            !old(self)@.has_room() ==> (res matches Err(e) && e@ == "Shard capacity exceeded"@
                && final(self)@ == old(self)@),
    {
        if self.capacity() >= self.max_capacity {
            return Err(String::from_str("Shard capacity exceeded"));
        }
        let worker = Worker::new_with_parent(blueprint.clone(), parent);
        self.dispatch_worker(worker)
    }

    /// Ticks every worker once and collects what they report, in worker order.
    pub fn tick_all(&mut self) -> (msgs: Vec<WorkerMessage>)
        requires
            old(self)@.wf(),
        ensures
            final(self)@ == old(self)@.after_tick(),
            final(self)@.wf(),
            msgs@ == tick_messages_all(old(self)@.workers),
    {
        let ghost old_ws = self@.workers;
        let mut msgs: Vec<WorkerMessage> = Vec::new();
        let mut i: usize = 0;
        while i < self.workers.len()
            invariant
                old_ws == old(self)@.workers,
                self.id == old(self).id,
                self.max_capacity == old(self).max_capacity,
                self.register@ == old(self).register@,
                i <= self.workers.len(),
                self.workers.len() == old_ws.len(),
                forall|j: int| 0 <= j < i ==> #[trigger] self@.workers[j] == ticked(old_ws[j]),
                forall|j: int| i <= j < old_ws.len() ==> #[trigger] self@.workers[j] == old_ws[j],
                forall|j: int| 0 <= j < old_ws.len() ==> #[trigger] old_ws[j].wf(),
                msgs@ == tick_messages_all(old_ws.take(i as int)),
            decreases self.workers.len() - i,
        {
            assert(self@.workers[i as int] == old_ws[i as int]);
            let ghost before = self@.workers;
            let mut m = self.workers[i].tick();
            proof {
                assert(self@.workers =~= before.update(i as int, ticked(old_ws[i as int])));
                assert(old_ws.take(i as int + 1).drop_last() =~= old_ws.take(i as int));
                assert(old_ws.take(i as int + 1).last() == old_ws[i as int]);
            }
            msgs.append(&mut m);
            i = i + 1;
        }
        proof {
            assert(old_ws.take(i as int) =~= old_ws);
            assert(self@.workers =~= old_ws.map_values(|w: WorkerView| ticked(w)));
            assert forall|j: int| 0 <= j < self@.workers.len() implies #[trigger] self@.workers[j].wf() by {
                lemma_tick_keeps_progress_bounded(old_ws[j]);
            }
        }
        msgs
    }
}

} // verus!

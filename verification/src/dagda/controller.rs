//! The Dagda controller: owns the shards, places tasks, and answers requests.

use vstd::prelude::*;

use crate::dagda::shard::{
    self, empty_shard, fresh_worker, has_worker, tick_messages_all, worker_index, Shard, ShardView,
    WorkerOp, WorkerView,
};
use crate::ids::{is_v4_id, new_v4_id};
use crate::keyed::{keys_distinct, lemma_put_keeps_keys_distinct, put_at};
use crate::model::{Blueprint, BlueprintView};

verus! {

/// Ticks per second.
pub const TICK_RATE: u64 = 1;

/// Run state of the controller.
#[derive(Debug, Clone, Copy, PartialEq, Eq, Structural)]
pub enum Status {
    Running,
    Stopping,
    Stopped,
}

impl Status {
    /// The value the controller's status gauge takes: 0 stopped, 1 running, 2 stopping.
    pub fn metric_value(&self) -> (v: i64)
        ensures
            v == match self {
                Status::Stopped => 0i64,
                Status::Running => 1i64,
                Status::Stopping => 2i64,
            },
    {
        match self {
            Status::Stopped => 0,
            Status::Running => 1,
            Status::Stopping => 2,
        }
    }

    /// The lower-case name of the status.
    pub open spec fn label(self) -> Seq<char> {
        match self {
            Status::Running => "running"@,
            Status::Stopping => "stopping"@,
            Status::Stopped => "stopped"@,
        }
    }

    /// The lower-case name of the status.
    pub fn as_str(&self) -> (s: &'static str)
        ensures
            s@ == self.label(),
    {
        match self {
            Status::Running => "running",
            Status::Stopping => "stopping",
            Status::Stopped => "stopped",
        }
    }
}

/// Lifecycle of a building as players see it.
#[derive(Debug, Clone, Copy, PartialEq, Eq, Structural)]
pub enum BuildingStatus {
    Pending,
    InProgress,
    Paused,
    Cancelled,
    Completed,
}

/// What a worker reports back after a step.
#[derive(Debug)]
pub enum WorkerMessage {
    Completed(u128),
    Failed(u128, String),
    /// worker, current ticks, total ticks
    Progress(u128, u64, u64),
}

/// A summary of one worker, as listed for its owner.
#[derive(Debug)]
pub struct WorkerInfo {
    pub id: u128,
    pub name: String,
    pub status: shard::Status,
    pub ticks: u64,
    pub total_ticks: u64,
    pub parent: Option<u128>,
}

/// The mathematical content of a [`WorkerInfo`].
pub struct WorkerInfoView {
    pub id: u128,
    pub name: Seq<char>,
    pub status: shard::Status,
    pub ticks: u64,
    pub total_ticks: u64,
    pub parent: Option<u128>,
}

impl View for WorkerInfo {
    type V = WorkerInfoView;

    open spec fn view(&self) -> WorkerInfoView {
        WorkerInfoView {
            id: self.id,
            name: self.name@,
            status: self.status,
            ticks: self.ticks,
            total_ticks: self.total_ticks,
            parent: self.parent,
        }
    }
}

/// How the controller lists a worker for its owner.
pub open spec fn info_of(w: WorkerView) -> WorkerInfoView {
    WorkerInfoView {
        id: w.id,
        name: w.blueprint.slug,
        status: w.status,
        ticks: w.ticks as u64,
        total_ticks: w.blueprint.ticks,
        parent: w.parent,
    }
}

/// The listing of the workers of `ws` that `parent_id` owns, in order.
pub open spec fn parent_infos_in(ws: Seq<WorkerView>, parent_id: u128) -> Seq<WorkerInfoView>
    decreases ws.len(),
{
    if ws.len() == 0 {
        Seq::empty()
    } else {
        parent_infos_in(ws.drop_last(), parent_id) + if ws.last().parent == Some(parent_id) {
            seq![info_of(ws.last())]
        } else {
            Seq::empty()
        }
    }
}

/// The listing of all workers that `parent_id` owns, shard by shard.
pub open spec fn parent_infos(shards: Seq<ShardView>, parent_id: u128) -> Seq<WorkerInfoView>
    decreases shards.len(),
{
    if shards.len() == 0 {
        Seq::empty()
    } else {
        parent_infos(shards.drop_last(), parent_id) + parent_infos_in(shards.last().workers, parent_id)
    }
}

/// How many workers of `ws` are in state `st`.
pub open spec fn count_status(ws: Seq<WorkerView>, st: shard::Status) -> nat
    decreases ws.len(),
{
    if ws.len() == 0 {
        0
    } else {
        count_status(ws.drop_last(), st) + if ws.last().status == st {
            1nat
        } else {
            0nat
        }
    }
}

/// Everything one tick of every shard reports, shard by shard.
pub open spec fn tick_messages_shards(shards: Seq<ShardView>) -> Seq<WorkerMessage>
    decreases shards.len(),
{
    if shards.len() == 0 {
        Seq::empty()
    } else {
        tick_messages_shards(shards.drop_last()) + tick_messages_all(shards.last().workers)
    }
}

/// Worker counts of one shard, by status.
#[derive(Debug, Clone, Copy, PartialEq, Eq, Structural)]
pub struct ShardStats {
    pub shard_id: u128,
    pub workers: usize,
    pub idle: usize,
    pub in_progress: usize,
    pub paused: usize,
    pub stopped: usize,
    pub completed: usize,
}

impl ShardStats {
    /// The counts that describe shard `s` exactly.
    pub open spec fn describes(self, s: ShardView) -> bool {
        &&& self.shard_id == s.id
        &&& self.workers == s.workers.len()
        &&& self.idle == count_status(s.workers, shard::Status::Idle)
        &&& self.in_progress == count_status(s.workers, shard::Status::InProgress)
        &&& self.paused == count_status(s.workers, shard::Status::Paused)
        &&& self.stopped == count_status(s.workers, shard::Status::Stopped)
        &&& self.completed == count_status(s.workers, shard::Status::Completed)
    }
}

/// A request to the controller, as its inbox receives it.
#[derive(Debug)]
pub enum Request {
    Task(Blueprint),
    TaskWithParent(Blueprint, u128),
    Status,
    Stop,
    WorkerStart(u128),
    WorkerPause(u128),
    WorkerResume(u128),
    WorkerCancel(u128),
    WorkerStatus(u128),
    WorkersByParent(u128),
    /// worker, parent
    WorkerStartWithParent(u128, u128),
    WorkerPauseWithParent(u128, u128),
    WorkerResumeWithParent(u128, u128),
    WorkerStopWithParent(u128, u128),
}

/// The controller's answer to a [`Request`].
#[derive(Debug)]
pub enum Response {
    /// the new worker's identifier
    Created(u128),
    Status(Status),
    Stopping,
    /// whether the worker was found
    Applied(bool),
    WorkerStatus(shard::Status),
    Workers(Vec<WorkerInfo>),
    Control(Result<(), String>),
}

/// The mathematical content of a [`Dagda`].
pub struct DagdaView {
    pub max_shard_capacity: nat,
    pub status: Status,
    pub shards: Seq<ShardView>,
}

/// Whether some shard of `shards` has identifier `id`.
pub open spec fn has_shard(shards: Seq<ShardView>, id: u128) -> bool {
    exists|i: int| 0 <= i < shards.len() && shards[i].id == id
}

/// The position of the shard with identifier `id` (meaningful where there is one).
pub open spec fn shard_index(shards: Seq<ShardView>, id: u128) -> int {
    choose|i: int| 0 <= i < shards.len() && shards[i].id == id
}

/// `shards` with `s` put in place of the shard with the same identifier, or
/// added at the end where there is none.
pub open spec fn insert_shard(shards: Seq<ShardView>, s: ShardView) -> Seq<ShardView> {
    if has_shard(shards, s.id) {
        shards.update(shard_index(shards, s.id), s)
    } else {
        shards.push(s)
    }
}

/// The first shard, in order, that can take another task.
pub open spec fn first_with_room(shards: Seq<ShardView>) -> Option<int>
    decreases shards.len(),
{
    if shards.len() == 0 {
        None
    } else {
        match first_with_room(shards.drop_last()) {
            Some(i) => Some(i),
            None => if shards.last().has_room() {
                Some(shards.len() - 1)
            } else {
                None
            },
        }
    }
}

/// The first shard, in order, that holds the worker `id`.
pub open spec fn locate_worker(shards: Seq<ShardView>, id: u128) -> Option<int>
    decreases shards.len(),
{
    if shards.len() == 0 {
        None
    } else {
        match locate_worker(shards.drop_last(), id) {
            Some(i) => Some(i),
            None => if has_worker(shards.last().workers, id) {
                Some(shards.len() - 1)
            } else {
                None
            },
        }
    }
}

/// The worker `id` as the controller finds it: in the first shard that holds it.
pub open spec fn find_worker(shards: Seq<ShardView>, id: u128) -> Option<WorkerView> {
    match locate_worker(shards, id) {
        Some(i) => Some(shards[i].workers[worker_index(shards[i].workers, id)]),
        None => None,
    }
}

/// Whether the worker `worker_id` exists and belongs to `parent_id`.
pub open spec fn belongs_to(shards: Seq<ShardView>, worker_id: u128, parent_id: u128) -> bool {
    match find_worker(shards, worker_id) {
        Some(w) => w.parent == Some(parent_id),
        None => false,
    }
}

impl DagdaView {
    pub open spec fn wf(self) -> bool {
        &&& keys_distinct(self.shards, |s: ShardView| s.id)
        &&& forall|i: int| 0 <= i < self.shards.len() ==> #[trigger] self.shards[i].wf()
        &&& forall|i: int|
            0 <= i < self.shards.len() ==> #[trigger] self.shards[i].max_capacity
                == self.max_shard_capacity
    }

    pub open spec fn with_shards(self, shards: Seq<ShardView>) -> DagdaView {
        DagdaView { shards, ..self }
    }

    pub open spec fn with_status(self, status: Status) -> DagdaView {
        DagdaView { status, ..self }
    }

    /// The controller after adding an empty shard `id`.
    pub open spec fn shard_added(self, id: u128) -> DagdaView {
        self.with_shards(insert_shard(self.shards, empty_shard(id, self.max_shard_capacity)))
    }

    /// The controller after `op` on the worker `id`, where it is found.
    pub open spec fn worker_op_applied(self, id: u128, op: WorkerOp) -> DagdaView {
        match locate_worker(self.shards, id) {
            Some(i) => self.with_shards(self.shards.update(i, self.shards[i].with_op(id, op))),
            None => self,
        }
    }

    /// The state the controller is in once shard `shard_id` has been picked.
    pub open spec fn after_pick(self, shard_id: u128) -> DagdaView {
        match first_with_room(self.shards) {
            Some(i) => self,
            None => self.shard_added(shard_id),
        }
    }

    /// Whether picking may yield `shard_id`.
    pub open spec fn may_pick(self, shard_id: u128) -> bool {
        match first_with_room(self.shards) {
            Some(i) => shard_id == self.shards[i].id,
            None => true,
        }
    }

    /// The task went to shard `shard_id`, picked as [`Dagda::pick_shard`] picks,
    /// and became the fresh worker `worker_id` there.
    pub open spec fn placed_on(
        self,
        after: DagdaView,
        blueprint: BlueprintView,
        parent: Option<u128>,
        worker_id: u128,
        shard_id: u128,
    ) -> bool {
        let mid = self.after_pick(shard_id);
        let i = shard_index(mid.shards, shard_id);
        &&& self.may_pick(shard_id)
        &&& after == mid.with_shards(
            mid.shards.update(i, mid.shards[i].admitted(fresh_worker(worker_id, blueprint, parent))),
        )
    }

    /// The task became the fresh worker `worker_id` on a picked shard.
    pub open spec fn task_placed(
        self,
        after: DagdaView,
        blueprint: BlueprintView,
        parent: Option<u128>,
        worker_id: u128,
    ) -> bool {
        exists|shard_id: u128| #[trigger] self.placed_on(after, blueprint, parent, worker_id, shard_id)
    }

    /// The controller after one tick of every shard.
    pub open spec fn after_tick(self) -> DagdaView {
        self.with_shards(self.shards.map_values(|s: ShardView| s.after_tick()))
    }

    /// What an operation on behalf of `parent_id` leaves: done where the parent
    /// owns the worker, refused with nothing changed otherwise.
    pub open spec fn controlled(
        self,
        after: DagdaView,
        worker_id: u128,
        parent_id: u128,
        op: WorkerOp,
        res: Result<(), String>,
    ) -> bool {
        if belongs_to(self.shards, worker_id, parent_id) {
            res is Ok && after == self.worker_op_applied(worker_id, op)
        } else {
            res matches Err(e) && e@ == "Worker not found or not owned by parent"@ && after == self
        }
    }

    /// What a plain operation leaves: applied where the worker is found.
    pub open spec fn operated(
        self,
        after: DagdaView,
        worker_id: u128,
        op: WorkerOp,
        resp: Response,
    ) -> bool {
        &&& resp == Response::Applied(locate_worker(self.shards, worker_id) is Some)
        &&& after == self.worker_op_applied(worker_id, op)
    }

    /// The relation between the controller before and after a request, and its answer.
    pub open spec fn handled(self, after: DagdaView, request: Request, resp: Response) -> bool {
        match request {
            Request::Task(bp) => resp matches Response::Created(id) && self.task_placed(
                after,
                bp@,
                None,
                id,
            ),
            Request::TaskWithParent(bp, parent) => resp matches Response::Created(id)
                && self.task_placed(after, bp@, Some(parent), id),
            Request::Status => resp == Response::Status(self.status) && after == self,
            Request::Stop => resp == Response::Stopping && after == self.with_status(
                Status::Stopping,
            ),
            Request::WorkerStart(w) => self.operated(after, w, WorkerOp::Start, resp),
            Request::WorkerPause(w) => self.operated(after, w, WorkerOp::Pause, resp),
            Request::WorkerResume(w) => self.operated(after, w, WorkerOp::Resume, resp),
            Request::WorkerCancel(w) => self.operated(after, w, WorkerOp::Stop, resp),
            Request::WorkerStatus(w) => after == self && resp == Response::WorkerStatus(
                match find_worker(self.shards, w) {
                    Some(v) => v.status,
                    None => shard::Status::Stopped,
                },
            ),
            Request::WorkersByParent(p) => after == self && (resp matches Response::Workers(v)
                && v@.map_values(|i: WorkerInfo| i@) == parent_infos(self.shards, p)),
            Request::WorkerStartWithParent(w, p) => resp matches Response::Control(r)
                && self.controlled(after, w, p, WorkerOp::Start, r),
            Request::WorkerPauseWithParent(w, p) => resp matches Response::Control(r)
                && self.controlled(after, w, p, WorkerOp::Pause, r),
            Request::WorkerResumeWithParent(w, p) => resp matches Response::Control(r)
                && self.controlled(after, w, p, WorkerOp::Resume, r),
            Request::WorkerStopWithParent(w, p) => resp matches Response::Control(r)
                && self.controlled(after, w, p, WorkerOp::Stop, r),
        }
    }

    /// The relation between the controller before and after picking shard `picked`:
    /// the first shard with room where there is one, unchanged controller;
    /// otherwise a new empty shard.
    pub open spec fn picked(self, after: DagdaView, picked: u128) -> bool {
        match first_with_room(self.shards) {
            Some(i) => picked == self.shards[i].id && after == self,
            None => after == self.shard_added(picked),
        }
    }
}

/// Places tasks on shards, ticks them, and answers control requests.
#[derive(Debug)]
pub struct Dagda {
    max_shard_capacity: u64,
    status: Status,
    pub shards: Vec<Shard>,
}

impl View for Dagda {
    type V = DagdaView;

    closed spec fn view(&self) -> DagdaView {
        DagdaView {
            max_shard_capacity: self.max_shard_capacity as nat,
            status: self.status,
            shards: self.shards@.map_values(|s: Shard| s@),
        }
    }
}

impl Dagda {
    /// A stopped controller with no shards, whose shards take up to
    /// `max_shard_capacity` tasks each.
    pub fn new(max_shard_capacity: u64) -> (d: Self)
        ensures
            d@ == (DagdaView {
                max_shard_capacity: max_shard_capacity as nat,
                status: Status::Stopped,
                shards: Seq::empty(),
            }),
            d@.wf(),
    {
        let d = Dagda { max_shard_capacity, status: Status::Stopped, shards: Vec::new() };
        assert(d@.shards =~= Seq::<ShardView>::empty());
        d
    }

    pub fn status(&self) -> (s: Status)
        ensures
            s == self@.status,
    {
        self.status
    }

    /// Tasks each shard takes at most.
    pub fn max_shard_capacity(&self) -> (m: u64)
        ensures
            m == self@.max_shard_capacity,
    {
        self.max_shard_capacity
    }

    /// Asks the controller to stop; it does so before its next event.
    pub fn stop(&mut self)
        ensures
            final(self)@ == old(self)@.with_status(Status::Stopping),
    {
        self.status = Status::Stopping;
    }

    /// Marks the controller as running, as it enters its event loop.
    pub fn start(&mut self)
        ensures
            final(self)@ == old(self)@.with_status(Status::Running),
    {
        self.status = Status::Running;
    }

    /// Marks the controller as stopped, as it leaves its event loop.
    pub fn finish(&mut self)
        ensures
            final(self)@ == old(self)@.with_status(Status::Stopped),
    {
        self.status = Status::Stopped;
    }

    /// Whether the event loop goes on.
    pub fn is_running(&self) -> (b: bool)
        ensures
            b == (self@.status == Status::Running),
    {
        self.status == Status::Running
    }

    /// Milliseconds between two ticks.
    pub fn interval_millis(&self) -> (ms: u64)
        ensures
            ms == 1000u64 / TICK_RATE,
    {
        1000 / TICK_RATE
    }

    /// Number of shards.
    pub fn shard_count(&self) -> (n: usize)
        ensures
            n == self@.shards.len(),
    {
        self.shards.len()
    }

    fn find_shard(&self, id: u128) -> (r: Option<usize>)
        requires
            self@.wf(),
        ensures
            r is Some <==> has_shard(self@.shards, id),
            r matches Some(i) ==> i < self@.shards.len() && shard_index(self@.shards, id) == i,
    {
        let mut i: usize = 0;
        while i < self.shards.len()
            invariant
                i <= self.shards.len(),
                self@.wf(),
                forall|j: int| 0 <= j < i ==> #[trigger] self@.shards[j].id != id,
            decreases self.shards.len() - i,
        {
            if self.shards[i].id() == id {
                assert(self@.shards[i as int].id == id);
                let ghost j = shard_index(self@.shards, id);
                assert(0 <= j < self@.shards.len() && self@.shards[j].id == id);
                return Some(i);
            }
            i = i + 1;
        }
        None
    }

    /// Whether there is a shard with identifier `id`.
    pub fn has_shard(&self, id: u128) -> (b: bool)
        requires
            self@.wf(),
        ensures
            b == has_shard(self@.shards, id),
    {
        self.find_shard(id).is_some()
    }

    /// Adds an empty shard with identifier `id`, in place of any shard that had it.
    pub fn add_shard_with_id(&mut self, id: u128) -> (r: u128)
        requires
            old(self)@.wf(),
        ensures
            r == id,
            final(self)@ == old(self)@.shard_added(id),
            final(self)@.wf(),
    {
        let shard = Shard::new(id, self.max_shard_capacity);
        let ghost s = shard@;
        match self.find_shard(id) {
            Some(i) => {
                self.shards.set(i, shard);
                assert(self@.shards =~= old(self)@.shards.update(i as int, s));
            },
            None => {
                self.shards.push(shard);
                assert(self@.shards =~= old(self)@.shards.push(s));
            },
        }
        proof {
            lemma_shard_added_keeps_wf(old(self)@, id);
        }
        id
    }

    /// Adds an empty shard with a fresh random identifier and returns the identifier.
    pub fn add_shard(&mut self) -> (r: u128)
        requires
            old(self)@.wf(),
        ensures
            final(self)@ == old(self)@.shard_added(r),
            is_v4_id(r),
            final(self)@.wf(),
    {
        let id = new_v4_id();
        self.add_shard_with_id(id)
    }

    fn locate(&self, id: u128) -> (r: Option<usize>)
        requires
            self@.wf(),
        ensures
            r is Some <==> locate_worker(self@.shards, id) is Some,
            r matches Some(i) ==> i < self@.shards.len() && locate_worker(self@.shards, id) == Some(
                i as int,
            ),
    {
        let mut i: usize = 0;
        while i < self.shards.len()
            invariant
                i <= self.shards.len(),
                self@.wf(),
                locate_worker(self@.shards.take(i as int), id) is None,
            decreases self.shards.len() - i,
        {
            proof {
                assert(self@.shards.take(i as int + 1).drop_last() =~= self@.shards.take(i as int));
            }
            assert(self.shards@[i as int]@ == self@.shards[i as int]);
            assert(self@.shards[i as int].wf());
            if self.shards[i].contains_worker(id) {
                proof {
                    lemma_locate_prefix(self@.shards, id, i as int + 1);
                }
                return Some(i);
            }
            i = i + 1;
        }
        proof {
            assert(self@.shards.take(i as int) =~= self@.shards);
        }
        None
    }

    /// The shard that holds the worker `worker_id`: the first one, in order.
    pub fn lookup_worker(&self, worker_id: u128) -> (r: Option<&Shard>)
        requires
            self@.wf(),
        ensures
            r is Some <==> locate_worker(self@.shards, worker_id) is Some,
            r matches Some(s) ==> s@ == self@.shards[locate_worker(self@.shards, worker_id)->0]
                && s@.wf() && has_worker(s@.workers, worker_id),
    {
        proof {
            lemma_located_has_worker(self@.shards, worker_id);
        }
        match self.locate(worker_id) {
            Some(i) => {
                assert(self.shards@[i as int]@ == self@.shards[i as int]);
                assert(self@.shards[i as int].wf());
                Some(&self.shards[i])
            },
            None => None,
        }
    }

    /// Whether the worker `worker_id` exists and belongs to `parent_id`.
    pub fn worker_belongs_to_parent(&self, worker_id: u128, parent_id: u128) -> (b: bool)
        requires
            self@.wf(),
        ensures
            b == belongs_to(self@.shards, worker_id, parent_id),
    {
        if let Some(shard) = self.lookup_worker(worker_id) {
            if let Some(worker) = shard.get_worker(worker_id) {
                return worker.is_child(parent_id);
            }
        }
        false
    }

    /// The status of the worker `worker_id`; a worker that cannot be found counts as stopped.
    pub fn worker_status(&self, worker_id: u128) -> (st: shard::Status)
        requires
            self@.wf(),
        ensures
            st == match find_worker(self@.shards, worker_id) {
                Some(w) => w.status,
                None => shard::Status::Stopped,
            },
    {
        if let Some(shard) = self.lookup_worker(worker_id) {
            if let Some(worker) = shard.get_worker(worker_id) {
                return worker.status();
            }
        }
        shard::Status::Stopped
    }

    /// The slug of the blueprint that the worker `worker_id` builds, if it can be found.
    pub fn worker_slug(&self, worker_id: u128) -> (r: Option<String>)
        requires
            self@.wf(),
        ensures
            r is Some <==> find_worker(self@.shards, worker_id) is Some,
            r matches Some(slug) ==> slug@ == find_worker(self@.shards, worker_id)->0.blueprint.slug,
    {
        if let Some(shard) = self.lookup_worker(worker_id) {
            if let Some(worker) = shard.get_worker(worker_id) {
                return Some(worker.blueprint().slug.clone());
            }
        }
        None
    }

    fn apply_at(&mut self, i: usize, worker_id: u128, op: WorkerOp) -> (found: bool)
        requires
            old(self)@.wf(),
            i < old(self)@.shards.len(),
        ensures
            found == has_worker(old(self)@.shards[i as int].workers, worker_id),
            found ==> final(self)@ == old(self)@.with_shards(
                old(self)@.shards.update(i as int, old(self)@.shards[i as int].with_op(worker_id, op)),
            ),
            !found ==> final(self)@ == old(self)@,
            final(self)@.wf(),
    {
        assert(self.shards@[i as int]@ == self@.shards[i as int]);
        assert(self@.shards[i as int].wf());
        let ghost before = self@.shards;
        let found = self.shards[i].apply(worker_id, op);
        proof {
            if found {
                assert(self@.shards =~= before.update(i as int, before[i as int].with_op(worker_id, op)));
            } else {
                assert(self@.shards =~= before);
            }
            assert forall|j: int| 0 <= j < self@.shards.len() implies #[trigger] self@.shards[j].id
                == before[j].id && self@.shards[j].max_capacity == before[j].max_capacity by {
                if j != i {
                    assert(self@.shards[j] == before[j]);
                }
            }
            assert forall|j: int| 0 <= j < self@.shards.len() implies #[trigger] self@.shards[j].wf() by {
                if j != i {
                    assert(self@.shards[j] == before[j]);
                }
            }
        }
        found
    }

    /// Applies `op` to the worker `worker_id`; tells whether it was found.
    pub fn apply_to_worker(&mut self, worker_id: u128, op: WorkerOp) -> (found: bool)
        requires
            old(self)@.wf(),
        ensures
            found == (locate_worker(old(self)@.shards, worker_id) is Some),
            final(self)@ == old(self)@.worker_op_applied(worker_id, op),
            final(self)@.wf(),
    {
        match self.locate(worker_id) {
            Some(i) => {
                proof {
                    lemma_located_has_worker(self@.shards, worker_id);
                }
                self.apply_at(i, worker_id, op)
            },
            None => false,
        }
    }

    /// Applies `op` to the worker `worker_id` on behalf of `parent_id`, which must own it.
    pub fn control_with_parent(&mut self, worker_id: u128, parent_id: u128, op: WorkerOp) -> (res:
        Result<(), String>)
        requires
            old(self)@.wf(),
        ensures
            final(self)@.wf(),
            belongs_to(old(self)@.shards, worker_id, parent_id) ==> res is Ok && final(self)@
                == old(self)@.worker_op_applied(worker_id, op),
            !belongs_to(old(self)@.shards, worker_id, parent_id) ==> (res matches Err(e) && e@
                == "Worker not found or not owned by parent"@ && final(self)@ == old(self)@),
    {
        if !self.worker_belongs_to_parent(worker_id, parent_id) {
            return Err(String::from_str("Worker not found or not owned by parent"));
        }
        match self.locate(worker_id) {
            Some(i) => {
                proof {
                    lemma_located_has_worker(self@.shards, worker_id);
                }
                if self.apply_at(i, worker_id, op) {
                    Ok(())
                } else {
                    Err(String::from_str("Worker not found"))
                }
            },
            None => Err(String::from_str("Shard not found")),
        }
    }

    /// Puts a task for `blueprint` on the picked shard and returns the new worker's identifier.
    pub fn place_task(&mut self, blueprint: &Blueprint, parent: Option<u128>) -> (worker_id: u128)
        requires
            old(self)@.wf(),
            old(self)@.max_shard_capacity > 0,
        ensures
            final(self)@.wf(),
            old(self)@.task_placed(final(self)@, blueprint@, parent, worker_id),
    {
        let ghost old_view = self@;
        let shard_id = self.pick_shard();
        let ghost mid = self@;
        proof {
            lemma_picked_has_room(old_view, mid, shard_id);
        }
        let i = match self.find_shard(shard_id) {
            Some(i) => i,
            None => {
                proof {
                    assert(false);
                }
                return 0;
            },
        };
        assert(self.shards@[i as int]@ == self@.shards[i as int]);
        assert(self@.shards[i as int].wf());
        let res = match parent {
            Some(p) => self.shards[i].dispatch_with_parent(blueprint, p),
            None => self.shards[i].dispatch(blueprint),
        };
        match res {
            Ok(worker_id) => {
                proof {
                    let w = fresh_worker(worker_id, blueprint@, parent);
                    assert(self@.shards =~= mid.shards.update(i as int, mid.shards[i as int].admitted(w)));
                    assert forall|j: int| 0 <= j < self@.shards.len() implies #[trigger] self@.shards[j].id
                        == mid.shards[j].id && self@.shards[j].max_capacity == mid.shards[j].max_capacity by {
                        if j != i {
                            assert(self@.shards[j] == mid.shards[j]);
                        }
                    }
                    assert forall|j: int| 0 <= j < self@.shards.len() implies #[trigger] self@.shards[j].wf() by {
                        if j != i {
                            assert(self@.shards[j] == mid.shards[j]);
                        }
                    }
                    assert(old_view.placed_on(self@, blueprint@, parent, worker_id, shard_id));
                }
                worker_id
            },
            Err(_) => {
                proof {
                    assert(false);
                }
                0
            },
        }
    }

    /// The workers that `parent_id` owns, shard by shard, in order.
    pub fn workers_by_parent(&self, parent_id: u128) -> (infos: Vec<WorkerInfo>)
        requires
            self@.wf(),
        ensures
            infos@.map_values(|i: WorkerInfo| i@) == parent_infos(self@.shards, parent_id),
    {
        let mut infos: Vec<WorkerInfo> = Vec::new();
        let mut i: usize = 0;
        while i < self.shards.len()
            invariant
                i <= self.shards.len(),
                self@.wf(),
                infos@.map_values(|x: WorkerInfo| x@) == parent_infos(self@.shards.take(i as int), parent_id),
            decreases self.shards.len() - i,
        {
            let shard = &self.shards[i];
            assert(shard@ == self@.shards[i as int]);
            assert(shard@.wf());
            let ghost ws = shard@.workers;
            let ghost prefix = infos@.map_values(|x: WorkerInfo| x@);
            let mut j: usize = 0;
            while j < shard.worker_count()
                invariant
                    j <= ws.len(),
                    ws == shard@.workers,
                    shard@.wf(),
                    infos@.map_values(|x: WorkerInfo| x@) == prefix + parent_infos_in(ws.take(j as int), parent_id),
                decreases ws.len() - j,
            {
                let worker = shard.worker_at(j);
                proof {
                    assert(ws.take(j as int + 1).drop_last() =~= ws.take(j as int));
                    assert(ws[j as int].wf());
                }
                if worker.is_child(parent_id) {
                    let (current_ticks, total_ticks) = worker.progress();
                    let info = WorkerInfo {
                        id: worker.id(),
                        name: worker.blueprint().slug.clone(),
                        status: worker.status(),
                        ticks: current_ticks,
                        total_ticks,
                        parent: worker.parent(),
                    };
                    let ghost before = infos@;
                    infos.push(info);
                    proof {
                        assert(infos@.map_values(|x: WorkerInfo| x@) =~= before.map_values(|x: WorkerInfo| x@).push(info_of(ws[j as int])));
                        assert(infos@.map_values(|x: WorkerInfo| x@) =~= prefix + parent_infos_in(ws.take(j as int + 1), parent_id));
                    }
                } else {
                    assert(parent_infos_in(ws.take(j as int + 1), parent_id) =~= parent_infos_in(ws.take(j as int), parent_id));
                }
                j = j + 1;
            }
            proof {
                assert(ws.take(j as int) =~= ws);
                assert(self@.shards.take(i as int + 1).drop_last() =~= self@.shards.take(i as int));
            }
            i = i + 1;
        }
        proof {
            assert(self@.shards.take(i as int) =~= self@.shards);
        }
        infos
    }

    /// Worker counts by status, one entry per shard, in shard order.
    pub fn shard_stats(&self) -> (stats: Vec<ShardStats>)
        requires
            self@.wf(),
        ensures
            stats@.len() == self@.shards.len(),
            forall|i: int| 0 <= i < stats@.len() ==> #[trigger] stats@[i].describes(self@.shards[i]),
    {
        let mut stats: Vec<ShardStats> = Vec::new();
        let mut i: usize = 0;
        while i < self.shards.len()
            invariant
                i <= self.shards.len(),
                stats@.len() == i,
                forall|k: int| 0 <= k < i ==> #[trigger] stats@[k].describes(self@.shards[k]),
            decreases self.shards.len() - i,
        {
            let shard = &self.shards[i];
            assert(shard@ == self@.shards[i as int]);
            let ghost ws = shard@.workers;
            let mut idle: usize = 0;
            let mut in_progress: usize = 0;
            let mut paused: usize = 0;
            let mut stopped: usize = 0;
            let mut completed: usize = 0;
            let mut j: usize = 0;
            while j < shard.worker_count()
                invariant
                    j <= ws.len(),
                    ws == shard@.workers,
                    idle == count_status(ws.take(j as int), shard::Status::Idle),
                    in_progress == count_status(ws.take(j as int), shard::Status::InProgress),
                    paused == count_status(ws.take(j as int), shard::Status::Paused),
                    stopped == count_status(ws.take(j as int), shard::Status::Stopped),
                    completed == count_status(ws.take(j as int), shard::Status::Completed),
                    idle + in_progress + paused + stopped + completed == j,
                decreases ws.len() - j,
            {
                proof {
                    assert(ws.take(j as int + 1).drop_last() =~= ws.take(j as int));
                }
                match shard.worker_at(j).status() {
                    shard::Status::Idle => idle = idle + 1,
                    shard::Status::InProgress => in_progress = in_progress + 1,
                    shard::Status::Paused => paused = paused + 1,
                    shard::Status::Stopped => stopped = stopped + 1,
                    shard::Status::Completed => completed = completed + 1,
                }
                j = j + 1;
            }
            proof {
                assert(ws.take(j as int) =~= ws);
            }
            stats.push(
                ShardStats {
                    shard_id: shard.id(),
                    workers: shard.worker_count(),
                    idle,
                    in_progress,
                    paused,
                    stopped,
                    completed,
                },
            );
            i = i + 1;
        }
        stats
    }

    /// Ticks every shard once and collects what the workers report.
    pub fn on_tick(&mut self) -> (msgs: Vec<WorkerMessage>)
        requires
            old(self)@.wf(),
        ensures
            final(self)@ == old(self)@.after_tick(),
            final(self)@.wf(),
            msgs@ == tick_messages_shards(old(self)@.shards),
    {
        let ghost old_shards = self@.shards;
        let mut msgs: Vec<WorkerMessage> = Vec::new();
        let mut i: usize = 0;
        while i < self.shards.len()
            invariant
                old_shards == old(self)@.shards,
                self.max_shard_capacity == old(self).max_shard_capacity,
                self.status == old(self).status,
                i <= self.shards.len(),
                self.shards.len() == old_shards.len(),
                forall|j: int| 0 <= j < i ==> #[trigger] self@.shards[j] == old_shards[j].after_tick(),
                forall|j: int| i <= j < old_shards.len() ==> #[trigger] self@.shards[j] == old_shards[j],
                old(self)@.wf(),
                msgs@ == tick_messages_shards(old_shards.take(i as int)),
            decreases self.shards.len() - i,
        {
            assert(self.shards@[i as int]@ == self@.shards[i as int]);
            assert(self@.shards[i as int] == old_shards[i as int]);
            assert(old_shards[i as int].wf());
            let ghost before = self@.shards;
            let mut m = self.shards[i].tick_all();
            proof {
                assert(self@.shards =~= before.update(i as int, old_shards[i as int].after_tick()));
                assert(old_shards.take(i as int + 1).drop_last() =~= old_shards.take(i as int));
            }
            msgs.append(&mut m);
            i = i + 1;
        }
        proof {
            assert(old_shards.take(i as int) =~= old_shards);
            assert(self@.shards =~= old_shards.map_values(|s: ShardView| s.after_tick()));
            lemma_after_tick_keeps_shards(old(self)@);
        }
        msgs
    }

    /// Answers one request: the decisions of the controller's event loop.
    pub fn handle(&mut self, request: Request) -> (resp: Response)
        requires
            old(self)@.wf(),
            request is Task || request is TaskWithParent ==> old(self)@.max_shard_capacity > 0,
        ensures
            final(self)@.wf(),
            old(self)@.handled(final(self)@, request, resp),
    {
        match request {
            Request::Task(blueprint) => Response::Created(self.place_task(&blueprint, None)),
            Request::TaskWithParent(blueprint, parent) => Response::Created(
                self.place_task(&blueprint, Some(parent)),
            ),
            Request::Status => Response::Status(self.status),
            Request::Stop => {
                self.stop();
                Response::Stopping
            },
            Request::WorkerStart(w) => Response::Applied(self.apply_to_worker(w, WorkerOp::Start)),
            Request::WorkerPause(w) => Response::Applied(self.apply_to_worker(w, WorkerOp::Pause)),
            Request::WorkerResume(w) => Response::Applied(self.apply_to_worker(w, WorkerOp::Resume)),
            Request::WorkerCancel(w) => Response::Applied(self.apply_to_worker(w, WorkerOp::Stop)),
            Request::WorkerStatus(w) => Response::WorkerStatus(self.worker_status(w)),
            Request::WorkersByParent(p) => Response::Workers(self.workers_by_parent(p)),
            Request::WorkerStartWithParent(w, p) => Response::Control(
                self.control_with_parent(w, p, WorkerOp::Start),
            ),
            Request::WorkerPauseWithParent(w, p) => Response::Control(
                self.control_with_parent(w, p, WorkerOp::Pause),
            ),
            Request::WorkerResumeWithParent(w, p) => Response::Control(
                self.control_with_parent(w, p, WorkerOp::Resume),
            ),
            Request::WorkerStopWithParent(w, p) => Response::Control(
                self.control_with_parent(w, p, WorkerOp::Stop),
            ),
        }
    }

    /// The shard to put the next task on: the first shard with room, or a new
    /// shard where none has room.
    pub fn pick_shard(&mut self) -> (r: u128)
        requires
            old(self)@.wf(),
        ensures
            old(self)@.picked(final(self)@, r),
            first_with_room(old(self)@.shards) is None ==> is_v4_id(r),
            final(self)@.wf(),
    {
        let mut i: usize = 0;
        while i < self.shards.len()
            invariant
                i <= self.shards.len(),
                self@ == old(self)@,
                self@.wf(),
                first_with_room(self@.shards.take(i as int)) is None,
            decreases self.shards.len() - i,
        {
            proof {
                assert(self@.shards.take(i as int + 1).drop_last() =~= self@.shards.take(i as int));
            }
            assert(self.shards@[i as int]@ == self@.shards[i as int]);
            assert(self@.shards[i as int].wf());
            if self.shards[i].capacity() < self.max_shard_capacity {
                proof {
                    lemma_first_with_room_prefix(self@.shards, i as int + 1);
                }
                return self.shards[i].id();
            }
            i = i + 1;
        }
        proof {
            assert(self@.shards.take(i as int) =~= self@.shards);
        }
        self.add_shard()
    }
}

/// Where a prefix holds the worker, the first shard holding it is the same overall.
proof fn lemma_locate_prefix(shards: Seq<ShardView>, id: u128, k: int)
    requires
        0 <= k <= shards.len(),
        locate_worker(shards.take(k), id) is Some,
    ensures
        locate_worker(shards, id) == locate_worker(shards.take(k), id),
    decreases shards.len() - k,
{
    if k < shards.len() {
        assert(shards.take(k + 1).drop_last() =~= shards.take(k));
        lemma_locate_prefix(shards, id, k + 1);
    } else {
        assert(shards.take(k) =~= shards);
    }
}

/// The shard that `locate_worker` names lies in range and holds the worker.
pub proof fn lemma_located_has_worker(shards: Seq<ShardView>, id: u128)
    ensures
        locate_worker(shards, id) matches Some(i) ==> 0 <= i < shards.len() && has_worker(
            shards[i].workers,
            id,
        ),
    decreases shards.len(),
{
    if shards.len() > 0 {
        lemma_located_has_worker(shards.drop_last(), id);
    }
}

/// Ticking keeps the controller well formed.
proof fn lemma_after_tick_keeps_shards(d: DagdaView)
    requires
        d.wf(),
    ensures
        d.after_tick().wf(),
{
    let a = d.after_tick();
    assert forall|i: int| 0 <= i < a.shards.len() implies #[trigger] a.shards[i].wf() by {
        let s = d.shards[i];
        assert(s.wf());
        assert forall|k: int| 0 <= k < s.workers.len() implies #[trigger] shard::ticked(s.workers[k]).wf() by {
            shard::lemma_tick_keeps_progress_bounded(s.workers[k]);
        }
        assert(a.shards[i] == s.after_tick());
        assert forall|p: int, q: int|
            0 <= p < s.workers.len() && 0 <= q < s.workers.len() && p != q
            implies s.after_tick().workers[p].id != s.after_tick().workers[q].id by {
            shard::lemma_tick_keeps_progress_bounded(s.workers[p]);
            shard::lemma_tick_keeps_progress_bounded(s.workers[q]);
        }
        assert forall|k: int| 0 <= k < s.after_tick().workers.len() implies #[trigger] s.after_tick().workers[k].wf() by {
            shard::lemma_tick_keeps_progress_bounded(s.workers[k]);
        }
    }
}

/// The first shard with room lies in range and has room.
proof fn lemma_first_with_room_has_room(shards: Seq<ShardView>)
    ensures
        first_with_room(shards) matches Some(i) ==> 0 <= i < shards.len() && shards[i].has_room(),
    decreases shards.len(),
{
    if shards.len() > 0 {
        lemma_first_with_room_has_room(shards.drop_last());
    }
}

/// The picked shard exists and can take the task, provided shards take any task
/// at all; a new shard is added only where no shard has room.
pub proof fn lemma_picked_has_room(d: DagdaView, after: DagdaView, shard_id: u128)
    requires
        d.wf(),
        d.max_shard_capacity > 0,
        d.picked(after, shard_id),
    ensures
        after == d.after_pick(shard_id),
        d.may_pick(shard_id),
        has_shard(after.shards, shard_id),
        after.shards[shard_index(after.shards, shard_id)].has_room(),
{
    lemma_first_with_room_has_room(d.shards);
    match first_with_room(d.shards) {
        Some(i) => {
            assert(has_shard(after.shards, shard_id));
            let j = shard_index(after.shards, shard_id);
            assert(after.shards[j].id == shard_id);
            assert(i == j);
        },
        None => {
            let e = empty_shard(shard_id, d.max_shard_capacity);
            if has_shard(d.shards, shard_id) {
                let k = shard_index(d.shards, shard_id);
                assert(after.shards == d.shards.update(k, e));
                assert(after.shards[k].id == shard_id);
                assert(has_shard(after.shards, shard_id));
                let j = shard_index(after.shards, shard_id);
                assert(j == k);
            } else {
                assert(after.shards == d.shards.push(e));
                let n = d.shards.len() as int;
                assert(after.shards[n].id == shard_id);
                assert(has_shard(after.shards, shard_id));
                let j = shard_index(after.shards, shard_id);
                if j != n {
                    assert(after.shards[j] == d.shards[j]);
                }
            }
        },
    }
}

/// A placed task is held, as a fresh worker with the given blueprint and owner,
/// by a shard of the controller afterwards.
pub proof fn lemma_task_lands(
    d: DagdaView,
    after: DagdaView,
    blueprint: BlueprintView,
    parent: Option<u128>,
    worker_id: u128,
)
    requires
        d.wf(),
        d.max_shard_capacity > 0,
        d.task_placed(after, blueprint, parent, worker_id),
    ensures
        exists|i: int|
            0 <= i < after.shards.len() && has_worker(#[trigger] after.shards[i].workers, worker_id)
                && after.shards[i].workers[worker_index(after.shards[i].workers, worker_id)]
                == fresh_worker(worker_id, blueprint, parent),
{
    let sid = choose|sid: u128| #[trigger] d.placed_on(after, blueprint, parent, worker_id, sid);
    let mid = d.after_pick(sid);
    lemma_picked_has_room(d, mid, sid);
    let i = shard_index(mid.shards, sid);
    let w = fresh_worker(worker_id, blueprint, parent);
    assert(mid.wf()) by {
        lemma_pick_keeps_wf(d, sid);
    }
    assert(mid.shards[i].wf());
    shard::lemma_admitted_holds_worker(mid.shards[i], w);
    assert(after.shards[i] == mid.shards[i].admitted(w));
}

proof fn lemma_pick_keeps_wf(d: DagdaView, shard_id: u128)
    requires
        d.wf(),
    ensures
        d.after_pick(shard_id).wf(),
{
    if first_with_room(d.shards) is None {
        lemma_shard_added_keeps_wf(d, shard_id);
    }
}

/// Adding an empty shard keeps the controller well formed.
proof fn lemma_shard_added_keeps_wf(d: DagdaView, id: u128)
    requires
        d.wf(),
    ensures
        d.shard_added(id).wf(),
{
    let a = d.shard_added(id);
    let e = empty_shard(id, d.max_shard_capacity);
    assert(e.workers =~= Seq::<WorkerView>::empty());
    let k = if has_shard(d.shards, id) {
        shard_index(d.shards, id)
    } else {
        d.shards.len() as int
    };
    assert(a.shards == put_at(d.shards, k, e));
    lemma_put_keeps_keys_distinct(d.shards, |s: ShardView| s.id, k, e);
    assert forall|j: int| 0 <= j < a.shards.len() implies #[trigger] a.shards[j].wf() by {
        if j != k {
            assert(a.shards[j] == d.shards[j]);
        }
    }
}

/// The run state changes only on a stop request, which moves it to stopping:
/// while the controller runs, a status request answers running and every other
/// request leaves it running, and no request brings it back to running.
pub proof fn lemma_handle_status_transitions(
    d: DagdaView,
    after: DagdaView,
    request: Request,
    resp: Response,
)
    requires
        d.handled(after, request, resp),
    ensures
        request is Stop ==> after.status == Status::Stopping,
        !(request is Stop) ==> after.status == d.status,
        request is Status ==> resp == Response::Status(d.status),
{
    match request {
        Request::Task(bp) => {
            let id = resp->Created_0;
            let sid = choose|sid: u128| #[trigger] d.placed_on(after, bp@, None, id, sid);
            assert(d.placed_on(after, bp@, None, id, sid));
        },
        Request::TaskWithParent(bp, p) => {
            let id = resp->Created_0;
            let sid = choose|sid: u128| #[trigger] d.placed_on(after, bp@, Some(p), id, sid);
            assert(d.placed_on(after, bp@, Some(p), id, sid));
        },
        _ => {},
    }
}

/// A tick's reports are the reports of each shard in turn: the reports of one
/// more shard come after those of the shards before it.
pub proof fn lemma_tick_reports_concatenate(shards: Seq<ShardView>, x: ShardView)
    ensures
        tick_messages_shards(shards.push(x)) == tick_messages_shards(shards) + tick_messages_all(
            x.workers,
        ),
{
    assert(shards.push(x).drop_last() =~= shards);
}

proof fn lemma_tick_shards_contain(shards: Seq<ShardView>, i: int, m: WorkerMessage)
    requires
        0 <= i < shards.len(),
        tick_messages_all(shards[i].workers).contains(m),
    ensures
        tick_messages_shards(shards).contains(m),
    decreases shards.len(),
{
    let p = shards.drop_last();
    if i < shards.len() - 1 {
        assert(p[i] == shards[i]);
        lemma_tick_shards_contain(p, i, m);
        let k = choose|k: int| 0 <= k < tick_messages_shards(p).len() && tick_messages_shards(p)[k] == m;
        assert((tick_messages_shards(p) + tick_messages_all(shards.last().workers))[k] == m);
    } else {
        let b = tick_messages_all(shards[i].workers);
        let k = choose|k: int| 0 <= k < b.len() && b[k] == m;
        let a = tick_messages_shards(p);
        assert((a + b)[a.len() + k] == m);
    }
}

/// A tick of the controller reports every in-progress worker of every shard:
/// its step of progress towards its blueprint's ticks, and its completion when
/// that step reaches them.
pub proof fn lemma_tick_reports_every_worker(shards: Seq<ShardView>, i: int, j: int)
    requires
        0 <= i < shards.len(),
        0 <= j < shards[i].workers.len(),
        shards[i].workers[j].status == shard::Status::InProgress,
        shards[i].workers[j].wf(),
    ensures
        ({
            let w = shards[i].workers[j];
            &&& w.ticks < w.total() ==> tick_messages_shards(shards).contains(
                WorkerMessage::Progress(w.id, (w.ticks + 1) as u64, w.blueprint.ticks),
            )
            &&& w.ticks + 1 >= w.total() ==> tick_messages_shards(shards).contains(
                WorkerMessage::Completed(w.id),
            )
        }),
{
    let w = shards[i].workers[j];
    shard::lemma_tick_reports_step(w);
    if w.ticks < w.total() {
        let m = WorkerMessage::Progress(w.id, (w.ticks + 1) as u64, w.blueprint.ticks);
        shard::lemma_tick_all_reports_each_worker(shards[i].workers, j, m);
        lemma_tick_shards_contain(shards, i, m);
    }
    if w.ticks + 1 >= w.total() {
        let m = WorkerMessage::Completed(w.id);
        shard::lemma_tick_all_reports_each_worker(shards[i].workers, j, m);
        lemma_tick_shards_contain(shards, i, m);
    }
}

/// Ownership is judged on the requested worker itself: a parent owns a worker
/// exactly when the worker, as the controller finds it, names that parent.
pub proof fn lemma_ownership_is_the_workers_own(shards: Seq<ShardView>, worker_id: u128, parent_id: u128)
    ensures
        belongs_to(shards, worker_id, parent_id) <==> (find_worker(shards, worker_id) matches Some(
            v,
        ) && v.id == worker_id && v.parent == Some(parent_id)),
{
    lemma_located_has_worker(shards, worker_id);
    if let Some(i) = locate_worker(shards, worker_id) {
        let ws = shards[i].workers;
        let k = worker_index(ws, worker_id);
        assert(ws[k].id == worker_id);
    }
}

/// The parent named in a task owns the new worker, and no other parent does,
/// whatever other workers share its shard.
pub proof fn lemma_owner_controls_new_task(
    d: DagdaView,
    after: DagdaView,
    blueprint: BlueprintView,
    parent_id: u128,
    worker_id: u128,
    other: u128,
)
    requires
        d.wf(),
        d.max_shard_capacity > 0,
        d.task_placed(after, blueprint, Some(parent_id), worker_id),
        locate_worker(d.shards, worker_id) is None,
    ensures
        belongs_to(after.shards, worker_id, parent_id),
        other != parent_id ==> !belongs_to(after.shards, worker_id, other),
{
    lemma_new_task_is_found_idle(d, after, blueprint, Some(parent_id), worker_id);
}

/// An owner keeps its worker through every control operation, stop included.
pub proof fn lemma_owner_keeps_control(d: DagdaView, worker_id: u128, parent_id: u128, op: WorkerOp)
    requires
        d.wf(),
        belongs_to(d.shards, worker_id, parent_id),
    ensures
        belongs_to(d.worker_op_applied(worker_id, op).shards, worker_id, parent_id),
{
    lemma_status_after_op(d, worker_id, op);
    shard::lemma_control_changes_only_state(find_worker(d.shards, worker_id)->0, op);
}

/// Whether the listing entry `e` shows the worker `w` as it is: its identity,
/// the slug of its blueprint, its state, its progress, its blueprint's ticks
/// and its owner.
pub open spec fn shows(e: WorkerInfoView, w: WorkerView) -> bool {
    &&& e.id == w.id
    &&& e.name == w.blueprint.slug
    &&& e.status == w.status
    &&& e.ticks == w.ticks
    &&& e.total_ticks == w.blueprint.ticks
    &&& e.parent == w.parent
}

/// Whether `e` shows some worker of `ws`.
pub open spec fn shows_one_of(e: WorkerInfoView, ws: Seq<WorkerView>) -> bool {
    exists|j: int| 0 <= j < ws.len() && #[trigger] shows(e, ws[j])
}

/// Whether `e` shows some worker of some shard of `shards`.
pub open spec fn shows_one_in(e: WorkerInfoView, shards: Seq<ShardView>) -> bool {
    exists|i: int, j: int|
        0 <= i < shards.len() && 0 <= j < shards[i].workers.len() && #[trigger] shows(
            e,
            shards[i].workers[j],
        )
}

proof fn lemma_listing_in_shows_owned(ws: Seq<WorkerView>, p: u128)
    requires
        forall|j: int| 0 <= j < ws.len() ==> #[trigger] ws[j].wf(),
    ensures
        forall|k: int|
            0 <= k < parent_infos_in(ws, p).len() ==> shows_one_of(
                #[trigger] parent_infos_in(ws, p)[k],
                ws,
            ),
        forall|j: int|
            #![trigger ws[j]]
            0 <= j < ws.len() && ws[j].parent == Some(p) ==> exists|k: int|
                0 <= k < parent_infos_in(ws, p).len() && #[trigger] shows(
                    parent_infos_in(ws, p)[k],
                    ws[j],
                ),
    decreases ws.len(),
{
    if ws.len() > 0 {
        let q = ws.drop_last();
        assert forall|j: int| 0 <= j < q.len() implies #[trigger] q[j].wf() by {
            assert(q[j] == ws[j]);
        }
        lemma_listing_in_shows_owned(q, p);
        let a = parent_infos_in(q, p);
        let last = ws[ws.len() - 1];
        let b: Seq<WorkerInfoView> = if last.parent == Some(p) {
            seq![info_of(last)]
        } else {
            Seq::empty()
        };
        assert(parent_infos_in(ws, p) == a + b);
        assert(last.wf());
        assert forall|k: int| 0 <= k < parent_infos_in(ws, p).len() implies shows_one_of(
            #[trigger] parent_infos_in(ws, p)[k],
            ws,
        ) by {
            if k < a.len() {
                assert(parent_infos_in(ws, p)[k] == a[k]);
                assert(shows_one_of(a[k], q));
                let j = choose|j: int| 0 <= j < q.len() && #[trigger] shows(a[k], q[j]);
                assert(q[j] == ws[j]);
                assert(shows(parent_infos_in(ws, p)[k], ws[j]));
            } else {
                assert(parent_infos_in(ws, p)[k] == info_of(last));
                assert(shows(parent_infos_in(ws, p)[k], ws[ws.len() - 1]));
            }
        }
        assert forall|j: int| #![trigger ws[j]] 0 <= j < ws.len() && ws[j].parent == Some(p) implies exists|k: int|
            0 <= k < parent_infos_in(ws, p).len() && #[trigger] shows(parent_infos_in(ws, p)[k], ws[j]) by {
            if j < q.len() {
                assert(q[j] == ws[j]);
                let k = choose|k: int| 0 <= k < a.len() && #[trigger] shows(a[k], q[j]);
                assert(parent_infos_in(ws, p)[k] == a[k]);
                assert(shows(parent_infos_in(ws, p)[k], ws[j]));
            } else {
                assert(parent_infos_in(ws, p)[a.len() as int] == info_of(last));
                assert(shows(parent_infos_in(ws, p)[a.len() as int], ws[j]));
            }
        }
    } else {
        assert(parent_infos_in(ws, p).len() == 0);
    }
}

/// The listing for a parent shows each worker it owns, on any shard, with
/// that worker's own identity, state, progress and blueprint ticks; and every
/// entry shows a worker of some shard, owned by that parent.
pub proof fn lemma_listing_shows_owned_workers(shards: Seq<ShardView>, p: u128)
    requires
        forall|i: int| 0 <= i < shards.len() ==> #[trigger] shards[i].wf(),
    ensures
        forall|k: int|
            0 <= k < parent_infos(shards, p).len() ==> #[trigger] parent_infos(shards, p)[k].parent
                == Some(p),
        forall|k: int|
            0 <= k < parent_infos(shards, p).len() ==> shows_one_in(
                #[trigger] parent_infos(shards, p)[k],
                shards,
            ),
        forall|i: int, j: int|
            #![trigger shards[i].workers[j]]
            0 <= i < shards.len() && 0 <= j < shards[i].workers.len()
                && shards[i].workers[j].parent == Some(p) ==> exists|k: int|
                0 <= k < parent_infos(shards, p).len() && #[trigger] shows(
                    parent_infos(shards, p)[k],
                    shards[i].workers[j],
                ),
    decreases shards.len(),
{
    lemma_listing_only_own_workers(shards, p);
    if shards.len() > 0 {
        let q = shards.drop_last();
        assert forall|i: int| 0 <= i < q.len() implies #[trigger] q[i].wf() by {
            assert(q[i] == shards[i]);
        }
        lemma_listing_shows_owned_workers(q, p);
        let n = shards.len() - 1;
        let last = shards[n];
        assert(last.wf());
        lemma_listing_in_shows_owned(last.workers, p);
        let a = parent_infos(q, p);
        let b = parent_infos_in(last.workers, p);
        assert(parent_infos(shards, p) == a + b);
        assert forall|k: int| 0 <= k < parent_infos(shards, p).len() implies shows_one_in(
            #[trigger] parent_infos(shards, p)[k],
            shards,
        ) by {
            if k < a.len() {
                assert(parent_infos(shards, p)[k] == a[k]);
                assert(shows_one_in(a[k], q));
                let (i, j) = choose|i: int, j: int|
                    0 <= i < q.len() && 0 <= j < q[i].workers.len() && #[trigger] shows(
                        a[k],
                        q[i].workers[j],
                    );
                assert(q[i] == shards[i]);
                assert(shows(parent_infos(shards, p)[k], shards[i].workers[j]));
            } else {
                assert(parent_infos(shards, p)[k] == b[k - a.len()]);
                assert(shows_one_of(b[k - a.len()], last.workers));
                let j = choose|j: int|
                    0 <= j < last.workers.len() && #[trigger] shows(b[k - a.len()], last.workers[j]);
                assert(shows(parent_infos(shards, p)[k], shards[n].workers[j]));
            }
        }
        assert forall|i: int, j: int|
            #![trigger shards[i].workers[j]]
            0 <= i < shards.len() && 0 <= j < shards[i].workers.len()
                && shards[i].workers[j].parent == Some(p) implies exists|k: int|
            0 <= k < parent_infos(shards, p).len() && #[trigger] shows(parent_infos(shards, p)[k], shards[i].workers[j]) by {
            if i < n {
                assert(q[i] == shards[i]);
                let k = choose|k: int| 0 <= k < a.len() && #[trigger] shows(a[k], q[i].workers[j]);
                assert(parent_infos(shards, p)[k] == a[k]);
                assert(shows(parent_infos(shards, p)[k], shards[i].workers[j]));
            } else {
                let k = choose|k: int| 0 <= k < b.len() && #[trigger] shows(b[k], last.workers[j]);
                assert(parent_infos(shards, p)[a.len() + k] == b[k]);
                assert(shows(parent_infos(shards, p)[a.len() + k], shards[i].workers[j]));
            }
        }
    } else {
        assert(parent_infos(shards, p).len() == 0);
    }
}

/// After a stop request the event loop no longer runs.
pub proof fn lemma_stop_ends_run(d: DagdaView, after: DagdaView, resp: Response)
    requires
        d.handled(after, Request::Stop, resp),
    ensures
        after.status != Status::Running,
        after.shards == d.shards,
{
}

/// A request on behalf of a parent that does not own the worker is refused and
/// changes nothing; one from the owner is carried out.
pub proof fn lemma_only_owner_controls(
    d: DagdaView,
    after: DagdaView,
    worker_id: u128,
    parent_id: u128,
    op: WorkerOp,
    res: Result<(), String>,
)
    requires
        d.controlled(after, worker_id, parent_id, op, res),
    ensures
        res is Ok <==> belongs_to(d.shards, worker_id, parent_id),
        res is Err ==> after == d,
        res is Ok ==> after == d.worker_op_applied(worker_id, op),
{
}

/// Every worker listed for a parent belongs to that parent.
pub proof fn lemma_listing_only_own_workers(shards: Seq<ShardView>, parent_id: u128)
    ensures
        forall|k: int|
            0 <= k < parent_infos(shards, parent_id).len() ==> #[trigger] parent_infos(
                shards,
                parent_id,
            )[k].parent == Some(parent_id),
    decreases shards.len(),
{
    if shards.len() > 0 {
        lemma_listing_only_own_workers(shards.drop_last(), parent_id);
        lemma_listing_in_only_own_workers(shards.last().workers, parent_id);
        let a = parent_infos(shards.drop_last(), parent_id);
        let b = parent_infos_in(shards.last().workers, parent_id);
        assert forall|k: int| 0 <= k < (a + b).len() implies #[trigger] (a + b)[k].parent == Some(
            parent_id,
        ) by {
            if k < a.len() {
                assert((a + b)[k] == a[k]);
            } else {
                assert((a + b)[k] == b[k - a.len()]);
            }
        }
    }
}

proof fn lemma_listing_in_only_own_workers(ws: Seq<WorkerView>, parent_id: u128)
    ensures
        forall|k: int|
            0 <= k < parent_infos_in(ws, parent_id).len() ==> #[trigger] parent_infos_in(
                ws,
                parent_id,
            )[k].parent == Some(parent_id),
    decreases ws.len(),
{
    if ws.len() > 0 {
        lemma_listing_in_only_own_workers(ws.drop_last(), parent_id);
        let a = parent_infos_in(ws.drop_last(), parent_id);
        let b: Seq<WorkerInfoView> = if ws.last().parent == Some(parent_id) {
            seq![info_of(ws.last())]
        } else {
            Seq::empty()
        };
        assert forall|k: int| 0 <= k < (a + b).len() implies #[trigger] (a + b)[k].parent == Some(
            parent_id,
        ) by {
            if k < a.len() {
                assert((a + b)[k] == a[k]);
            } else {
                assert((a + b)[k] == b[k - a.len()]);
            }
        }
    }
}

/// The counts by status of a shard's workers add up to its number of workers.
pub proof fn lemma_status_counts_sum(ws: Seq<WorkerView>)
    ensures
        count_status(ws, shard::Status::Idle) + count_status(ws, shard::Status::InProgress)
            + count_status(ws, shard::Status::Paused) + count_status(ws, shard::Status::Stopped)
            + count_status(ws, shard::Status::Completed) == ws.len(),
    decreases ws.len(),
{
    if ws.len() > 0 {
        lemma_status_counts_sum(ws.drop_last());
    }
}

/// Where two shard lists hold the worker `id` in the same shards, they locate it alike.
proof fn lemma_locate_same(a: Seq<ShardView>, b: Seq<ShardView>, id: u128)
    requires
        a.len() == b.len(),
        forall|i: int| 0 <= i < a.len() ==> has_worker(#[trigger] a[i].workers, id) == has_worker(
            b[i].workers,
            id,
        ),
    ensures
        locate_worker(a, id) == locate_worker(b, id),
    decreases a.len(),
{
    if a.len() > 0 {
        assert forall|i: int| 0 <= i < a.drop_last().len() implies has_worker(
            #[trigger] a.drop_last()[i].workers,
            id,
        ) == has_worker(b.drop_last()[i].workers, id) by {
            assert(a.drop_last()[i] == a[i]);
            assert(b.drop_last()[i] == b[i]);
        }
        lemma_locate_same(a.drop_last(), b.drop_last(), id);
        assert(has_worker(a[a.len() - 1].workers, id) == has_worker(b[b.len() - 1].workers, id));
    }
}

/// Where exactly one shard holds the worker `id`, that shard is where it is found.
proof fn lemma_locate_unique(shards: Seq<ShardView>, id: u128, i: int)
    requires
        0 <= i < shards.len(),
        has_worker(shards[i].workers, id),
        forall|j: int| 0 <= j < shards.len() && j != i ==> !has_worker(#[trigger] shards[j].workers, id),
    ensures
        locate_worker(shards, id) == Some(i),
    decreases shards.len(),
{
    if i < shards.len() - 1 {
        let p = shards.drop_last();
        assert forall|j: int| 0 <= j < p.len() && j != i implies !has_worker(#[trigger] p[j].workers, id) by {
            assert(p[j] == shards[j]);
        }
        assert(p[i] == shards[i]);
        lemma_locate_unique(p, id, i);
    } else {
        lemma_locate_none(shards.drop_last(), id);
    }
}

/// Where no shard holds the worker `id`, it is not found.
proof fn lemma_locate_none(shards: Seq<ShardView>, id: u128)
    requires
        forall|j: int| 0 <= j < shards.len() ==> !has_worker(#[trigger] shards[j].workers, id),
    ensures
        locate_worker(shards, id) is None,
    decreases shards.len(),
{
    if shards.len() > 0 {
        let p = shards.drop_last();
        assert forall|j: int| 0 <= j < p.len() implies !has_worker(#[trigger] p[j].workers, id) by {
            assert(p[j] == shards[j]);
        }
        lemma_locate_none(p, id);
        assert(!has_worker(shards[shards.len() - 1].workers, id));
    }
}

/// An operation on a worker keeps the identifiers of a shard's workers.
proof fn lemma_with_op_keeps_ids(s: ShardView, id: u128, op: WorkerOp, other: u128)
    requires
        s.wf(),
        has_worker(s.workers, id),
    ensures
        has_worker(s.with_op(id, op).workers, other) == has_worker(s.workers, other),
        s.with_op(id, op).wf(),
        has_worker(s.with_op(id, op).workers, id),
        worker_index(s.with_op(id, op).workers, id) == worker_index(s.workers, id),
{
    let k = worker_index(s.workers, id);
    let t = s.with_op(id, op);
    assert(t.workers[k].id == s.workers[k].id);
    if has_worker(s.workers, other) {
        let m = choose|m: int| 0 <= m < s.workers.len() && s.workers[m].id == other;
        assert(t.workers[m].id == other);
    }
    if has_worker(t.workers, other) {
        let m = choose|m: int| 0 <= m < t.workers.len() && t.workers[m].id == other;
        assert(s.workers[m].id == other);
    }
    assert(t.workers == put_at(s.workers, k, shard::applied(s.workers[k], op)));
    lemma_put_keeps_keys_distinct(s.workers, |v: WorkerView| v.id, k, shard::applied(s.workers[k], op));
    assert forall|j: int| 0 <= j < t.workers.len() implies #[trigger] t.workers[j].wf() by {
        if j != k {
            assert(t.workers[j] == s.workers[j]);
        } else {
            assert(s.workers[k].wf());
            assert(t.workers[k] == shard::applied(s.workers[k], op));
        }
    }
    assert(has_worker(t.workers, id));
    let k2 = worker_index(t.workers, id);
    assert(t.workers[k2].id == id);
    assert(s.workers[k2].id == id);
}

/// After an operation on a worker, looking the worker up finds it with the
/// operation applied; where it was not found, it still is not.
pub proof fn lemma_status_after_op(d: DagdaView, id: u128, op: WorkerOp)
    requires
        d.wf(),
    ensures
        find_worker(d.worker_op_applied(id, op).shards, id) == match find_worker(d.shards, id) {
            Some(w) => Some(shard::applied(w, op)),
            None => None::<WorkerView>,
        },
        d.worker_op_applied(id, op).wf(),
{
    lemma_located_has_worker(d.shards, id);
    match locate_worker(d.shards, id) {
        Some(i) => {
            let a = d.worker_op_applied(id, op);
            assert(d.shards[i].wf());
            assert forall|j: int| 0 <= j < a.shards.len() implies has_worker(
                #[trigger] a.shards[j].workers,
                id,
            ) == has_worker(d.shards[j].workers, id) by {
                if j == i {
                    lemma_with_op_keeps_ids(d.shards[i], id, op, id);
                } else {
                    assert(a.shards[j] == d.shards[j]);
                }
            }
            lemma_locate_same(a.shards, d.shards, id);
            lemma_with_op_keeps_ids(d.shards[i], id, op, id);
            let t = d.shards[i].with_op(id, op);
            assert(a.shards == put_at(d.shards, i, t));
            lemma_put_keeps_keys_distinct(d.shards, |v: ShardView| v.id, i, t);
            assert forall|j: int| 0 <= j < a.shards.len() implies #[trigger] a.shards[j].wf() by {
                if j != i {
                    assert(a.shards[j] == d.shards[j]);
                }
            }
            assert forall|j: int| 0 <= j < a.shards.len() implies #[trigger] a.shards[j].max_capacity
                == d.max_shard_capacity by {
                assert(a.shards[j].max_capacity == d.shards[j].max_capacity);
            }
        },
        None => {},
    }
}

/// After a tick, looking a worker up finds it ticked once.
pub proof fn lemma_status_after_tick(d: DagdaView, id: u128)
    requires
        d.wf(),
    ensures
        find_worker(d.after_tick().shards, id) == match find_worker(d.shards, id) {
            Some(w) => Some(shard::ticked(w)),
            None => None::<WorkerView>,
        },
{
    let a = d.after_tick();
    assert forall|j: int| 0 <= j < a.shards.len() implies has_worker(
        #[trigger] a.shards[j].workers,
        id,
    ) == has_worker(d.shards[j].workers, id) by {
        let s = d.shards[j];
        assert(a.shards[j] == s.after_tick());
        if has_worker(s.workers, id) {
            let m = choose|m: int| 0 <= m < s.workers.len() && s.workers[m].id == id;
            assert(s.after_tick().workers[m].id == id);
        }
        if has_worker(s.after_tick().workers, id) {
            let m = choose|m: int| 0 <= m < s.after_tick().workers.len() && s.after_tick().workers[m].id == id;
            assert(s.workers[m].id == id);
        }
    }
    lemma_locate_same(a.shards, d.shards, id);
    lemma_located_has_worker(d.shards, id);
    if let Some(i) = locate_worker(d.shards, id) {
        let s = d.shards[i];
        assert(s.wf());
        let k = worker_index(s.workers, id);
        let t = a.shards[i];
        assert(t == s.after_tick());
        assert(t.workers[k].id == id);
        assert(has_worker(t.workers, id));
        let k2 = worker_index(t.workers, id);
        assert(t.workers[k2].id == id);
        assert(s.workers[k2].id == id);
    }
}

/// A task whose new identifier no shard held before is found afterwards as a
/// fresh, idle worker with the given blueprint and owner.
pub proof fn lemma_new_task_is_found_idle(
    d: DagdaView,
    after: DagdaView,
    blueprint: BlueprintView,
    parent: Option<u128>,
    worker_id: u128,
)
    requires
        d.wf(),
        d.max_shard_capacity > 0,
        d.task_placed(after, blueprint, parent, worker_id),
        locate_worker(d.shards, worker_id) is None,
    ensures
        find_worker(after.shards, worker_id) == Some(fresh_worker(worker_id, blueprint, parent)),
{
    let sid = choose|sid: u128| #[trigger] d.placed_on(after, blueprint, parent, worker_id, sid);
    let mid = d.after_pick(sid);
    lemma_picked_has_room(d, mid, sid);
    lemma_pick_keeps_wf(d, sid);
    let i = shard_index(mid.shards, sid);
    let w = fresh_worker(worker_id, blueprint, parent);
    assert(mid.shards[i].wf());
    shard::lemma_admitted_holds_worker(mid.shards[i], w);
    assert(after.shards[i] == mid.shards[i].admitted(w));
    // no shard of `mid` holds the worker: those of `d` did not, and a new shard is empty
    assert forall|j: int| 0 <= j < mid.shards.len() implies !has_worker(#[trigger] mid.shards[j].workers, worker_id) by {
        if first_with_room(d.shards) is None {
            let e = empty_shard(sid, d.max_shard_capacity);
            if has_shard(d.shards, sid) {
                let k = shard_index(d.shards, sid);
                if j != k {
                    assert(mid.shards[j] == d.shards[j]);
                    lemma_not_located_not_held(d.shards, worker_id, j);
                } else {
                    assert(mid.shards[j] == e);
                }
            } else {
                if j < d.shards.len() {
                    assert(mid.shards[j] == d.shards[j]);
                    lemma_not_located_not_held(d.shards, worker_id, j);
                } else {
                    assert(mid.shards[j] == e);
                }
            }
        } else {
            lemma_not_located_not_held(d.shards, worker_id, j);
        }
    }
    assert forall|j: int| 0 <= j < after.shards.len() && j != i implies !has_worker(
        #[trigger] after.shards[j].workers,
        worker_id,
    ) by {
        assert(after.shards[j] == mid.shards[j]);
    }
    lemma_locate_unique(after.shards, worker_id, i);
}

/// A worker that is not located is held by no shard.
proof fn lemma_not_located_not_held(shards: Seq<ShardView>, id: u128, j: int)
    requires
        locate_worker(shards, id) is None,
        0 <= j < shards.len(),
    ensures
        !has_worker(shards[j].workers, id),
    decreases shards.len(),
{
    if j < shards.len() - 1 {
        assert(shards.drop_last()[j] == shards[j]);
        lemma_not_located_not_held(shards.drop_last(), id, j);
    }
}

/// Where the first shard with room lies within a prefix, it is the first one overall.
proof fn lemma_first_with_room_prefix(shards: Seq<ShardView>, k: int)
    requires
        0 <= k <= shards.len(),
        first_with_room(shards.take(k)) is Some,
    ensures
        first_with_room(shards) == first_with_room(shards.take(k)),
    decreases shards.len() - k,
{
    if k < shards.len() {
        assert(shards.take(k + 1).drop_last() =~= shards.take(k));
        lemma_first_with_room_prefix(shards, k + 1);
    } else {
        assert(shards.take(k) =~= shards);
    }
}

} // verus!

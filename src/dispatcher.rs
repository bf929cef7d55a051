use vstd::prelude::*;
use crate::job_queue::{JobQueue, Received};
use crate::worker::{next_state, WorkerEvent, WorkerState};

verus! {

/// Why a pool could not be opened.
#[derive(Clone, Copy, Debug, PartialEq, Eq, Structural)]
pub enum PoolError {
    /// A pool needs at least one worker.
    ZeroSize,
}

/// Why a job was turned away.
#[derive(Clone, Copy, Debug, PartialEq, Eq, Structural)]
pub enum RejectReason {
    /// Teardown has closed the queue.
    PoolClosed,
    /// Every job id a 64-bit counter can give has been handed out.
    IdsExhausted,
}

/// A submission that the pool refused; the job was not queued.
#[derive(Clone, Copy, Debug, PartialEq, Eq, Structural)]
pub struct RejectedError {
    pub reason: RejectReason,
}

/// A worker event that the pool's state does not allow.
#[derive(Clone, Copy, Debug, PartialEq, Eq, Structural)]
pub enum StepError {
    /// No worker has this id (ids run from 1 to the pool size).
    UnknownWorker,
    /// The worker asked for a job while not waiting.
    NotWaiting,
    /// The worker reported a finished job while running none.
    NotExecuting,
    /// The worker's thread was already joined.
    AlreadyJoined,
    /// The worker's thread has not exited, so it cannot be joined.
    NotTerminated,
}

/// What a waiting worker is told to do after reading the queue.
#[derive(Clone, Copy, Debug, PartialEq, Eq, Structural)]
pub enum Dispatch {
    /// Run the job with this id.
    Run(u64),
    /// Nothing queued yet: keep waiting.
    Wait,
    /// The queue is closed and drained: exit.
    Exit,
}

/// The worker at index `w` of `ws` is running job `j`.
pub open spec fn runs_in(ws: Seq<WorkerState>, w: int, j: u64) -> bool {
    0 <= w < ws.len() && ws[w] == WorkerState::Executing(j)
}

/// Some worker of `ws` is running job `j`.
pub open spec fn running_in(ws: Seq<WorkerState>, j: u64) -> bool {
    exists|w: int| #[trigger] runs_in(ws, w, j)
}

/// The abstract state of a pool.
///
/// Jobs get the ids `0, 1, 2, ...` in the order they are accepted; the
/// first `delivered` of them have been handed to workers, the rest wait in
/// `queue`. Worker `id` (from 1) is described at index `id - 1` of
/// `workers` and `joined`.
pub struct PoolView {
    pub open: bool,
    pub submitted: nat,
    pub delivered: nat,
    pub queue: Seq<u64>,
    pub workers: Seq<WorkerState>,
    pub joined: Seq<bool>,
    pub done: Set<u64>,
}

impl PoolView {
    pub open spec fn size(self) -> nat {
        self.workers.len()
    }

    pub open spec fn valid_id(self, id: int) -> bool {
        1 <= id <= self.workers.len()
    }

    /// Job `j` waits in the queue.
    pub open spec fn queued(self, j: u64) -> bool {
        self.queue.contains(j)
    }

    /// The worker at index `w` is running job `j`.
    pub open spec fn runs(self, w: int, j: u64) -> bool {
        runs_in(self.workers, w, j)
    }

    /// Some worker is running job `j`.
    pub open spec fn running(self, j: u64) -> bool {
        running_in(self.workers, j)
    }

    /// Job `j` has run to its end.
    pub open spec fn completed(self, j: u64) -> bool {
        self.done.contains(j)
    }

    /// The queue is closed and every worker's thread has been joined.
    pub open spec fn torn_down(self) -> bool {
        &&& !self.open
        &&& forall|w: int| 0 <= w < self.joined.len() ==> #[trigger] self.joined[w]
    }
}

/// What the dispatcher knows of one worker.
#[derive(Clone, Copy)]
struct WorkerRecord {
    state: WorkerState,
    joined: bool,
}

/// The decisions of a fixed-size worker pool: which submissions are
/// accepted, which job a worker runs next, when a worker exits, and which
/// worker teardown joins next. The threads themselves are run by the caller,
/// which reports each worker's events here.
pub struct Dispatcher {
    queue: JobQueue,
    workers: Vec<WorkerRecord>,
    submitted: u64,
    delivered: u64,
    done: Ghost<Set<u64>>,
}

impl View for Dispatcher {
    type V = PoolView;

    closed spec fn view(&self) -> PoolView {
        PoolView {
            open: !self.queue@.1,
            submitted: self.submitted as nat,
            delivered: self.delivered as nat,
            queue: self.queue@.0,
            workers: self.workers@.map_values(|r: WorkerRecord| r.state),
            joined: self.workers@.map_values(|r: WorkerRecord| r.joined),
            done: self.done@,
        }
    }
}

impl Dispatcher {
    /// The state invariant: ids in the queue follow the delivered ones in
    /// order, each delivered job is either run by exactly one worker or
    /// done, a worker exits only once the queue is closed and drained, and
    /// only an exited worker is joined.
    pub closed spec fn wf(&self) -> bool {
        let v = self@;
        &&& v.workers.len() >= 1
        &&& v.delivered <= v.submitted
        &&& v.queue.len() == v.submitted - v.delivered
        &&& forall|i: int| 0 <= i < v.queue.len() ==> #[trigger] v.queue[i] == v.delivered + i
        &&& forall|w: int, j: u64|
            #[trigger] runs_in(v.workers, w, j) ==> j < v.delivered && !v.done.contains(j)
        &&& forall|w: int, k: int, j: u64|
            #[trigger] runs_in(v.workers, w, j) && #[trigger] runs_in(v.workers, k, j) ==> w == k
        &&& forall|j: u64| #[trigger] v.done.contains(j) ==> j < v.delivered
        &&& forall|j: u64|
            j < v.delivered ==> #[trigger] v.done.contains(j) || running_in(v.workers, j)
        &&& forall|w: int|
            0 <= w < v.workers.len() && #[trigger] v.workers[w] is Terminated ==> !v.open
                && v.delivered == v.submitted
        &&& forall|w: int| 0 <= w < v.workers.len() && #[trigger] v.joined[w] ==> v.workers[w] is Terminated
    }

    /// Opens a pool of `size` workers, all waiting on an empty open queue.
    pub fn new(size: usize) -> (r: Result<Dispatcher, PoolError>)
        ensures
            r is Err <==> size == 0,
            r is Err ==> r == Err::<Dispatcher, PoolError>(PoolError::ZeroSize),
            r matches Ok(d) ==> {
                &&& d.wf()
                &&& d@.open
                &&& d@.submitted == 0
                &&& d@.delivered == 0
                &&& d@.queue == Seq::<u64>::empty()
                &&& d@.workers == Seq::new(size as nat, |i: int| WorkerState::Waiting)
                &&& d@.joined == Seq::new(size as nat, |i: int| false)
                &&& d@.done == Set::<u64>::empty()
            },
    {
        if size == 0 {
            return Err(PoolError::ZeroSize);
        }
        let mut workers: Vec<WorkerRecord> = Vec::with_capacity(size);
        let mut n: usize = 0;
        while n < size
            invariant
                n <= size,
                workers@.len() == n,
                forall|i: int|
                    0 <= i < n ==> #[trigger] workers@[i] == (WorkerRecord {
                        state: WorkerState::Waiting,
                        joined: false,
                    }),
            decreases size - n,
        {
            workers.push(WorkerRecord { state: WorkerState::Waiting, joined: false });
            n = n + 1;
        }
        let d = Dispatcher {
            queue: JobQueue::new(),
            workers,
            submitted: 0,
            delivered: 0,
            done: Ghost(Set::empty()),
        };
        assert(d@.workers =~= Seq::new(size as nat, |i: int| WorkerState::Waiting));
        assert(d@.joined =~= Seq::new(size as nat, |i: int| false));
        Ok(d)
    }

    /// Queues a new job and returns its id. A closed pool rejects the job
    /// and stays as it was.
    pub fn execute(&mut self) -> (r: Result<u64, RejectedError>)
        requires
            old(self).wf(),
        ensures
            final(self).wf(),
            r is Ok <==> old(self)@.open && old(self)@.submitted < u64::MAX,
            !old(self)@.open ==> r == Err::<u64, RejectedError>(
                RejectedError { reason: RejectReason::PoolClosed },
            ),
            old(self)@.open && old(self)@.submitted == u64::MAX ==> r == Err::<u64, RejectedError>(
                RejectedError { reason: RejectReason::IdsExhausted },
            ),
            r is Err ==> final(self)@ == old(self)@,
            r matches Ok(j) ==> {
                &&& j == old(self)@.submitted
                &&& final(self)@ == (PoolView {
                    submitted: old(self)@.submitted + 1,
                    queue: old(self)@.queue.push(j),
                    ..old(self)@
                })
            },
    {
        if self.queue.is_closed() {
            return Err(RejectedError { reason: RejectReason::PoolClosed });
        }
        if self.submitted == u64::MAX {
            return Err(RejectedError { reason: RejectReason::IdsExhausted });
        }
        let j = self.submitted;
        self.queue.push(j);
        self.submitted = j + 1;
        assert(self@.queue =~= old(self)@.queue.push(j));
        Ok(j)
    }

    /// Retires the sending side: from now on every submission is rejected.
    /// Jobs already queued still run.
    pub fn close(&mut self)
        requires
            old(self).wf(),
        ensures
            final(self).wf(),
            final(self)@ == (PoolView { open: false, ..old(self)@ }),
    {
        self.queue.close();
    }

    /// A waiting worker reads the queue: it is handed the oldest queued job,
    /// told to keep waiting while the open queue is empty, or told to exit
    /// once the queue is closed and drained.
    pub fn poll(&mut self, id: usize) -> (r: Result<Dispatch, StepError>)
        requires
            old(self).wf(),
        ensures
            final(self).wf(),
            !old(self)@.valid_id(id as int) ==> r == Err::<Dispatch, StepError>(
                StepError::UnknownWorker,
            ),
            old(self)@.valid_id(id as int) && old(self)@.workers[id - 1] != WorkerState::Waiting
                ==> r == Err::<Dispatch, StepError>(StepError::NotWaiting),
            r is Err ==> final(self)@ == old(self)@,
            old(self)@.valid_id(id as int) && old(self)@.workers[id - 1] == WorkerState::Waiting
                ==> {
                let v = old(self)@;
                if v.queue.len() > 0 {
                    &&& r == Ok::<Dispatch, StepError>(Dispatch::Run(v.queue[0]))
                    &&& v.queue[0] == v.delivered
                    &&& next_state(v.workers[id - 1], WorkerEvent::Received(v.queue[0])) == Some(
                        final(self)@.workers[id - 1],
                    )
                    &&& final(self)@ == (PoolView {
                        delivered: v.delivered + 1,
                        queue: v.queue.drop_first(),
                        workers: v.workers.update(id - 1, WorkerState::Executing(v.queue[0])),
                        ..v
                    })
                } else if v.open {
                    r == Ok::<Dispatch, StepError>(Dispatch::Wait) && final(self)@ == v
                } else {
                    &&& r == Ok::<Dispatch, StepError>(Dispatch::Exit)
                    &&& next_state(v.workers[id - 1], WorkerEvent::Disconnected) == Some(
                        final(self)@.workers[id - 1],
                    )
                    &&& final(self)@ == (PoolView {
                        workers: v.workers.update(id - 1, WorkerState::Terminated),
                        ..v
                    })
                }
            },
    {
        if id == 0 || id > self.workers.len() {
            return Err(StepError::UnknownWorker);
        }
        let i = id - 1;
        let rec = self.workers[i];
        if !rec.state.is_waiting() {
            return Err(StepError::NotWaiting);
        }
        match self.queue.recv() {
            Received::Job(j) => {
                self.delivered = self.delivered + 1;
                self.workers[i] = WorkerRecord { state: WorkerState::Executing(j), joined: rec.joined };
                proof {
                    let ov = old(self)@;
                    let nv = self@;
                    assert(nv.workers =~= ov.workers.update(i as int, WorkerState::Executing(j)));
                    assert(nv.joined =~= ov.joined);
                    assert(nv.queue =~= ov.queue.drop_first());
                    assert(j == ov.delivered);
                    assert forall|w: int, j2: u64| #[trigger]
                        runs_in(nv.workers, w, j2) implies j2 < nv.delivered && !nv.done.contains(j2)
                        && (forall|k: int| #[trigger] runs_in(nv.workers, k, j2) ==> w == k) by {
                        if w != i {
                            assert(runs_in(ov.workers, w, j2));
                            assert forall|k: int| #[trigger] runs_in(nv.workers, k, j2) implies w == k by {
                                if k == i {
                                    assert(j2 == j);
                                } else {
                                    assert(runs_in(ov.workers, k, j2));
                                }
                            }
                        } else {
                            assert forall|k: int| #[trigger] runs_in(nv.workers, k, j2) implies w == k by {
                                if k != i {
                                    assert(runs_in(ov.workers, k, j2));
                                }
                            }
                        }
                    }
                    assert forall|j2: u64| j2 < nv.delivered implies #[trigger] nv.done.contains(j2)
                        || running_in(nv.workers, j2) by {
                        if j2 == j {
                            assert(runs_in(nv.workers, i as int, j2));
                        } else if !nv.done.contains(j2) {
                            let w = choose|w: int| runs_in(ov.workers, w, j2);
                            assert(runs_in(nv.workers, w, j2));
                        }
                    }
                    assert forall|w: int| 0 <= w < nv.workers.len() && #[trigger] nv.workers[w] is Terminated
                        implies !nv.open && nv.delivered == nv.submitted by {
                        assert(ov.workers[w] is Terminated);
                    }
                }
                Ok(Dispatch::Run(j))
            },
            Received::Empty => Ok(Dispatch::Wait),
            Received::Closed => {
                self.workers[i] = WorkerRecord { state: WorkerState::Terminated, joined: rec.joined };
                proof {
                    let ov = old(self)@;
                    let nv = self@;
                    assert(nv.workers =~= ov.workers.update(i as int, WorkerState::Terminated));
                    assert(nv.joined =~= ov.joined);
                    assert forall|w: int, j2: u64| #[trigger]
                        runs_in(nv.workers, w, j2) implies runs_in(ov.workers, w, j2) by {}
                    assert forall|j2: u64| j2 < nv.delivered implies #[trigger] nv.done.contains(j2)
                        || running_in(nv.workers, j2) by {
                        if !nv.done.contains(j2) {
                            let w = choose|w: int| runs_in(ov.workers, w, j2);
                            assert(runs_in(nv.workers, w, j2));
                        }
                    }
                }
                Ok(Dispatch::Exit)
            },
        }
    }

    /// A worker reports that its job returned; the job counts as done and
    /// the worker waits again. Returns the id of the finished job.
    pub fn finish(&mut self, id: usize) -> (r: Result<u64, StepError>)
        requires
            old(self).wf(),
        ensures
            final(self).wf(),
            !old(self)@.valid_id(id as int) ==> r == Err::<u64, StepError>(StepError::UnknownWorker),
            old(self)@.valid_id(id as int) && !(old(self)@.workers[id - 1] is Executing) ==> r == Err::<
                u64,
                StepError,
            >(StepError::NotExecuting),
            r is Err ==> final(self)@ == old(self)@,
            old(self)@.valid_id(id as int) && old(self)@.workers[id - 1] is Executing ==> {
                let v = old(self)@;
                let j = v.workers[id - 1]->Executing_0;
                &&& r == Ok::<u64, StepError>(j)
                &&& next_state(v.workers[id - 1], WorkerEvent::Finished) == Some(
                    final(self)@.workers[id - 1],
                )
                &&& final(self)@ == (PoolView {
                    workers: v.workers.update(id - 1, WorkerState::Waiting),
                    done: v.done.insert(j),
                    ..v
                })
            },
    {
        if id == 0 || id > self.workers.len() {
            return Err(StepError::UnknownWorker);
        }
        let i = id - 1;
        let rec = self.workers[i];
        let j = match rec.state.current_job() {
            Some(j) => j,
            None => {
                return Err(StepError::NotExecuting);
            },
        };
        self.workers[i] = WorkerRecord { state: WorkerState::Waiting, joined: rec.joined };
        self.done = Ghost(self.done@.insert(j));
        proof {
            let ov = old(self)@;
            let nv = self@;
            assert(runs_in(ov.workers, i as int, j));
            assert(nv.workers =~= ov.workers.update(i as int, WorkerState::Waiting));
            assert(nv.joined =~= ov.joined);
            assert forall|w: int, j2: u64| #[trigger]
                runs_in(nv.workers, w, j2) implies runs_in(ov.workers, w, j2) && j2 != j by {
                assert(w != i);
                assert(nv.workers[w] == ov.workers[w]);
                assert(runs_in(ov.workers, w, j2));
                if j2 == j {
                    assert(runs_in(ov.workers, i as int, j2));
                }
            }
            assert forall|j2: u64| j2 < nv.delivered implies #[trigger] nv.done.contains(j2)
                || running_in(nv.workers, j2) by {
                if !nv.done.contains(j2) {
                    let w = choose|w: int| runs_in(ov.workers, w, j2);
                    assert(runs_in(nv.workers, w, j2));
                }
            }
            assert forall|w: int| 0 <= w < nv.workers.len() && #[trigger] nv.workers[w] is Terminated
                implies !nv.open && nv.delivered == nv.submitted by {
                assert(ov.workers[w] is Terminated);
            }
        }
        Ok(j)
    }

    /// Records that an exited worker's thread has been joined. Each worker
    /// is joined once, and only after it exited.
    pub fn join(&mut self, id: usize) -> (r: Result<(), StepError>)
        requires
            old(self).wf(),
        ensures
            final(self).wf(),
            !old(self)@.valid_id(id as int) ==> r == Err::<(), StepError>(StepError::UnknownWorker),
            old(self)@.valid_id(id as int) && old(self)@.joined[id - 1] ==> r == Err::<(), StepError>(
                StepError::AlreadyJoined,
            ),
            old(self)@.valid_id(id as int) && !old(self)@.joined[id - 1] && !(old(self)@.workers[id
                - 1] is Terminated) ==> r == Err::<(), StepError>(StepError::NotTerminated),
            r is Err ==> final(self)@ == old(self)@,
            r is Ok <==> old(self)@.valid_id(id as int) && !old(self)@.joined[id - 1]
                && old(self)@.workers[id - 1] is Terminated,
            r is Ok ==> final(self)@ == (PoolView {
                joined: old(self)@.joined.update(id - 1, true),
                ..old(self)@
            }),
    {
        if id == 0 || id > self.workers.len() {
            return Err(StepError::UnknownWorker);
        }
        let i = id - 1;
        let rec = self.workers[i];
        if rec.joined {
            return Err(StepError::AlreadyJoined);
        }
        if !rec.state.is_terminated() {
            return Err(StepError::NotTerminated);
        }
        self.workers[i] = WorkerRecord { state: rec.state, joined: true };
        proof {
            let ov = old(self)@;
            let nv = self@;
            assert(nv.workers =~= ov.workers);
            assert(nv.joined =~= ov.joined.update(i as int, true));
        }
        Ok(())
    }

    /// The worker that teardown joins next: the lowest id not yet joined,
    /// or `None` once every worker has been joined.
    pub fn next_join(&self) -> (r: Option<usize>)
        requires
            self.wf(),
        ensures
            r is None <==> forall|w: int| 0 <= w < self@.joined.len() ==> #[trigger] self@.joined[w],
            r matches Some(id) ==> {
                &&& self@.valid_id(id as int)
                &&& !self@.joined[id - 1]
                &&& forall|w: int| 0 <= w < id - 1 ==> #[trigger] self@.joined[w]
            },
    {
        let mut i: usize = 0;
        while i < self.workers.len()
            invariant
                i <= self.workers@.len(),
                self@.joined.len() == self.workers@.len(),
                forall|w: int| 0 <= w < i ==> #[trigger] self@.joined[w],
            decreases self.workers@.len() - i,
        {
            if !self.workers[i].joined {
                assert(!self@.joined[i as int]);
                return Some(i + 1);
            }
            i = i + 1;
        }
        None
    }

    /// The number of workers, fixed when the pool was opened.
    pub fn size(&self) -> (r: usize)
        requires
            self.wf(),
        ensures
            r == self@.size(),
            r >= 1,
    {
        self.workers.len()
    }

    /// Whether submissions are still accepted.
    pub fn is_open(&self) -> (r: bool)
        ensures
            r == self@.open,
    {
        !self.queue.is_closed()
    }

    /// How many jobs have been accepted so far.
    pub fn submitted(&self) -> (r: u64)
        ensures
            r == self@.submitted,
    {
        self.submitted
    }

    /// How many accepted jobs no worker has taken yet.
    pub fn queued_len(&self) -> (r: usize)
        ensures
            r == self@.queue.len(),
    {
        self.queue.len()
    }

    /// The state of worker `id`, or `None` for an id outside the pool.
    pub fn worker_state(&self, id: usize) -> (r: Option<WorkerState>)
        ensures
            r is Some <==> self@.valid_id(id as int),
            r matches Some(s) ==> s == self@.workers[id - 1],
    {
        if id == 0 || id > self.workers.len() {
            None
        } else {
            Some(self.workers[id - 1].state)
        }
    }

    /// Whether worker `id` has been joined, or `None` for an id outside the
    /// pool.
    pub fn is_joined(&self, id: usize) -> (r: Option<bool>)
        ensures
            r is Some <==> self@.valid_id(id as int),
            r matches Some(b) ==> b == self@.joined[id - 1],
    {
        if id == 0 || id > self.workers.len() {
            None
        } else {
            Some(self.workers[id - 1].joined)
        }
    }

    /// Whether teardown is complete: the queue is closed and every worker
    /// has been joined.
    pub fn is_torn_down(&self) -> (r: bool)
        requires
            self.wf(),
        ensures
            r == self@.torn_down(),
    {
        self.queue.is_closed() && self.next_join().is_none()
    }
}

/// Every accepted job is in exactly one place: waiting in the queue (at one
/// position), run by exactly one worker, or done. A job that was never
/// accepted is in none of them.
pub proof fn lemma_job_exactly_once(d: &Dispatcher, j: u64)
    requires
        d.wf(),
    ensures
        j < d@.submitted <==> (d@.queued(j) || d@.running(j) || d@.completed(j)),
        !(d@.queued(j) && d@.running(j)),
        !(d@.queued(j) && d@.completed(j)),
        !(d@.running(j) && d@.completed(j)),
        forall|w: int, k: int| d@.runs(w, j) && d@.runs(k, j) ==> w == k,
        forall|a: int, b: int|
            0 <= a < d@.queue.len() && 0 <= b < d@.queue.len() && d@.queue[a] == j && d@.queue[b]
                == j ==> a == b,
{
    let v = d@;
    if v.queued(j) {
        let i = choose|i: int| 0 <= i < v.queue.len() && v.queue[i] == j;
        assert(v.queue[i] == v.delivered + i);
    }
    if v.running(j) {
        let w = choose|w: int| runs_in(v.workers, w, j);
        assert(runs_in(v.workers, w, j));
    }
    if v.delivered <= j < v.submitted {
        let i = j - v.delivered;
        assert(v.queue[i] == j);
    }
    if j < v.delivered {
        assert(v.done.contains(j) || running_in(v.workers, j));
    }
    assert forall|w: int, k: int| v.runs(w, j) && v.runs(k, j) implies w == k by {
        assert(runs_in(v.workers, w, j) && runs_in(v.workers, k, j));
    }
    assert forall|a: int, b: int|
        0 <= a < v.queue.len() && 0 <= b < v.queue.len() && v.queue[a] == j && v.queue[b] == j
            implies a == b by {
        assert(v.queue[a] == v.delivered + a);
        assert(v.queue[b] == v.delivered + b);
    }
}

/// Jobs leave the queue in the order they were accepted: the queue holds
/// consecutive ids from its front, and every job a worker took or finished
/// was accepted before every job still queued.
pub proof fn lemma_fifo_order(d: &Dispatcher)
    requires
        d.wf(),
    ensures
        forall|i: int| 0 <= i < d@.queue.len() ==> #[trigger] d@.queue[i] == d@.delivered + i,
        forall|a: u64, b: u64| #[trigger] d@.running(a) && #[trigger] d@.queued(b) ==> a < b,
        forall|a: u64, b: u64| #[trigger] d@.completed(a) && #[trigger] d@.queued(b) ==> a < b,
{
    let v = d@;
    assert forall|a: u64, b: u64| (v.running(a) || v.completed(a)) && v.queued(b) implies a < b by {
        let i = choose|i: int| 0 <= i < v.queue.len() && v.queue[i] == b;
        assert(v.queue[i] == v.delivered + i);
        if v.running(a) {
            let w = choose|w: int| runs_in(v.workers, w, a);
            assert(runs_in(v.workers, w, a));
        }
    }
}

/// With a single worker, jobs run strictly one after another: while a job
/// runs, every job accepted before it has already completed.
pub proof fn lemma_single_worker_serial(d: &Dispatcher, a: u64, b: u64)
    requires
        d.wf(),
        d@.size() == 1,
        a < b,
        d@.running(b),
    ensures
        d@.completed(a),
        !d@.running(a),
{
    let v = d@;
    let w = choose|w: int| runs_in(v.workers, w, b);
    assert(runs_in(v.workers, w, b));
    assert(w == 0);
    assert(a < v.delivered);
    assert(v.done.contains(a) || running_in(v.workers, a));
    if running_in(v.workers, a) {
        let k = choose|k: int| runs_in(v.workers, k, a);
        assert(runs_in(v.workers, k, a));
    }
}

/// Teardown drains the pool: once the queue is closed and every worker has
/// been joined, every accepted job has completed, nothing is queued, and
/// every worker has exited.
pub proof fn lemma_teardown_drains(d: &Dispatcher)
    requires
        d.wf(),
        d@.torn_down(),
    ensures
        d@.queue.len() == 0,
        forall|w: int| 0 <= w < d@.size() ==> #[trigger] d@.workers[w] is Terminated,
        forall|j: u64| j < d@.submitted ==> #[trigger] d@.completed(j),
{
    let v = d@;
    assert(v.joined[0]);
    assert(v.workers[0] is Terminated);
    assert forall|w: int| 0 <= w < v.size() implies #[trigger] v.workers[w] is Terminated by {
        assert(v.joined[w]);
    }
    assert forall|j: u64| j < v.submitted implies #[trigger] v.completed(j) by {
        assert(v.done.contains(j) || running_in(v.workers, j));
        if running_in(v.workers, j) {
            let w = choose|w: int| runs_in(v.workers, w, j);
            assert(v.joined[w]);
        }
    }
}


} // verus!

use vstd::prelude::*;

verus! {

/// Where a worker thread stands in its life. A worker starts `Waiting`.
#[derive(Clone, Copy, Debug, PartialEq, Eq, Structural)]
pub enum WorkerState {
    /// Blocked on the shared queue, ready to take the next job.
    Waiting,
    /// Running the job with the given id.
    Executing(u64),
    /// Saw the queue closed and empty; never runs again.
    Terminated,
}

/// What a worker observes between two states.
#[derive(Clone, Copy, Debug, PartialEq, Eq, Structural)]
pub enum WorkerEvent {
    /// The queue handed it the job with this id.
    Received(u64),
    /// The job it was running returned (normally or not).
    Finished,
    /// The queue reported that it is closed and empty.
    Disconnected,
}

/// The worker's transition relation; `None` where the event cannot occur
/// in that state.
pub open spec fn next_state(s: WorkerState, e: WorkerEvent) -> Option<WorkerState> {
    match (s, e) {
        (WorkerState::Waiting, WorkerEvent::Received(j)) => Some(WorkerState::Executing(j)),
        (WorkerState::Executing(_), WorkerEvent::Finished) => Some(WorkerState::Waiting),
        (WorkerState::Waiting, WorkerEvent::Disconnected) => Some(WorkerState::Terminated),
        _ => None,
    }
}

impl WorkerState {
    /// Applies one event, or returns `None` where the event cannot happen in
    /// the current state.
    pub fn step(self, e: WorkerEvent) -> (r: Option<WorkerState>)
        ensures
            r == next_state(self, e),
    {
        match (self, e) {
            (WorkerState::Waiting, WorkerEvent::Received(j)) => Some(WorkerState::Executing(j)),
            (WorkerState::Executing(_), WorkerEvent::Finished) => Some(WorkerState::Waiting),
            (WorkerState::Waiting, WorkerEvent::Disconnected) => Some(WorkerState::Terminated),
            _ => None,
        }
    }

    pub fn is_waiting(&self) -> (r: bool)
        ensures
            r == (*self is Waiting),
    {
        match self {
            WorkerState::Waiting => true,
            _ => false,
        }
    }

    pub fn is_terminated(&self) -> (r: bool)
        ensures
            r == (*self is Terminated),
    {
        match self {
            WorkerState::Terminated => true,
            _ => false,
        }
    }

    /// The job being run, if any.
    pub fn current_job(&self) -> (r: Option<u64>)
        ensures
            r == (match *self {
                WorkerState::Executing(j) => Some(j),
                _ => None,
            }),
    {
        match self {
            WorkerState::Executing(j) => Some(*j),
            _ => None,
        }
    }
}

/// `Terminated` is final: no event leads out of it.
pub proof fn lemma_terminated_is_final(e: WorkerEvent)
    ensures
        next_state(WorkerState::Terminated, e) is None,
{
}

} // verus!

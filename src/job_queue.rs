use vstd::prelude::*;
use std::collections::VecDeque;

verus! {

/// What a worker gets when it reads the queue.
#[derive(Clone, Copy, Debug, PartialEq, Eq, Structural)]
pub enum Received {
    /// The oldest queued job.
    Job(u64),
    /// Nothing queued yet, and the queue is still open: the reader would block.
    Empty,
    /// Nothing queued, and no job can arrive any more.
    Closed,
}

/// An unbounded first-in first-out queue of job ids, with a sending side that
/// can be closed. Jobs already queued stay readable after closing.
pub struct JobQueue {
    items: VecDeque<u64>,
    closed: bool,
}

impl View for JobQueue {
    type V = (Seq<u64>, bool);

    closed spec fn view(&self) -> (Seq<u64>, bool) {
        (self.items@, self.closed)
    }
}

impl JobQueue {
    /// An empty, open queue.
    pub fn new() -> (r: JobQueue)
        ensures
            r@.0 == Seq::<u64>::empty(),
            !r@.1,
    {
        JobQueue { items: VecDeque::new(), closed: false }
    }

    pub fn len(&self) -> (r: usize)
        ensures
            r == self@.0.len(),
    {
        self.items.len()
    }

    pub fn is_closed(&self) -> (r: bool)
        ensures
            r == self@.1,
    {
        self.closed
    }

    /// Appends a job at the back; a closed queue takes nothing and returns
    /// `false`.
    pub fn push(&mut self, job: u64) -> (r: bool)
        ensures
            r == !old(self)@.1,
            final(self)@.1 == old(self)@.1,
            r ==> final(self)@.0 == old(self)@.0.push(job),
            !r ==> final(self)@.0 == old(self)@.0,
    {
        if self.closed {
            false
        } else {
            self.items.push_back(job);
            true
        }
    }

    /// Retires the sending side. Idempotent.
    pub fn close(&mut self)
        ensures
            final(self)@ == (old(self)@.0, true),
    {
        self.closed = true;
    }

    /// Takes the oldest job. Queued jobs are drained before closure is
    /// reported.
    pub fn recv(&mut self) -> (r: Received)
        ensures
            final(self)@.1 == old(self)@.1,
            old(self)@.0.len() > 0 ==> r == Received::Job(old(self)@.0[0])
                && final(self)@.0 == old(self)@.0.drop_first(),
            old(self)@.0.len() == 0 ==> final(self)@ == old(self)@ && r == (if old(self)@.1 {
                Received::Closed
            } else {
                Received::Empty
            }),
    {
        match self.items.pop_front() {
            Some(j) => Received::Job(j),
            None => {
                if self.closed {
                    Received::Closed
                } else {
                    Received::Empty
                }
            },
        }
    }
}

} // verus!

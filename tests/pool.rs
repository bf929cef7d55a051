use thread_pool::dispatcher::{
    Dispatch, Dispatcher, PoolError, RejectReason, RejectedError, StepError,
};
use thread_pool::job_queue::{JobQueue, Received};
use thread_pool::worker::{WorkerEvent, WorkerState};

fn open(size: usize) -> Dispatcher {
    match Dispatcher::new(size) {
        Ok(d) => d,
        Err(e) => panic!("pool of {} not opened: {:?}", size, e),
    }
}

/// Runs every worker, in id order, until none makes progress; returns the
/// ids of the jobs finished, in the order they finished.
fn drive(d: &mut Dispatcher) -> Vec<u64> {
    let mut finished = Vec::new();
    loop {
        let mut progressed = false;
        for id in 1..=d.size() {
            match d.worker_state(id) {
                Some(WorkerState::Waiting) => match d.poll(id) {
                    Ok(Dispatch::Run(_)) | Ok(Dispatch::Exit) => progressed = true,
                    Ok(Dispatch::Wait) => {}
                    Err(e) => panic!("poll failed: {:?}", e),
                },
                Some(WorkerState::Executing(_)) => {
                    finished.push(d.finish(id).unwrap());
                    progressed = true;
                }
                _ => {}
            }
        }
        if !progressed {
            return finished;
        }
    }
}

fn tear_down(d: &mut Dispatcher) -> Vec<usize> {
    d.close();
    drive(d);
    let mut order = Vec::new();
    while let Some(id) = d.next_join() {
        d.join(id).unwrap();
        order.push(id);
    }
    order
}

#[test]
fn zero_size_is_rejected() {
    assert_eq!(Dispatcher::new(0).err(), Some(PoolError::ZeroSize));
}

#[test]
fn new_pool_has_waiting_workers() {
    for size in [1usize, 4, 9] {
        let d = open(size);
        assert_eq!(d.size(), size);
        assert!(d.is_open());
        assert_eq!(d.submitted(), 0);
        assert_eq!(d.queued_len(), 0);
        for id in 1..=size {
            assert_eq!(d.worker_state(id), Some(WorkerState::Waiting));
            assert_eq!(d.is_joined(id), Some(false));
        }
        assert_eq!(d.worker_state(0), None);
        assert_eq!(d.worker_state(size + 1), None);
    }
}

#[test]
fn ten_jobs_on_four_workers_all_run_once() {
    let mut d = open(4);
    for k in 0..10u64 {
        assert_eq!(d.execute(), Ok(k));
    }
    let mut counter = 0;
    let finished = drive(&mut d);
    counter += finished.len();
    tear_down(&mut d);
    assert_eq!(counter, 10);
    let mut sorted = finished.clone();
    sorted.sort();
    assert_eq!(sorted, (0..10u64).collect::<Vec<u64>>());
    assert!(d.is_torn_down());
}

#[test]
fn fewer_jobs_than_workers_leaves_workers_idle() {
    let mut d = open(5);
    d.execute().unwrap();
    d.execute().unwrap();
    assert_eq!(d.poll(1), Ok(Dispatch::Run(0)));
    assert_eq!(d.poll(2), Ok(Dispatch::Run(1)));
    assert_eq!(d.poll(3), Ok(Dispatch::Wait));
    assert_eq!(d.worker_state(3), Some(WorkerState::Waiting));
    assert_eq!(d.finish(2), Ok(1));
    assert_eq!(d.finish(1), Ok(0));
    let order = tear_down(&mut d);
    assert_eq!(order, vec![1, 2, 3, 4, 5]);
}

#[test]
fn single_worker_runs_jobs_in_order() {
    let mut d = open(1);
    let a = d.execute().unwrap();
    let b = d.execute().unwrap();
    assert_eq!(d.poll(1), Ok(Dispatch::Run(a)));
    // B cannot start while A runs.
    assert_eq!(d.poll(1), Err(StepError::NotWaiting));
    assert_eq!(d.worker_state(1), Some(WorkerState::Executing(a)));
    assert_eq!(d.finish(1), Ok(a));
    assert_eq!(d.poll(1), Ok(Dispatch::Run(b)));
    assert_eq!(d.finish(1), Ok(b));
}

#[test]
fn submit_after_close_is_rejected() {
    let mut d = open(2);
    d.execute().unwrap();
    d.close();
    assert!(!d.is_open());
    assert_eq!(
        d.execute(),
        Err(RejectedError { reason: RejectReason::PoolClosed })
    );
    assert_eq!(d.submitted(), 1);
    assert_eq!(d.queued_len(), 1);
}

#[test]
fn queued_jobs_drain_after_close() {
    let mut d = open(2);
    for _ in 0..3 {
        d.execute().unwrap();
    }
    d.close();
    assert_eq!(d.poll(2), Ok(Dispatch::Run(0)));
    assert_eq!(d.poll(1), Ok(Dispatch::Run(1)));
    assert_eq!(d.finish(1), Ok(1));
    assert_eq!(d.poll(1), Ok(Dispatch::Run(2)));
    assert_eq!(d.finish(1), Ok(2));
    assert_eq!(d.poll(1), Ok(Dispatch::Exit));
    assert_eq!(d.worker_state(1), Some(WorkerState::Terminated));
    // Worker 2 is still running its job: it cannot be joined yet.
    assert_eq!(d.join(2), Err(StepError::NotTerminated));
    assert_eq!(d.next_join(), Some(1));
    assert_eq!(d.join(1), Ok(()));
    assert_eq!(d.join(1), Err(StepError::AlreadyJoined));
    assert_eq!(d.finish(2), Ok(0));
    assert_eq!(d.poll(2), Ok(Dispatch::Exit));
    assert_eq!(d.next_join(), Some(2));
    assert_eq!(d.join(2), Ok(()));
    assert_eq!(d.next_join(), None);
    assert!(d.is_torn_down());
}

#[test]
fn empty_pool_tears_down_in_id_order() {
    let mut d = open(3);
    assert!(!d.is_torn_down());
    let order = tear_down(&mut d);
    assert_eq!(order, vec![1, 2, 3]);
    assert!(d.is_torn_down());
    assert_eq!(d.execute().err().map(|e| e.reason), Some(RejectReason::PoolClosed));
}

#[test]
fn step_errors() {
    let mut d = open(2);
    assert_eq!(d.poll(0), Err(StepError::UnknownWorker));
    assert_eq!(d.poll(3), Err(StepError::UnknownWorker));
    assert_eq!(d.finish(3), Err(StepError::UnknownWorker));
    assert_eq!(d.join(0), Err(StepError::UnknownWorker));
    assert_eq!(d.finish(1), Err(StepError::NotExecuting));
    assert_eq!(d.join(1), Err(StepError::NotTerminated));
    assert_eq!(d.poll(1), Ok(Dispatch::Wait));
}

#[test]
fn worker_state_machine() {
    let w = WorkerState::Waiting;
    assert_eq!(w.step(WorkerEvent::Received(7)), Some(WorkerState::Executing(7)));
    assert_eq!(w.step(WorkerEvent::Disconnected), Some(WorkerState::Terminated));
    assert_eq!(w.step(WorkerEvent::Finished), None);
    let e = WorkerState::Executing(7);
    assert_eq!(e.current_job(), Some(7));
    assert_eq!(e.step(WorkerEvent::Finished), Some(WorkerState::Waiting));
    assert_eq!(e.step(WorkerEvent::Received(8)), None);
    let t = WorkerState::Terminated;
    assert!(t.is_terminated());
    for ev in [WorkerEvent::Received(1), WorkerEvent::Finished, WorkerEvent::Disconnected] {
        assert_eq!(t.step(ev), None);
    }
}

#[test]
fn job_queue_is_fifo_and_drains_after_close() {
    let mut q = JobQueue::new();
    assert_eq!(q.recv(), Received::Empty);
    assert!(q.push(4));
    assert!(q.push(2));
    q.close();
    assert!(!q.push(9));
    assert_eq!(q.len(), 2);
    assert_eq!(q.recv(), Received::Job(4));
    assert_eq!(q.recv(), Received::Job(2));
    assert_eq!(q.recv(), Received::Closed);
    assert!(q.is_closed());
}

use echo_protocol::pool::{Assignment, PoolError, Scheduler, WorkerState};

fn run_job(s: &mut Scheduler<u32>, w: usize) -> Option<u32> {
    match s.next_task(w) {
        Assignment::Run(j) => Some(j),
        _ => None,
    }
}

#[test]
fn zero_workers_is_refused() {
    assert!(matches!(Scheduler::<u32>::new(0), Err(PoolError::NoWorkers)));
}

#[test]
fn available_parallelism_gives_at_least_one_worker() {
    let s = Scheduler::<u32>::with_available_parallelism();
    assert!(s.size() >= 1);
    assert_eq!(s.pending(), 0);
    assert_eq!(s.worker_state(0), WorkerState::Idle);
}

#[test]
fn more_jobs_than_workers_all_complete_in_order() {
    let mut s = Scheduler::<u32>::new(2).ok().unwrap();
    for j in 1..=5 {
        assert_eq!(s.submit(j), Ok(()));
    }
    assert_eq!(s.pending(), 5);
    let mut done = Vec::new();
    let mut busy = [None, None];
    while s.pending() > 0 || busy.iter().any(|b| b.is_some()) {
        for w in 0..2 {
            if busy[w].is_none() {
                busy[w] = run_job(&mut s, w);
            }
        }
        let running = (0..2).filter(|w| s.worker_state(*w) == WorkerState::Busy).count();
        assert!(running <= 2);
        for w in 0..2 {
            if let Some(j) = busy[w].take() {
                done.push(j);
                s.complete(w);
            }
        }
    }
    assert_eq!(done, vec![1, 2, 3, 4, 5]);
    assert_eq!(s.worker_state(0), WorkerState::Idle);
}

#[test]
fn idle_worker_waits_while_queue_is_open() {
    let mut s = Scheduler::<u32>::new(1).ok().unwrap();
    assert!(matches!(s.next_task(0), Assignment::Wait));
    assert_eq!(s.worker_state(0), WorkerState::Idle);
}

#[test]
fn teardown_without_jobs_does_not_block() {
    let mut s = Scheduler::<u32>::new(3).ok().unwrap();
    s.close();
    assert!(s.is_closed());
    assert!(!s.all_exited());
    for w in 0..3 {
        assert!(matches!(s.next_task(w), Assignment::Exit));
        assert_eq!(s.worker_state(w), WorkerState::Exited);
    }
    assert!(s.all_exited());
}

#[test]
fn close_keeps_queued_jobs_and_refuses_new_ones() {
    let mut s = Scheduler::<u32>::new(1).ok().unwrap();
    assert_eq!(s.submit(7), Ok(()));
    s.close();
    assert_eq!(s.submit(8), Err(PoolError::Closed));
    assert_eq!(s.pending(), 1);
    assert_eq!(run_job(&mut s, 0), Some(7));
    s.complete(0);
    assert!(matches!(s.next_task(0), Assignment::Exit));
    assert!(s.all_exited());
}

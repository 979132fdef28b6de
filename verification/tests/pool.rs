use snow::pool::{worker_continues, ThreadPool, Work, WorkerStep};

#[test]
fn every_unit_executed_exactly_once() {
    let mut pool: ThreadPool<u32> = ThreadPool::new(3);
    pool.do_work(10);
    pool.do_work(20);
    pool.do_work(30);
    assert_eq!(pool.worker_count(), 3);
    assert_eq!(pool.pending_count(), 3);
    let executed = pool.run();
    assert_eq!(executed, vec![10, 20, 30]);
    assert_eq!(pool.pending_count(), 0);
    assert_eq!(pool.worker_count(), 3);
}

#[test]
fn worker_step_executes_units_and_stops_on_end() {
    assert!(matches!(Work::Unit(5u8).step(), WorkerStep::Execute(5)));
    assert!(matches!(Work::<u8>::End.step(), WorkerStep::Stop));
}

#[test]
fn worker_continues_after_fault() {
    assert!(worker_continues(true));
    assert!(worker_continues(false));
}

#[test]
fn faulting_unit_blocks_no_later_unit() {
    let mut pool: ThreadPool<&str> = ThreadPool::new(1);
    pool.do_work("faults when executed");
    pool.do_work("still runs");
    let executed = pool.run();
    assert_eq!(executed, vec!["faults when executed", "still runs"]);
}

#[test]
fn shutdown_with_no_pending_units_stops_every_worker() {
    let mut pool: ThreadPool<u32> = ThreadPool::new(4);
    pool.dispose();
    assert_eq!(pool.pending_count(), 4);
    let executed = pool.run();
    assert!(executed.is_empty());
    assert_eq!(pool.worker_count(), 0);
}

#[test]
fn work_submitted_after_shutdown_is_never_delivered() {
    let mut pool: ThreadPool<u32> = ThreadPool::new(1);
    pool.dispose();
    pool.do_work(42);
    let executed = pool.run();
    assert!(executed.is_empty());
    assert_eq!(pool.worker_count(), 0);
    assert_eq!(pool.pending_count(), 1);
}

#[test]
fn shutdown_after_work_runs_units_then_stops_workers() {
    let mut pool: ThreadPool<u32> = ThreadPool::new(2);
    pool.do_work(7);
    pool.dispose();
    assert_eq!(pool.pending_count(), 3);
    let executed = pool.run();
    assert_eq!(executed, vec![7]);
    assert_eq!(pool.worker_count(), 0);
}

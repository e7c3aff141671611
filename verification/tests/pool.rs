use multi_thread_web_server::Placement;
use multi_thread_web_server::ThreadPool;
use multi_thread_web_server::WorkerStatus;

fn busy() -> WorkerStatus {
    WorkerStatus { live: true, occupied: true, queue_len: 0 }
}

fn idle() -> WorkerStatus {
    WorkerStatus { live: true, occupied: false, queue_len: 0 }
}

#[test]
fn burst_spawns_one_worker_per_task_up_to_capacity() {
    let mut pool = ThreadPool::new(3);
    for expected_id in 0..3 {
        let status = vec![busy(); pool.worker_count()];
        let placement = pool.submit(&status);
        assert_eq!(placement, Placement::SpawnNew { thread_number: expected_id });
    }
    assert_eq!(pool.worker_count(), 3);
}

#[test]
fn pool_never_exceeds_capacity_under_any_burst() {
    let mut pool = ThreadPool::new(2);
    for _ in 0..20 {
        let status = vec![busy(); pool.worker_count()];
        pool.submit(&status);
        assert!(pool.worker_count() <= 2);
    }
    assert_eq!(pool.worker_count(), 2);
}

#[test]
fn idle_worker_is_preferred_over_spawning() {
    let mut pool = ThreadPool::new(4);
    let placement = pool.submit(&vec![]);
    assert_eq!(placement, Placement::SpawnNew { thread_number: 0 });
    // The single worker is now idle: the next task goes to it.
    let placement = pool.submit(&vec![idle()]);
    assert_eq!(placement, Placement::AssignIdle { index: 0 });
    assert_eq!(pool.worker_count(), 1);
}

#[test]
fn first_idle_worker_wins() {
    let mut pool = ThreadPool::new(3);
    for _ in 0..3 {
        let status = vec![busy(); pool.worker_count()];
        pool.submit(&status);
    }
    let placement = pool.submit(&vec![busy(), idle(), idle()]);
    assert_eq!(placement, Placement::AssignIdle { index: 1 });
}

#[test]
fn overload_goes_to_smallest_queue() {
    let mut pool = ThreadPool::new(2);
    for _ in 0..2 {
        let status = vec![busy(); pool.worker_count()];
        pool.submit(&status);
    }
    assert_eq!(pool.worker_count(), 2);
    let status = vec![
        WorkerStatus { live: true, occupied: true, queue_len: 2 },
        WorkerStatus { live: true, occupied: true, queue_len: 1 },
    ];
    let placement = pool.submit(&status);
    assert_eq!(placement, Placement::EnqueueLeastLoaded { index: 1 });
}

#[test]
fn overload_tie_breaks_on_first_worker() {
    let mut pool = ThreadPool::new(2);
    for _ in 0..2 {
        let status = vec![busy(); pool.worker_count()];
        pool.submit(&status);
    }
    let status = vec![
        WorkerStatus { live: true, occupied: true, queue_len: 1 },
        WorkerStatus { live: true, occupied: true, queue_len: 1 },
    ];
    let placement = pool.submit(&status);
    assert_eq!(placement, Placement::EnqueueLeastLoaded { index: 0 });
}

#[test]
fn dead_worker_is_excluded_and_its_id_reused() {
    let mut pool = ThreadPool::new(2);
    for _ in 0..2 {
        let status = vec![busy(); pool.worker_count()];
        pool.submit(&status);
    }
    assert_eq!(pool.worker_count(), 2);
    // Worker 0 died (its task panicked); worker 1 is still busy.
    let status = vec![
        WorkerStatus { live: false, occupied: false, queue_len: 0 },
        busy(),
    ];
    let placement = pool.submit(&status);
    // The dead worker is dropped and its id handed to the replacement.
    assert_eq!(placement, Placement::SpawnNew { thread_number: 0 });
    assert_eq!(pool.worker_count(), 2);
    assert_eq!(pool.thread_number_at(0), 1);
    assert_eq!(pool.thread_number_at(1), 0);
}

#[test]
fn capacity_is_fixed_at_construction() {
    let pool = ThreadPool::new(8);
    assert_eq!(pool.capacity(), 8);
    assert_eq!(pool.worker_count(), 0);
}

use sophon::sched::{ProcId, Scheduler, SchedulerState, Task, TaskId, TaskState};
use sophon::sync::{RawCondvar, RawMutex};

fn task(id: usize) -> Task {
    Task { id: TaskId(id), proc: ProcId(1), context: 0, sched: SchedulerState::new() }
}

fn three_tasks() -> Scheduler {
    let mut s = Scheduler::new();
    s.register_new_task(task(1));
    s.register_new_task(task(2));
    s.register_new_task(task(3));
    s.schedule();
    s
}

// Mutual exclusion: from a shared unlocked state, the first attempt sees
// the bit pass from clear to set and proceeds; the second attempt from
// another task finds it set and blocks. Exactly one task proceeds.
#[test]
fn mutex_mutual_exclusion() {
    let mut s = three_tasks();
    let mut m = RawMutex::new();
    let first = m.lock(&mut s);
    assert!(first);
    assert!(m.is_locked);
    // the holder yields; the next task attempts the same lock
    s.enqueue_current_task_as_ready();
    s.schedule();
    assert_eq!(s.get_current_task_id(), Some(TaskId(2)));
    let second = m.lock(&mut s);
    assert!(!second);
    // the loser is on the waiter list, blocked
    assert_eq!(m.waiters.len(), 1);
    assert_eq!(m.waiters[0], TaskId(2));
    assert_eq!(
        s.get_task_by_id(TaskId(2)).unwrap().sched.run_state,
        TaskState::Blocked
    );
}

#[test]
fn unlock_wakes_all_waiters() {
    let mut s = three_tasks();
    let mut m = RawMutex::new();
    assert!(m.lock(&mut s));
    // tasks 2 and 3 contend and block in turn
    s.enqueue_current_task_as_ready();
    s.schedule();
    assert!(!m.lock(&mut s));
    assert!(!m.lock(&mut s));
    assert_eq!(m.waiters.len(), 2);
    // back on task 1: release; both waiters become ready, in order
    assert_eq!(s.get_current_task_id(), Some(TaskId(1)));
    m.unlock(&mut s);
    assert!(!m.is_locked);
    assert_eq!(m.waiters.len(), 0);
    assert_eq!(
        s.get_task_by_id(TaskId(2)).unwrap().sched.run_state,
        TaskState::Ready
    );
    assert_eq!(
        s.get_task_by_id(TaskId(3)).unwrap().sched.run_state,
        TaskState::Ready
    );
    // the woken tasks re-contend: the first to run takes the lock
    s.enqueue_current_task_as_ready();
    s.schedule();
    assert_eq!(s.get_current_task_id(), Some(TaskId(2)));
    assert!(m.lock(&mut s));
}

// Condvar signaling: every task on the waiter list at notify_all becomes
// ready exactly once; the list empties.
#[test]
fn notify_all_readies_every_waiter() {
    let mut s = three_tasks();
    let mut m = RawMutex::new();
    let mut cv = RawCondvar::new();
    assert!(m.lock(&mut s));
    cv.wait(&mut m, &mut s);
    // task 2 runs now; it takes the lock and waits too
    assert_eq!(s.get_current_task_id(), Some(TaskId(2)));
    assert!(m.lock(&mut s));
    cv.wait(&mut m, &mut s);
    assert_eq!(cv.waiters.len(), 2);
    assert_eq!(cv.waiters[0], TaskId(1));
    assert_eq!(cv.waiters[1], TaskId(2));
    // task 3 notifies: both waiters wake exactly once, in list order
    assert_eq!(s.get_current_task_id(), Some(TaskId(3)));
    let queue_before = s.task_queue.len();
    cv.notify_all(&mut s);
    assert_eq!(cv.waiters.len(), 0);
    assert_eq!(s.task_queue.len(), queue_before + 2);
    assert_eq!(
        s.get_task_by_id(TaskId(1)).unwrap().sched.run_state,
        TaskState::Ready
    );
    assert_eq!(
        s.get_task_by_id(TaskId(2)).unwrap().sched.run_state,
        TaskState::Ready
    );
}

// Mutex contention: three tasks repeatedly lock, increment a shared
// counter, and unlock; every increment happens under the lock and none
// is lost.
#[test]
fn mutex_contention_counts_all_increments() {
    let mut s = three_tasks();
    let mut m = RawMutex::new();
    let mut counter: u64 = 0;
    let mut done = [0u32; 4];
    let mut guard = 0u64;
    while (done[1] < 1000 || done[2] < 1000 || done[3] < 1000) && guard < 100_000 {
        guard += 1;
        let cur = match s.get_current_task_id() {
            Some(TaskId(id)) => id,
            None => {
                s.schedule();
                continue;
            }
        };
        if done[cur] >= 1000 {
            // no work left here: hand the CPU on
            s.enqueue_current_task_as_ready();
            s.schedule();
            continue;
        }
        if m.lock(&mut s) {
            counter += 1;
            done[cur] += 1;
            m.unlock(&mut s);
            // cooperative yield between iterations
            s.enqueue_current_task_as_ready();
            s.schedule();
        }
        // on a failed lock the task is blocked; unlock above has already
        // readied it again for the next round
    }
    assert_eq!(counter, 3000);
    assert_eq!(done[1], 1000);
    assert_eq!(done[2], 1000);
    assert_eq!(done[3], 1000);
}

// After a wake the waiter re-takes the mutex before its wait completes.
#[test]
fn woken_waiter_relocks() {
    let mut s = three_tasks();
    let mut m = RawMutex::new();
    let mut cv = RawCondvar::new();
    assert!(m.lock(&mut s));
    let waiter = s.get_current_task_id().unwrap();
    cv.wait(&mut m, &mut s);
    // another task signals; the woken waiter eventually resumes and
    // re-locks before its wait completes
    cv.notify_all(&mut s);
    let mut guard = 0;
    while s.get_current_task_id() != Some(waiter) && guard < 10 {
        s.enqueue_current_task_as_ready();
        s.schedule();
        guard += 1;
    }
    assert_eq!(s.get_current_task_id(), Some(waiter));
    assert!(cv.wait_resume(&mut m, &mut s));
    assert!(m.is_locked);
}

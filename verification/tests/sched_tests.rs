use sophon::sched::{ProcId, Scheduler, SchedulerState, Task, TaskId, TaskState};

fn task(id: usize) -> Task {
    Task { id: TaskId(id), proc: ProcId(1), context: 0, sched: SchedulerState::new() }
}

// Scheduler FIFO: two tasks made ready in order are dispatched in that
// order, whether the task in between blocks or yields.
#[test]
fn fifo_dispatch_order() {
    let mut s = Scheduler::new();
    s.register_new_task(task(1));
    s.register_new_task(task(2));
    let a = s.schedule();
    assert_eq!(a, TaskId(1));
    // the running task yields: it goes to the tail, and the next dispatch
    // is the second registration
    s.enqueue_current_task_as_ready();
    let b = s.schedule();
    assert_eq!(b, TaskId(2));
}

#[test]
fn fifo_after_block() {
    let mut s = Scheduler::new();
    s.register_new_task(task(1));
    s.register_new_task(task(2));
    s.register_new_task(task(3));
    assert_eq!(s.schedule(), TaskId(1));
    // the current task blocks: it leaves the CPU without rejoining the
    // queue, and the queue order 2, 3 is respected
    assert_eq!(s.freeze_current_task(), TaskId(2));
    assert_eq!(s.freeze_current_task(), TaskId(3));
}

#[test]
fn wake_up_is_idempotent_on_ready() {
    let mut s = Scheduler::new();
    s.register_new_task(task(1));
    s.register_new_task(task(2));
    s.schedule();
    s.freeze_current_task();
    // task 1 is blocked; waking it twice readies it exactly once
    s.wake_up(TaskId(1));
    assert_eq!(s.task_queue.len(), 1);
    s.wake_up(TaskId(1));
    assert_eq!(s.task_queue.len(), 1);
    assert_eq!(
        s.get_task_by_id(TaskId(1)).unwrap().sched.run_state,
        TaskState::Ready
    );
}

#[test]
fn timer_tick_charges_and_rotates() {
    let mut s = Scheduler::new();
    s.register_new_task(task(1));
    s.register_new_task(task(2));
    assert_eq!(s.schedule(), TaskId(1));
    // 99 ticks keep the task on the CPU
    let mut i = 0;
    while i < 99 {
        assert_eq!(s.timer_tick(), TaskId(1));
        i += 1;
    }
    // the 100th tick spends the slice: the head runs, the spent task
    // rejoins at the tail
    assert_eq!(s.timer_tick(), TaskId(2));
    assert_eq!(s.get_current_task_id(), Some(TaskId(2)));
    assert_eq!(
        s.get_task_by_id(TaskId(1)).unwrap().sched.run_state,
        TaskState::Ready
    );
}

// Two-task round robin: both tasks yield every unit of work; after 300
// units the work is split evenly.
#[test]
fn two_task_round_robin() {
    let mut s = Scheduler::new();
    s.register_new_task(task(1));
    s.register_new_task(task(2));
    s.schedule();
    let mut work_a = 0;
    let mut work_b = 0;
    let mut t = 0;
    while t < 300 {
        match s.get_current_task_id() {
            Some(TaskId(1)) => work_a += 1,
            Some(TaskId(2)) => work_b += 1,
            _ => panic!("no current task"),
        }
        s.enqueue_current_task_as_ready();
        s.schedule();
        t += 1;
    }
    assert_eq!(work_a, 150);
    assert_eq!(work_b, 150);
}

#[test]
fn remove_task_clears_current() {
    let mut s = Scheduler::new();
    s.register_new_task(task(1));
    s.register_new_task(task(2));
    s.schedule();
    s.remove_task(TaskId(1));
    assert!(s.get_current_task_id().is_none());
    assert!(s.get_task_by_id(TaskId(1)).is_none());
    assert!(s.get_task_by_id(TaskId(2)).is_some());
}

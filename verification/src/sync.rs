//! Blocking synchronization primitives, layered on the scheduler.
//!
//! The raw mutex is a locked bit plus a FIFO list of waiting task ids; the
//! condvar is a waiter list bound to a caller-supplied mutex at wait time.
//! On this single-CPU design the only atomicity mechanism is that each
//! operation runs with interrupts off, so the state here is plain data and
//! each operation is one uninterrupted transition. A task that fails to
//! take the lock queues itself and blocks; unlock and notify wake every
//! waiter, and the woken tasks contend again.

use vstd::prelude::*;

verus! {

use crate::sched::{id_in_state, Scheduler, TaskId, TaskState};

/// All of `ws` name distinct, currently blocked tasks.
pub open spec fn waiters_blocked(tasks: Seq<crate::sched::Task>, ws: Seq<TaskId>) -> bool {
    &&& forall|i: int| 0 <= i < ws.len() ==> id_in_state(tasks, #[trigger] ws[i], TaskState::Blocked)
    &&& forall|i: int, j: int|
        0 <= i < ws.len() && 0 <= j < ws.len() && i != j ==> (#[trigger] ws[i]) != (#[trigger] ws[j])
}

/// Wake every task in `ws`: each becomes ready exactly once, joining the
/// run queue in list order behind the tasks already ready.
fn wake_all(ws: &Vec<TaskId>, sched: &mut Scheduler)
    requires
        old(sched).wf(),
        waiters_blocked(old(sched).tasks@, ws@),
    ensures
        final(sched).wf(),
        final(sched).current_task == old(sched).current_task,
        final(sched).tasks@.len() == old(sched).tasks@.len(),
        forall|i: int|
            0 <= i < old(sched).tasks@.len() ==> (#[trigger] final(sched).tasks@[i]).id == old(sched).tasks@[i].id && final(sched).tasks@[i].proc == old(sched).tasks@[i].proc,
        final(sched).task_queue@ == old(sched).task_queue@ + ws@,
        forall|i: int|
            0 <= i < ws@.len() ==> id_in_state(final(sched).tasks@, #[trigger] ws@[i],
            TaskState::Ready),
        forall|id: TaskId|
            !ws@.contains(id) && id_in_state(old(sched).tasks@, id, TaskState::Blocked)
                ==> id_in_state(final(sched).tasks@, id, TaskState::Blocked),
{
    let ghost s0 = *sched;
    let n = ws.len();
    let mut i: usize = 0;
    while i < n
        invariant
            0 <= i <= n,
            n == ws@.len(),
            sched.wf(),
            sched.current_task == s0.current_task,
            sched.tasks@.len() == s0.tasks@.len(),
            forall|k: int|
                0 <= k < s0.tasks@.len() ==> (#[trigger] sched.tasks@[k]).id == s0.tasks@[k].id
                    && sched.tasks@[k].proc == s0.tasks@[k].proc,
            waiters_blocked(s0.tasks@, ws@),
            sched.task_queue@ == s0.task_queue@ + ws@.subrange(0, i as int),
            forall|k: int|
                0 <= k < i ==> id_in_state(sched.tasks@, #[trigger] ws@[k], TaskState::Ready),
            forall|k: int|
                i <= k < n ==> id_in_state(sched.tasks@, #[trigger] ws@[k], TaskState::Blocked),
            forall|id: TaskId|
                !ws@.contains(id) && id_in_state(s0.tasks@, id, TaskState::Blocked)
                    ==> id_in_state(sched.tasks@, id, TaskState::Blocked),
        decreases n - i,
    {
        let ghost before = *sched;
        let w = ws[i];
        sched.wake_up(w);
        proof {
            assert(id_in_state(before.tasks@, w, TaskState::Blocked));
            let wi = choose|wi: int|
                {
                    &&& 0 <= wi < before.tasks@.len()
                    &&& before.tasks@[wi].id == w
                    &&& sched.tasks@ == before.tasks@.update(
                        wi,
                        crate::sched::Task {
                            id: w,
                            proc: before.tasks@[wi].proc,
                            context: before.tasks@[wi].context,
                            sched: crate::sched::SchedulerState {
                                run_state: TaskState::Ready,
                                time_slice_units: before.tasks@[wi].sched.time_slice_units,
                            },
                        },
                    )
                };
            assert forall|k: int| 0 <= k < i + 1 implies id_in_state(
                sched.tasks@,
                #[trigger] ws@[k],
                TaskState::Ready,
            ) by {
                if k < i {
                    let ti = choose|ti: int|
                        0 <= ti < before.tasks@.len() && before.tasks@[ti].id == ws@[k] && before
                            .tasks@[ti].sched.run_state == TaskState::Ready;
                    if ti != wi {
                        assert(sched.tasks@[ti] == before.tasks@[ti]);
                    } else {
                        assert(sched.tasks@[wi].sched.run_state == TaskState::Ready);
                    }
                } else {
                    assert(sched.tasks@[wi].id == w && sched.tasks@[wi].sched.run_state
                        == TaskState::Ready);
                }
            }
            assert forall|k: int| i + 1 <= k < n implies id_in_state(
                sched.tasks@,
                #[trigger] ws@[k],
                TaskState::Blocked,
            ) by {
                let ti = choose|ti: int|
                    0 <= ti < before.tasks@.len() && before.tasks@[ti].id == ws@[k] && before
                        .tasks@[ti].sched.run_state == TaskState::Blocked;
                assert(ws@[k] != w);
                assert(ti != wi);
                assert(sched.tasks@[ti] == before.tasks@[ti]);
            }
            assert forall|id: TaskId|
                !ws@.contains(id) && id_in_state(s0.tasks@, id, TaskState::Blocked) implies id_in_state(
                sched.tasks@,
                id,
                TaskState::Blocked,
            ) by {
                assert(id_in_state(before.tasks@, id, TaskState::Blocked));
                let ti = choose|ti: int|
                    0 <= ti < before.tasks@.len() && before.tasks@[ti].id == id && before
                        .tasks@[ti].sched.run_state == TaskState::Blocked;
                assert(id != ws@[i as int]);
                assert(ti != wi);
                assert(sched.tasks@[ti] == before.tasks@[ti]);
            }
            assert(sched.task_queue@ =~= s0.task_queue@ + ws@.subrange(0, i as int + 1));
        }
        i = i + 1;
    }
    proof {
        assert(ws@.subrange(0, n as int) =~= ws@);
    }
}

/// A blocking mutex: a locked bit and the FIFO list of waiting tasks.
pub struct RawMutex {
    pub is_locked: bool,
    pub waiters: Vec<TaskId>,
}

impl RawMutex {
    /// An unlocked mutex with no waiters.
    pub fn new() -> (r: RawMutex)
        ensures
            !r.is_locked,
            r.waiters@.len() == 0,
    {
        RawMutex { is_locked: false, waiters: Vec::new() }
    }

    /// One lock attempt by the current task. Exactly when the bit was
    /// clear, the caller takes the lock and keeps the CPU; otherwise it
    /// joins the waiter list and blocks, and the head of the run queue is
    /// dispatched. A woken waiter contends again by calling `lock` anew.
    pub fn lock(&mut self, sched: &mut Scheduler) -> (acquired: bool)
        requires
            old(sched).wf(),
            old(sched).current_task is Some,
            old(sched).task_queue@.len() > 0,
        ensures
            final(sched).wf(),
            final(sched).tasks@.len() == old(sched).tasks@.len(),
            forall|i: int|
                0 <= i < old(sched).tasks@.len() ==> (#[trigger] final(sched).tasks@[i]).id
                    == old(sched).tasks@[i].id && final(sched).tasks@[i].proc == old(sched).tasks@[i].proc,
            acquired == !old(self).is_locked,
            final(self).is_locked,
            acquired ==> final(self).waiters == old(self).waiters && *final(sched) == *old(sched),
            !acquired ==> {
                &&& final(self).waiters@ == old(self).waiters@.push(
                    old(sched).current_task->Some_0,
                )
                &&& final(sched).current_task == Some(old(sched).task_queue@[0])
                &&& final(sched).task_queue@ == old(sched).task_queue@.drop_first()
            },
    {
        if !self.is_locked {
            self.is_locked = true;
            true
        } else {
            let t = match sched.get_current_task_id() {
                Some(t) => t,
                None => unreached(),
            };
            self.waiters.push(t);
            sched.freeze_current_task();
            false
        }
    }

    /// Clear the bit and wake every waiter; the woken tasks re-contend
    /// and exactly one of them will take the lock next.
    pub fn unlock(&mut self, sched: &mut Scheduler)
        requires
            old(sched).wf(),
            waiters_blocked(old(sched).tasks@, old(self).waiters@),
        ensures
            final(sched).wf(),
            final(sched).tasks@.len() == old(sched).tasks@.len(),
            forall|i: int|
                0 <= i < old(sched).tasks@.len() ==> (#[trigger] final(sched).tasks@[i]).id
                    == old(sched).tasks@[i].id && final(sched).tasks@[i].proc == old(sched).tasks@[i].proc,
            !final(self).is_locked,
            final(self).waiters@.len() == 0,
            final(sched).current_task == old(sched).current_task,
            final(sched).task_queue@ == old(sched).task_queue@ + old(self).waiters@,
            forall|i: int|
                0 <= i < old(self).waiters@.len() ==> id_in_state(
                    final(sched).tasks@,
                    #[trigger] old(self).waiters@[i],
                    TaskState::Ready,
                ),
    {
        self.is_locked = false;
        wake_all(&self.waiters, sched);
        self.waiters.clear();
    }
}

/// A condition variable: a FIFO list of waiting tasks, bound to a
/// caller-supplied mutex while waiting.
pub struct RawCondvar {
    pub waiters: Vec<TaskId>,
}

impl RawCondvar {
    /// A condvar with no waiters.
    pub fn new() -> (r: RawCondvar)
        ensures
            r.waiters@.len() == 0,
    {
        RawCondvar { waiters: Vec::new() }
    }

    /// The current task joins the waiter list, releases the mutex (waking
    /// its waiters), and blocks. On wake the caller re-takes the mutex
    /// before re-checking its condition, as waits may be spurious.
    pub fn wait(&mut self, lock: &mut RawMutex, sched: &mut Scheduler) -> (next: TaskId)
        requires
            old(sched).wf(),
            old(sched).current_task is Some,
            old(sched).task_queue@.len() + old(lock).waiters@.len() > 0,
            waiters_blocked(old(sched).tasks@, old(lock).waiters@),
        ensures
            final(sched).wf(),
            final(sched).tasks@.len() == old(sched).tasks@.len(),
            forall|i: int|
                0 <= i < old(sched).tasks@.len() ==> (#[trigger] final(sched).tasks@[i]).id
                    == old(sched).tasks@[i].id && final(sched).tasks@[i].proc == old(sched).tasks@[i].proc,
            final(self).waiters@ == old(self).waiters@.push(old(sched).current_task->Some_0),
            !final(lock).is_locked,
            final(lock).waiters@.len() == 0,
            final(sched).current_task == Some(next),
    {
        let t = match sched.get_current_task_id() {
            Some(t) => t,
            None => unreached(),
        };
        self.waiters.push(t);
        lock.unlock(sched);
        sched.freeze_current_task()
    }

    /// The resume half of `wait`: a task woken from the waiter list takes
    /// the mutex back before its `wait` returns, even after a spurious
    /// wake. One attempt, exactly as `lock`: on a true result the waiter
    /// holds the mutex again and `wait` is complete; on a false result
    /// another contender won and the waiter blocks to retry.
    pub fn wait_resume(&self, lock: &mut RawMutex, sched: &mut Scheduler) -> (acquired: bool)
        requires
            old(sched).wf(),
            old(sched).current_task is Some,
            old(sched).task_queue@.len() > 0,
        ensures
            final(sched).wf(),
            acquired == !old(lock).is_locked,
            final(lock).is_locked,
            acquired ==> final(lock).waiters == old(lock).waiters && *final(sched) == *old(sched),
            !acquired ==> {
                &&& final(lock).waiters@ == old(lock).waiters@.push(
                    old(sched).current_task->Some_0,
                )
                &&& final(sched).current_task == Some(old(sched).task_queue@[0])
                &&& final(sched).task_queue@ == old(sched).task_queue@.drop_first()
            },
    {
        lock.lock(sched)
    }

    /// Wake every task that was in the waiter list when the call began:
    /// each becomes ready exactly once, in list order at the queue tail.
    pub fn notify_all(&mut self, sched: &mut Scheduler)
        requires
            old(sched).wf(),
            waiters_blocked(old(sched).tasks@, old(self).waiters@),
        ensures
            final(sched).wf(),
            final(sched).tasks@.len() == old(sched).tasks@.len(),
            forall|i: int|
                0 <= i < old(sched).tasks@.len() ==> (#[trigger] final(sched).tasks@[i]).id
                    == old(sched).tasks@[i].id && final(sched).tasks@[i].proc == old(sched).tasks@[i].proc,
            final(self).waiters@.len() == 0,
            final(sched).current_task == old(sched).current_task,
            final(sched).task_queue@ == old(sched).task_queue@ + old(self).waiters@,
            forall|i: int|
                0 <= i < old(self).waiters@.len() ==> id_in_state(
                    final(sched).tasks@,
                    #[trigger] old(self).waiters@[i],
                    TaskState::Ready,
                ),
    {
        wake_all(&self.waiters, sched);
        self.waiters.clear();
    }
}

/// Mutual exclusion: of two tasks that each attempt `lock` in turn from a
/// shared initial state, at most one observes the bit pass from clear to
/// set, and the second attempt never succeeds: exactly one task proceeds
/// past `lock`.
pub proof fn lemma_mutex_mutual_exclusion(locked0: bool, r1: bool, locked1: bool, r2: bool)
    requires
        r1 == !locked0,
        locked1,
        r2 == !locked1,
    ensures
        !(r1 && r2),
        !r2,
{
}

} // verus!

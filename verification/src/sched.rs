//! Tasks and the run-queue scheduler.
//!
//! One CPU, preemptive round robin. A task is `Ready` (waiting in the FIFO
//! run queue), `Running` (the single task the current-task slot names), or
//! `Blocked` (waiting for an explicit wake). The timer decrements the
//! running task's slice; at zero the task goes to the tail and the head of
//! the queue is dispatched with a fresh slice.

use vstd::prelude::*;

verus! {

/// Identity of a task; never reused within a run.
#[derive(Clone, Copy, Debug, PartialEq, Eq, Structural)]
pub struct TaskId(pub usize);

/// Identity of a process; never reused within a run.
#[derive(Clone, Copy, Debug, PartialEq, Eq, Structural)]
pub struct ProcId(pub usize);

/// The three run states of the scheduler's state machine.
#[derive(Clone, Copy, Debug, PartialEq, Eq, Structural)]
pub enum TaskState {
    Ready,
    Running,
    Blocked,
}

/// The scheduler-private part of a task.
#[derive(Clone, Copy, Debug, PartialEq, Eq, Structural)]
pub struct SchedulerState {
    pub run_state: TaskState,
    pub time_slice_units: usize,
}

impl SchedulerState {
    /// A task starts ready, with its slice granted at first dispatch.
    pub fn new() -> (r: SchedulerState)
        ensures
            r.run_state == TaskState::Ready,
            r.time_slice_units == 0,
    {
        SchedulerState { run_state: TaskState::Ready, time_slice_units: 0 }
    }
}

/// The slice a task receives when dispatched.
pub const TIME_SLICE_UNITS: usize = 100;

/// One task: identity, owning process, saved architectural context (held
/// abstractly as the value the context-switch code would save), and the
/// scheduler's private state.
#[derive(Clone, Copy, Debug, PartialEq, Eq, Structural)]
pub struct Task {
    pub id: TaskId,
    pub proc: ProcId,
    pub context: usize,
    pub sched: SchedulerState,
}

/// The run-queue scheduler: the task registry, the single current-task
/// slot, and the FIFO queue of ready tasks.
pub struct Scheduler {
    pub tasks: Vec<Task>,
    pub current_task: Option<TaskId>,
    pub task_queue: Vec<TaskId>,
}

/// `id` names an entry of the registry.
pub open spec fn has_id(tasks: Seq<Task>, id: TaskId) -> bool {
    exists|i: int| 0 <= i < tasks.len() && tasks[i].id == id
}

/// `id` names an entry of the registry that is in the given state.
pub open spec fn id_in_state(tasks: Seq<Task>, id: TaskId, st: TaskState) -> bool {
    exists|i: int| 0 <= i < tasks.len() && tasks[i].id == id && tasks[i].sched.run_state == st
}

impl Scheduler {
    pub open spec fn spec_has_task(self, id: TaskId) -> bool {
        has_id(self.tasks@, id)
    }

    /// The task the next dispatch will run: the head of the queue.
    pub open spec fn spec_next_dispatch(self) -> Option<TaskId> {
        if self.task_queue@.len() > 0 {
            Some(self.task_queue@[0])
        } else {
            None
        }
    }

    /// Registry ids are unique; exactly the `Ready` tasks sit in the
    /// queue, each once; the current slot names a registered task that is
    /// `Running`, and only that task is `Running`.
    pub open spec fn wf(self) -> bool {
        &&& forall|i: int, j: int|
            0 <= i < self.tasks@.len() && 0 <= j < self.tasks@.len() && i != j ==> (
            #[trigger] self.tasks@[i]).id != (#[trigger] self.tasks@[j]).id
        &&& forall|i: int, j: int|
            0 <= i < self.task_queue@.len() && 0 <= j < self.task_queue@.len() && i != j ==> (
            #[trigger] self.task_queue@[i]) != (#[trigger] self.task_queue@[j])
        &&& forall|i: int|
            0 <= i < self.task_queue@.len() ==> id_in_state(
                self.tasks@,
                #[trigger] self.task_queue@[i],
                TaskState::Ready,
            )
        &&& forall|i: int|
            0 <= i < self.tasks@.len() && (#[trigger] self.tasks@[i]).sched.run_state
                == TaskState::Ready ==> self.task_queue@.contains(self.tasks@[i].id)
        &&& match self.current_task {
            Some(id) => id_in_state(self.tasks@, id, TaskState::Running),
            None => true,
        }
        &&& forall|i: int|
            0 <= i < self.tasks@.len() && (#[trigger] self.tasks@[i]).sched.run_state
                == TaskState::Running ==> self.current_task == Some(self.tasks@[i].id)
    }

    /// An empty scheduler: no tasks, nothing current, empty queue.
    pub fn new() -> (r: Scheduler)
        ensures
            r.wf(),
            r.tasks@.len() == 0,
            r.current_task is None,
            r.task_queue@.len() == 0,
    {
        Scheduler { tasks: Vec::new(), current_task: None, task_queue: Vec::new() }
    }

    /// Update one task's scheduler state, touching nothing else.
    fn set_state(&mut self, i: usize, st: TaskState, slice: usize)
        requires
            i < old(self).tasks@.len(),
        ensures
            final(self).tasks@ == old(self).tasks@.update(
                i as int,
                Task {
                    id: old(self).tasks@[i as int].id,
                    proc: old(self).tasks@[i as int].proc,
                    context: old(self).tasks@[i as int].context,
                    sched: SchedulerState { run_state: st, time_slice_units: slice },
                },
            ),
            final(self).current_task == old(self).current_task,
            final(self).task_queue == old(self).task_queue,
    {
        let t = self.tasks[i];
        let updated = Task {
            id: t.id,
            proc: t.proc,
            context: t.context,
            sched: SchedulerState { run_state: st, time_slice_units: slice },
        };
        self.tasks.set(i, updated);
    }

    /// Find a task's registry index.
    fn find(&self, id: TaskId) -> (r: Option<usize>)
        ensures
            match r {
                Some(i) => i < self.tasks@.len() && self.tasks@[i as int].id == id
                    && self.spec_has_task(id),
                None => !self.spec_has_task(id),
            },
    {
        let n = self.tasks.len();
        let mut i: usize = 0;
        while i < n
            invariant
                0 <= i <= n,
                n == self.tasks@.len(),
                forall|k: int| 0 <= k < i ==> (#[trigger] self.tasks@[k]).id != id,
            decreases n - i,
        {
            if self.tasks[i].id == id {
                return Some(i);
            }
            i = i + 1;
        }
        None
    }

    /// Insert a new task; a ready task goes to the tail of the run queue.
    #[verifier::rlimit(100)]
    pub fn register_new_task(&mut self, task: Task)
        requires
            old(self).wf(),
            !old(self).spec_has_task(task.id),
            task.sched.run_state != TaskState::Running,
        ensures
            final(self).wf(),
            final(self).tasks@ == old(self).tasks@.push(task),
            final(self).current_task == old(self).current_task,
            final(self).spec_has_task(task.id),
            task.sched.run_state == TaskState::Ready ==> final(self).task_queue@ == old(self).task_queue@.push(task.id),
            task.sched.run_state != TaskState::Ready ==> final(self).task_queue@ == old(self).task_queue@,
    {
        let ghost s0 = *self;
        let ready = matches!(task.sched.run_state, TaskState::Ready);
        let id = task.id;
        self.tasks.push(task);
        if ready {
            self.task_queue.push(id);
        }
        proof {
            let s1 = *self;
            let n = s0.tasks@.len() as int;
            assert(s1.tasks@[n] == task);
            assert forall|qi: int| 0 <= qi < s1.task_queue@.len() implies id_in_state(
                s1.tasks@,
                #[trigger] s1.task_queue@[qi],
                TaskState::Ready,
            ) by {
                if qi < s0.task_queue@.len() {
                    let ti = choose|ti: int|
                        0 <= ti < s0.tasks@.len() && s0.tasks@[ti].id == s0.task_queue@[qi] && s0
                            .tasks@[ti].sched.run_state == TaskState::Ready;
                    assert(s1.tasks@[ti].id == s1.task_queue@[qi] && s1.tasks@[ti].sched.run_state
                        == TaskState::Ready);
                } else {
                    assert(s1.tasks@[n].id == s1.task_queue@[qi] && s1.tasks@[n].sched.run_state
                        == TaskState::Ready);
                }
            }
            assert forall|qi: int, qj: int|
                0 <= qi < s1.task_queue@.len() && 0 <= qj < s1.task_queue@.len() && qi
                    != qj implies (#[trigger] s1.task_queue@[qi]) != (
            #[trigger] s1.task_queue@[qj]) by {
                if qi < s0.task_queue@.len() && qj >= s0.task_queue@.len() {
                    assert(id_in_state(s0.tasks@, s0.task_queue@[qi], TaskState::Ready));
                    assert(has_id(s0.tasks@, s0.task_queue@[qi]));
                } else if qj < s0.task_queue@.len() && qi >= s0.task_queue@.len() {
                    assert(id_in_state(s0.tasks@, s0.task_queue@[qj], TaskState::Ready));
                    assert(has_id(s0.tasks@, s0.task_queue@[qj]));
                }
            }
            assert forall|i: int|
                0 <= i < s1.tasks@.len() && (#[trigger] s1.tasks@[i]).sched.run_state
                    == TaskState::Ready implies s1.task_queue@.contains(s1.tasks@[i].id) by {
                if i < n {
                    let qi = choose|qi: int|
                        0 <= qi < s0.task_queue@.len() && s0.task_queue@[qi] == s0.tasks@[i].id;
                    assert(s1.task_queue@[qi] == s1.tasks@[i].id);
                } else {
                    assert(s1.task_queue@[s0.task_queue@.len() as int] == task.id);
                }
            }
            match s1.current_task {
                Some(cid) => {
                    let ci = choose|ci: int|
                        0 <= ci < s0.tasks@.len() && s0.tasks@[ci].id == cid && s0
                            .tasks@[ci].sched.run_state == TaskState::Running;
                    assert(s1.tasks@[ci].id == cid && s1.tasks@[ci].sched.run_state
                        == TaskState::Running);
                },
                None => {},
            }
        }
    }

    /// Look a task up by id.
    pub fn get_task_by_id(&self, id: TaskId) -> (r: Option<Task>)
        ensures
            match r {
                Some(t) => self.spec_has_task(id) && t.id == id && exists|i: int|
                    0 <= i < self.tasks@.len() && self.tasks@[i] == t,
                None => !self.spec_has_task(id),
            },
    {
        match self.find(id) {
            Some(i) => Some(self.tasks[i]),
            None => None,
        }
    }

    /// The task the CPU is running, if any.
    pub fn get_current_task_id(&self) -> (r: Option<TaskId>)
        ensures
            r == self.current_task,
    {
        self.current_task
    }

    /// The running task's registry entry, if any.
    pub fn get_current_task(&self) -> (r: Option<Task>)
        requires
            self.wf(),
        ensures
            match r {
                Some(t) => self.current_task == Some(t.id) && t.sched.run_state
                    == TaskState::Running && exists|i: int|
                    0 <= i < self.tasks@.len() && self.tasks@[i] == t,
                None => self.current_task is None,
            },
    {
        match self.current_task {
            Some(id) => {
                match self.get_task_by_id(id) {
                    Some(t) => {
                        proof {
                            let i = choose|i: int|
                                0 <= i < self.tasks@.len() && self.tasks@[i] == t;
                            let ci = choose|ci: int|
                                0 <= ci < self.tasks@.len() && self.tasks@[ci].id == id && self
                                    .tasks@[ci].sched.run_state == TaskState::Running;
                            if ci != i {
                                assert(self.tasks@[ci].id != self.tasks@[i].id);
                            }
                        }
                        Some(t)
                    },
                    None => None,
                }
            },
            None => None,
        }
    }

    /// Wake a blocked task: it becomes ready at the tail of the queue.
    /// Waking a task that is already ready or running changes nothing.
    #[verifier::rlimit(100)]
    pub fn wake_up(&mut self, id: TaskId)
        requires
            old(self).wf(),
        ensures
            final(self).wf(),
            final(self).current_task == old(self).current_task,
            final(self).tasks@.len() == old(self).tasks@.len(),
            forall|i: int|
                0 <= i < old(self).tasks@.len() ==> (#[trigger] final(self).tasks@[i]).id == old(self).tasks@[i].id && final(self).tasks@[i].proc == old(self).tasks@[i].proc,
            if id_in_state(old(self).tasks@, id, TaskState::Blocked) {
                &&& final(self).task_queue@ == old(self).task_queue@.push(id)
                &&& id_in_state(final(self).tasks@, id, TaskState::Ready)
                &&& exists|i: int|
                    {
                        &&& 0 <= i < old(self).tasks@.len()
                        &&& old(self).tasks@[i].id == id
                        &&& final(self).tasks@ == old(self).tasks@.update(
                            i,
                            Task {
                                id,
                                proc: old(self).tasks@[i].proc,
                                context: old(self).tasks@[i].context,
                                sched: SchedulerState {
                                    run_state: TaskState::Ready,
                                    time_slice_units: old(self).tasks@[i].sched.time_slice_units,
                                },
                            },
                        )
                    }
            } else {
                final(self).tasks@ == old(self).tasks@ && final(self).task_queue@ == old(self).task_queue@
            },
    {
        let ghost s0 = *self;
        match self.find(id) {
            None => {
                proof {
                    assert forall|j: int|
                        0 <= j < s0.tasks@.len() implies (#[trigger] s0.tasks@[j]).id != id by {}
                    assert(!id_in_state(s0.tasks@, id, TaskState::Blocked));
                }
            },
            Some(i) => {
                let st = self.tasks[i].sched.run_state;
                if matches!(st, TaskState::Blocked) {
                    let slice = self.tasks[i].sched.time_slice_units;
                    self.set_state(i, TaskState::Ready, slice);
                    self.task_queue.push(id);
                    proof {
                        self.lemma_wake_wf(s0, i as int, id);
                        assert(id_in_state(s0.tasks@, id, TaskState::Blocked)) by {
                            assert(s0.tasks@[i as int].id == id && s0.tasks@[i as int]
                                .sched.run_state == TaskState::Blocked);
                        }
                        assert(self.tasks@[i as int].id == id && self.tasks@[i as int]
                            .sched.run_state == TaskState::Ready);
                        assert((i as int) < s0.tasks@.len() && s0.tasks@[i as int].id == id
                            && self.tasks@ == s0.tasks@.update(
                            i as int,
                            Task {
                                id,
                                proc: s0.tasks@[i as int].proc,
                                context: s0.tasks@[i as int].context,
                                sched: SchedulerState {
                                    run_state: TaskState::Ready,
                                    time_slice_units: s0.tasks@[i as int].sched.time_slice_units,
                                },
                            },
                        ));
                    }
                } else {
                    proof {
                        assert forall|j: int|
                            0 <= j < s0.tasks@.len() && s0.tasks@[j].id
                                == id implies s0.tasks@[j].sched.run_state
                            != TaskState::Blocked by {
                            if j != i as int {
                                assert(s0.tasks@[j].id != s0.tasks@[i as int].id);
                            }
                        }
                    }
                }
            },
        }
    }

    /// The well-formedness argument for `wake_up`'s mutating case.
    #[verifier::rlimit(100)]
    proof fn lemma_wake_wf(&self, s0: Scheduler, i: int, id: TaskId)
        requires
            s0.wf(),
            0 <= i < s0.tasks@.len(),
            s0.tasks@[i].id == id,
            s0.tasks@[i].sched.run_state == TaskState::Blocked,
            self.tasks@ == s0.tasks@.update(
                i,
                Task {
                    id,
                    proc: s0.tasks@[i].proc,
                    context: s0.tasks@[i].context,
                    sched: SchedulerState {
                        run_state: TaskState::Ready,
                        time_slice_units: s0.tasks@[i].sched.time_slice_units,
                    },
                },
            ),
            self.task_queue@ == s0.task_queue@.push(id),
            self.current_task == s0.current_task,
        ensures
            self.wf(),
    {
        let s1 = *self;
        assert forall|qi: int| 0 <= qi < s1.task_queue@.len() implies id_in_state(
            s1.tasks@,
            #[trigger] s1.task_queue@[qi],
            TaskState::Ready,
        ) by {
            if qi < s0.task_queue@.len() {
                let ti = choose|ti: int|
                    0 <= ti < s0.tasks@.len() && s0.tasks@[ti].id == s0.task_queue@[qi] && s0
                        .tasks@[ti].sched.run_state == TaskState::Ready;
                assert(ti != i);
                assert(s1.tasks@[ti].id == s1.task_queue@[qi] && s1.tasks@[ti].sched.run_state
                    == TaskState::Ready);
            } else {
                assert(s1.tasks@[i].id == id && s1.tasks@[i].sched.run_state == TaskState::Ready);
            }
        }
        assert forall|qi: int, qj: int|
            0 <= qi < s1.task_queue@.len() && 0 <= qj < s1.task_queue@.len() && qi != qj implies (
        #[trigger] s1.task_queue@[qi]) != (#[trigger] s1.task_queue@[qj]) by {
            if qi < s0.task_queue@.len() && qj >= s0.task_queue@.len() {
                let ti = choose|ti: int|
                    0 <= ti < s0.tasks@.len() && s0.tasks@[ti].id == s0.task_queue@[qi] && s0
                        .tasks@[ti].sched.run_state == TaskState::Ready;
                assert(ti != i);
                assert(s0.tasks@[ti].id != s0.tasks@[i].id);
            } else if qj < s0.task_queue@.len() && qi >= s0.task_queue@.len() {
                let tj = choose|tj: int|
                    0 <= tj < s0.tasks@.len() && s0.tasks@[tj].id == s0.task_queue@[qj] && s0
                        .tasks@[tj].sched.run_state == TaskState::Ready;
                assert(tj != i);
                assert(s0.tasks@[tj].id != s0.tasks@[i].id);
            }
        }
        assert forall|j: int|
            0 <= j < s1.tasks@.len() && (#[trigger] s1.tasks@[j]).sched.run_state
                == TaskState::Ready implies s1.task_queue@.contains(s1.tasks@[j].id) by {
            if j == i {
                assert(s1.task_queue@[s0.task_queue@.len() as int] == id);
            } else {
                assert(s0.tasks@[j].sched.run_state == TaskState::Ready);
                let qi = choose|qi: int|
                    0 <= qi < s0.task_queue@.len() && s0.task_queue@[qi] == s0.tasks@[j].id;
                assert(s1.task_queue@[qi] == s1.tasks@[j].id);
            }
        }
        match s1.current_task {
            Some(cid) => {
                let ci = choose|ci: int|
                    0 <= ci < s0.tasks@.len() && s0.tasks@[ci].id == cid && s0
                        .tasks@[ci].sched.run_state == TaskState::Running;
                assert(ci != i);
                assert(s1.tasks@[ci].id == cid && s1.tasks@[ci].sched.run_state
                    == TaskState::Running);
            },
            None => {},
        }
    }

    /// Take the current task off the CPU: mark it `st` (ready tasks go to
    /// the queue tail), and empty the current slot.
    #[verifier::rlimit(100)]
    fn suspend_current(&mut self, st: TaskState) -> (prev: TaskId)
        requires
            old(self).wf(),
            old(self).current_task is Some,
            st == TaskState::Ready || st == TaskState::Blocked,
        ensures
            final(self).wf(),
            Some(prev) == old(self).current_task,
            final(self).current_task is None,
            id_in_state(final(self).tasks@, prev, st),
            final(self).tasks@.len() == old(self).tasks@.len(),
            forall|i: int|
                0 <= i < old(self).tasks@.len() ==> (#[trigger] final(self).tasks@[i]).id == old(self).tasks@[i].id && final(self).tasks@[i].proc == old(self).tasks@[i].proc,
            st == TaskState::Ready ==> final(self).task_queue@ == old(self).task_queue@.push(
                prev,
            ),
            st == TaskState::Blocked ==> final(self).task_queue@ == old(self).task_queue@,
            exists|i: int|
                {
                    &&& 0 <= i < old(self).tasks@.len()
                    &&& old(self).tasks@[i].id == prev
                    &&& final(self).tasks@ == old(self).tasks@.update(
                        i,
                        Task {
                            id: prev,
                            proc: old(self).tasks@[i].proc,
                            context: old(self).tasks@[i].context,
                            sched: SchedulerState {
                                run_state: st,
                                time_slice_units: old(self).tasks@[i].sched.time_slice_units,
                            },
                        },
                    )
                },
    {
        let ghost s0 = *self;
        let prev = match self.current_task {
            Some(id) => id,
            None => unreached(),
        };
        let i = match self.find(prev) {
            Some(i) => i,
            None => {
                proof {
                    let ci = choose|ci: int|
                        0 <= ci < s0.tasks@.len() && s0.tasks@[ci].id == prev && s0
                            .tasks@[ci].sched.run_state == TaskState::Running;
                }
                unreached()
            },
        };
        let slice = self.tasks[i].sched.time_slice_units;
        proof {
            let ci = choose|ci: int|
                0 <= ci < s0.tasks@.len() && s0.tasks@[ci].id == prev && s0
                    .tasks@[ci].sched.run_state == TaskState::Running;
            if ci != i as int {
                assert(s0.tasks@[ci].id != s0.tasks@[i as int].id);
            }
            assert(s0.tasks@[i as int].sched.run_state == TaskState::Running);
        }
        self.set_state(i, st, slice);
        self.current_task = None;
        let ready = matches!(st, TaskState::Ready);
        if ready {
            self.task_queue.push(prev);
        }
        proof {
            let s1 = *self;
            let ii = i as int;
            assert(s1.tasks@[ii].id == prev && s1.tasks@[ii].sched.run_state == st);
            assert forall|qi: int| 0 <= qi < s1.task_queue@.len() implies id_in_state(
                s1.tasks@,
                #[trigger] s1.task_queue@[qi],
                TaskState::Ready,
            ) by {
                if qi < s0.task_queue@.len() {
                    let ti = choose|ti: int|
                        0 <= ti < s0.tasks@.len() && s0.tasks@[ti].id == s0.task_queue@[qi] && s0
                            .tasks@[ti].sched.run_state == TaskState::Ready;
                    assert(ti != ii);
                    assert(s1.tasks@[ti].id == s1.task_queue@[qi] && s1.tasks@[ti].sched.run_state
                        == TaskState::Ready);
                } else {
                    assert(s1.task_queue@[qi] == prev && st == TaskState::Ready);
                }
            }
            assert forall|qi: int, qj: int|
                0 <= qi < s1.task_queue@.len() && 0 <= qj < s1.task_queue@.len() && qi
                    != qj implies (#[trigger] s1.task_queue@[qi]) != (
            #[trigger] s1.task_queue@[qj]) by {
                if qi < s0.task_queue@.len() && qj >= s0.task_queue@.len() {
                    let ti = choose|ti: int|
                        0 <= ti < s0.tasks@.len() && s0.tasks@[ti].id == s0.task_queue@[qi] && s0
                            .tasks@[ti].sched.run_state == TaskState::Ready;
                    assert(ti != ii);
                    assert(s0.tasks@[ti].id != s0.tasks@[ii].id);
                } else if qj < s0.task_queue@.len() && qi >= s0.task_queue@.len() {
                    let tj = choose|tj: int|
                        0 <= tj < s0.tasks@.len() && s0.tasks@[tj].id == s0.task_queue@[qj] && s0
                            .tasks@[tj].sched.run_state == TaskState::Ready;
                    assert(tj != ii);
                    assert(s0.tasks@[tj].id != s0.tasks@[ii].id);
                }
            }
            assert forall|j: int|
                0 <= j < s1.tasks@.len() && (#[trigger] s1.tasks@[j]).sched.run_state
                    == TaskState::Ready implies s1.task_queue@.contains(s1.tasks@[j].id) by {
                if j == ii {
                    assert(st == TaskState::Ready);
                    assert(s1.task_queue@[s0.task_queue@.len() as int] == prev);
                } else {
                    assert(s0.tasks@[j].sched.run_state == TaskState::Ready);
                    let qi = choose|qi: int|
                        0 <= qi < s0.task_queue@.len() && s0.task_queue@[qi] == s0.tasks@[j].id;
                    assert(s1.task_queue@[qi] == s1.tasks@[j].id);
                }
            }
            assert forall|j: int|
                0 <= j < s1.tasks@.len() && (#[trigger] s1.tasks@[j]).sched.run_state
                    == TaskState::Running implies s1.current_task == Some(s1.tasks@[j].id) by {
                if j != ii {
                    assert(s0.tasks@[j].sched.run_state == TaskState::Running);
                    assert(s0.current_task == Some(s0.tasks@[j].id));
                    assert(s0.tasks@[j].id != s0.tasks@[ii].id);
                    assert(false);
                }
            }
        }
        prev
    }

    /// Pop the head of the run queue and put it on the CPU with a fresh
    /// time slice. A task must be ready: an idle task always exists.
    #[verifier::rlimit(100)]
    fn dispatch_head(&mut self) -> (next: TaskId)
        requires
            old(self).wf(),
            old(self).current_task is None,
            old(self).task_queue@.len() > 0,
        ensures
            final(self).wf(),
            Some(next) == old(self).spec_next_dispatch(),
            final(self).task_queue@ == old(self).task_queue@.drop_first(),
            final(self).current_task == Some(next),
            id_in_state(final(self).tasks@, next, TaskState::Running),
            final(self).tasks@.len() == old(self).tasks@.len(),
            forall|i: int|
                0 <= i < old(self).tasks@.len() ==> (#[trigger] final(self).tasks@[i]).id == old(self).tasks@[i].id && final(self).tasks@[i].proc == old(self).tasks@[i].proc,
            exists|i: int|
                {
                    &&& 0 <= i < old(self).tasks@.len()
                    &&& old(self).tasks@[i].id == next
                    &&& final(self).tasks@ == old(self).tasks@.update(
                        i,
                        Task {
                            id: next,
                            proc: old(self).tasks@[i].proc,
                            context: old(self).tasks@[i].context,
                            sched: SchedulerState {
                                run_state: TaskState::Running,
                                time_slice_units: TIME_SLICE_UNITS,
                            },
                        },
                    )
                },
    {
        let ghost s0 = *self;
        let next = self.task_queue.remove(0);
        proof {
            assert(s0.task_queue@.contains(s0.task_queue@[0]));
            assert(id_in_state(s0.tasks@, next, TaskState::Ready));
        }
        let i = match self.find(next) {
            Some(i) => i,
            None => {
                proof {
                    let ti = choose|ti: int|
                        0 <= ti < s0.tasks@.len() && s0.tasks@[ti].id == next && s0
                            .tasks@[ti].sched.run_state == TaskState::Ready;
                }
                unreached()
            },
        };
        proof {
            let ti = choose|ti: int|
                0 <= ti < s0.tasks@.len() && s0.tasks@[ti].id == next && s0
                    .tasks@[ti].sched.run_state == TaskState::Ready;
            if ti != i as int {
                assert(s0.tasks@[ti].id != s0.tasks@[i as int].id);
            }
        }
        self.set_state(i, TaskState::Running, TIME_SLICE_UNITS);
        self.current_task = Some(next);
        proof {
            let s1 = *self;
            let ii = i as int;
            assert(s1.task_queue@ =~= s0.task_queue@.drop_first());
            assert(s1.tasks@[ii].id == next && s1.tasks@[ii].sched.run_state
                == TaskState::Running);
            assert forall|qi: int| 0 <= qi < s1.task_queue@.len() implies id_in_state(
                s1.tasks@,
                #[trigger] s1.task_queue@[qi],
                TaskState::Ready,
            ) by {
                assert(s1.task_queue@[qi] == s0.task_queue@[qi + 1]);
                let ti = choose|ti: int|
                    0 <= ti < s0.tasks@.len() && s0.tasks@[ti].id == s0.task_queue@[qi + 1] && s0
                        .tasks@[ti].sched.run_state == TaskState::Ready;
                assert(s0.task_queue@[qi + 1] != s0.task_queue@[0]);
                assert(ti != ii);
                assert(s1.tasks@[ti].id == s1.task_queue@[qi] && s1.tasks@[ti].sched.run_state
                    == TaskState::Ready);
            }
            assert forall|j: int|
                0 <= j < s1.tasks@.len() && (#[trigger] s1.tasks@[j]).sched.run_state
                    == TaskState::Ready implies s1.task_queue@.contains(s1.tasks@[j].id) by {
                assert(j != ii);
                assert(s0.tasks@[j].sched.run_state == TaskState::Ready);
                let qi = choose|qi: int|
                    0 <= qi < s0.task_queue@.len() && s0.task_queue@[qi] == s0.tasks@[j].id;
                if qi == 0 {
                    assert(s0.tasks@[j].id == next);
                    assert(s0.tasks@[ii].id == next);
                    assert(false);
                } else {
                    assert(s1.task_queue@[qi - 1] == s1.tasks@[j].id);
                }
            }
            assert forall|j: int|
                0 <= j < s1.tasks@.len() && (#[trigger] s1.tasks@[j]).sched.run_state
                    == TaskState::Running implies s1.current_task == Some(s1.tasks@[j].id) by {
                if j != ii {
                    assert(s0.tasks@[j].sched.run_state == TaskState::Running);
                    assert(s0.current_task == Some(s0.tasks@[j].id));
                    assert(false);
                }
            }
        }
        next
    }

    /// Mark the current task blocked (it leaves the CPU without joining
    /// the queue) and switch to the head of the run queue.
    pub fn freeze_current_task(&mut self) -> (next: TaskId)
        requires
            old(self).wf(),
            old(self).current_task is Some,
            old(self).task_queue@.len() > 0,
        ensures
            final(self).wf(),
            Some(next) == old(self).spec_next_dispatch(),
            final(self).task_queue@ == old(self).task_queue@.drop_first(),
            final(self).current_task == Some(next),
            id_in_state(final(self).tasks@, next, TaskState::Running),
            next != old(self).current_task->Some_0 ==> id_in_state(
                final(self).tasks@,
                old(self).current_task->Some_0,
                TaskState::Blocked,
            ),
            final(self).tasks@.len() == old(self).tasks@.len(),
            forall|i: int|
                0 <= i < old(self).tasks@.len() ==> (#[trigger] final(self).tasks@[i]).id == old(self).tasks@[i].id && final(self).tasks@[i].proc == old(self).tasks@[i].proc,

    {
        let ghost s0 = *self;
        let prev = self.suspend_current(TaskState::Blocked);
        let ghost mid = *self;
        let next = self.dispatch_head();
        proof {
            if next != prev {
                let pi = choose|pi: int|
                    0 <= pi < mid.tasks@.len() && mid.tasks@[pi].id == prev && mid
                        .tasks@[pi].sched.run_state == TaskState::Blocked;
                let ni = choose|ni: int|
                    {
                        &&& 0 <= ni < mid.tasks@.len()
                        &&& mid.tasks@[ni].id == next
                        &&& self.tasks@ == mid.tasks@.update(
                            ni,
                            Task {
                                id: next,
                                proc: mid.tasks@[ni].proc,
                                context: mid.tasks@[ni].context,
                                sched: SchedulerState {
                                    run_state: TaskState::Running,
                                    time_slice_units: TIME_SLICE_UNITS,
                                },
                            },
                        )
                    };
                assert(pi != ni);
                assert(self.tasks@[pi].id == prev && self.tasks@[pi].sched.run_state
                    == TaskState::Blocked);
            }
        }
        next
    }

    /// Move the current task to the tail of the run queue, ready again.
    /// The current slot empties until the next dispatch.
    pub fn enqueue_current_task_as_ready(&mut self) -> (prev: TaskId)
        requires
            old(self).wf(),
            old(self).current_task is Some,
        ensures
            final(self).wf(),
            Some(prev) == old(self).current_task,
            final(self).current_task is None,
            id_in_state(final(self).tasks@, prev, TaskState::Ready),
            final(self).task_queue@ == old(self).task_queue@.push(prev),
            final(self).tasks@.len() == old(self).tasks@.len(),
            forall|i: int|
                0 <= i < old(self).tasks@.len() ==> (#[trigger] final(self).tasks@[i]).id == old(self).tasks@[i].id && final(self).tasks@[i].proc == old(self).tasks@[i].proc,
    {
        self.suspend_current(TaskState::Ready)
    }

    /// Resume the current task if one is on the CPU, else dispatch the
    /// head of the run queue.
    pub fn schedule(&mut self) -> (running: TaskId)
        requires
            old(self).wf(),
            old(self).current_task is Some || old(self).task_queue@.len() > 0,
        ensures
            final(self).wf(),
            final(self).tasks@.len() == old(self).tasks@.len(),
            forall|i: int|
                0 <= i < old(self).tasks@.len() ==> (#[trigger] final(self).tasks@[i]).id == old(self).tasks@[i].id && final(self).tasks@[i].proc == old(self).tasks@[i].proc,
            match old(self).current_task {
                Some(id) => running == id && *final(self) == *old(self),
                None => {
                    &&& Some(running) == old(self).spec_next_dispatch()
                    &&& final(self).task_queue@ == old(self).task_queue@.drop_first()
                    &&& final(self).current_task == Some(running)
                    &&& id_in_state(final(self).tasks@, running, TaskState::Running)
                    &&& exists|i: int|
                        0 <= i < final(self).tasks@.len() && (#[trigger] final(self).tasks@[i]).id == running && final(self).tasks@[i].sched == (
                        SchedulerState {
                            run_state: TaskState::Running,
                            time_slice_units: TIME_SLICE_UNITS,
                        })
                },
            },
    {
        match self.current_task {
            Some(id) => id,
            None => self.dispatch_head(),
        }
    }

    /// One timer interrupt: charge the current task one slice unit; when
    /// the slice is spent the task goes to the tail and the head runs
    /// next with a fresh slice.
    #[verifier::rlimit(100)]
    pub fn timer_tick(&mut self) -> (running: TaskId)
        requires
            old(self).wf(),
            old(self).current_task is Some,
            forall|i: int|
                0 <= i < old(self).tasks@.len() && (#[trigger] old(self).tasks@[i]).id == old(self).current_task->Some_0 ==> old(self).tasks@[i].sched.time_slice_units > 0,
        ensures
            final(self).wf(),
            final(self).tasks@.len() == old(self).tasks@.len(),
            forall|i: int|
                0 <= i < old(self).tasks@.len() ==> (#[trigger] final(self).tasks@[i]).id == old(self).tasks@[i].id && final(self).tasks@[i].proc == old(self).tasks@[i].proc,
            final(self).current_task == Some(running),
            forall|i: int|
                0 <= i < old(self).tasks@.len() && (#[trigger] old(self).tasks@[i]).id == old(self).current_task->Some_0 && old(self).tasks@[i].sched.time_slice_units > 1 ==> {
                    &&& running == old(self).current_task->Some_0
                    &&& final(self).task_queue@ == old(self).task_queue@
                    &&& final(self).tasks@ == old(self).tasks@.update(
                        i,
                        Task {
                            id: old(self).tasks@[i].id,
                            proc: old(self).tasks@[i].proc,
                            context: old(self).tasks@[i].context,
                            sched: SchedulerState {
                                run_state: TaskState::Running,
                                time_slice_units: (old(self).tasks@[i].sched.time_slice_units - 1) as usize,
                            },
                        },
                    )
                },
            forall|i: int|
                0 <= i < old(self).tasks@.len() && (#[trigger] old(self).tasks@[i]).id == old(self).current_task->Some_0 && old(self).tasks@[i].sched.time_slice_units == 1 ==> {
                    &&& Some(running) == (if old(self).task_queue@.len() > 0 {
                        Some(old(self).task_queue@[0])
                    } else {
                        old(self).current_task
                    })
                    &&& final(self).task_queue@ == old(self).task_queue@.push(
                        old(self).current_task->Some_0,
                    ).drop_first()
                    &&& (exists|j: int|
                        0 <= j < final(self).tasks@.len() && (#[trigger] final(self).tasks@[j]).id == running && final(self).tasks@[j].sched == (
                        SchedulerState {
                            run_state: TaskState::Running,
                            time_slice_units: TIME_SLICE_UNITS,
                        }))
                    &&& (running != old(self).current_task->Some_0 ==> id_in_state(
                        final(self).tasks@,
                        old(self).current_task->Some_0,
                        TaskState::Ready,
                    ))
                },
    {
        let ghost s0 = *self;
        let id = match self.current_task {
            Some(id) => id,
            None => unreached(),
        };
        let i = match self.find(id) {
            Some(i) => i,
            None => {
                proof {
                    let ci = choose|ci: int|
                        0 <= ci < s0.tasks@.len() && s0.tasks@[ci].id == id && s0
                            .tasks@[ci].sched.run_state == TaskState::Running;
                }
                unreached()
            },
        };
        proof {
            let ci = choose|ci: int|
                0 <= ci < s0.tasks@.len() && s0.tasks@[ci].id == id && s0
                    .tasks@[ci].sched.run_state == TaskState::Running;
            if ci != i as int {
                assert(s0.tasks@[ci].id != s0.tasks@[i as int].id);
            }
        }
        let slice = self.tasks[i].sched.time_slice_units;
        if slice > 1 {
            self.set_state(i, TaskState::Running, slice - 1);
            proof {
                let s1 = *self;
                let ii = i as int;
                assert forall|qi: int| 0 <= qi < s1.task_queue@.len() implies id_in_state(
                    s1.tasks@,
                    #[trigger] s1.task_queue@[qi],
                    TaskState::Ready,
                ) by {
                    let ti = choose|ti: int|
                        0 <= ti < s0.tasks@.len() && s0.tasks@[ti].id == s0.task_queue@[qi] && s0
                            .tasks@[ti].sched.run_state == TaskState::Ready;
                    assert(ti != ii);
                    assert(s1.tasks@[ti].id == s1.task_queue@[qi] && s1.tasks@[ti].sched.run_state
                        == TaskState::Ready);
                }
                assert forall|j: int|
                    0 <= j < s1.tasks@.len() && (#[trigger] s1.tasks@[j]).sched.run_state
                        == TaskState::Ready implies s1.task_queue@.contains(s1.tasks@[j].id) by {
                    assert(s0.tasks@[j].sched.run_state == TaskState::Ready);
                    let qi = choose|qi: int|
                        0 <= qi < s0.task_queue@.len() && s0.task_queue@[qi] == s0.tasks@[j].id;
                    assert(s1.task_queue@[qi] == s1.tasks@[j].id);
                }
                assert(id_in_state(s1.tasks@, id, TaskState::Running)) by {
                    assert(s1.tasks@[ii].id == id && s1.tasks@[ii].sched.run_state
                        == TaskState::Running);
                }
                assert forall|j: int|
                    0 <= j < s1.tasks@.len() && (#[trigger] s1.tasks@[j]).sched.run_state
                        == TaskState::Running implies s1.current_task == Some(s1.tasks@[j].id) by {
                    if j != ii {
                        assert(s0.tasks@[j].sched.run_state == TaskState::Running);
                    }
                }
            }
            id
        } else {
            let prev = self.enqueue_current_task_as_ready();
            let ghost mid = *self;
            let r = self.dispatch_head();
            proof {
                if r != prev {
                    let pi = choose|pi: int|
                        0 <= pi < mid.tasks@.len() && mid.tasks@[pi].id == prev && mid
                            .tasks@[pi].sched.run_state == TaskState::Ready;
                    let ni = choose|ni: int|
                        {
                            &&& 0 <= ni < mid.tasks@.len()
                            &&& mid.tasks@[ni].id == r
                            &&& self.tasks@ == mid.tasks@.update(
                                ni,
                                Task {
                                    id: r,
                                    proc: mid.tasks@[ni].proc,
                                    context: mid.tasks@[ni].context,
                                    sched: SchedulerState {
                                        run_state: TaskState::Running,
                                        time_slice_units: TIME_SLICE_UNITS,
                                    },
                                },
                            )
                        };
                    assert(pi != ni);
                    assert(self.tasks@[pi].id == prev && self.tasks@[pi].sched.run_state
                        == TaskState::Ready);
                }
            }
            r
        }
    }

    /// Remove a task from the registry; it must not be waiting in the run
    /// queue. Removing the running task empties the current slot.
    #[verifier::rlimit(100)]
    pub fn remove_task(&mut self, id: TaskId)
        requires
            old(self).wf(),
            old(self).spec_has_task(id),
            !id_in_state(old(self).tasks@, id, TaskState::Ready),
        ensures
            final(self).wf(),
            !final(self).spec_has_task(id),
            final(self).tasks@.len() == old(self).tasks@.len() - 1,
            exists|ri: int|
                0 <= ri < old(self).tasks@.len() && old(self).tasks@[ri].id == id && final(self).tasks@ == old(self).tasks@.remove(ri),
            final(self).task_queue@ == old(self).task_queue@,
            old(self).current_task == Some(id) ==> final(self).current_task is None,
            old(self).current_task != Some(id) ==> final(self).current_task == old(self).current_task,
    {
        let ghost s0 = *self;
        let i = match self.find(id) {
            Some(i) => i,
            None => unreached(),
        };
        let clear = match self.current_task {
            Some(cid) => cid.0 == id.0,
            None => false,
        };
        if clear {
            self.current_task = None;
        }
        self.tasks.remove(i);
        proof {
            let s1 = *self;
            let ii = i as int;
            assert(s1.tasks@ == s0.tasks@.remove(ii));
            assert forall|j: int| 0 <= j < s1.tasks@.len() implies (#[trigger] s1.tasks@[j]).id
                != id by {
                if j < ii {
                    assert(s1.tasks@[j] == s0.tasks@[j]);
                    assert(s0.tasks@[j].id != s0.tasks@[ii].id);
                } else {
                    assert(s1.tasks@[j] == s0.tasks@[j + 1]);
                    assert(s0.tasks@[j + 1].id != s0.tasks@[ii].id);
                }
            }
            assert forall|qi: int| 0 <= qi < s1.task_queue@.len() implies id_in_state(
                s1.tasks@,
                #[trigger] s1.task_queue@[qi],
                TaskState::Ready,
            ) by {
                let ti = choose|ti: int|
                    0 <= ti < s0.tasks@.len() && s0.tasks@[ti].id == s0.task_queue@[qi] && s0
                        .tasks@[ti].sched.run_state == TaskState::Ready;
                assert(ti != ii);
                if ti < ii {
                    assert(s1.tasks@[ti] == s0.tasks@[ti]);
                } else {
                    assert(s1.tasks@[ti - 1] == s0.tasks@[ti]);
                }
            }
            assert forall|j: int|
                0 <= j < s1.tasks@.len() && (#[trigger] s1.tasks@[j]).sched.run_state
                    == TaskState::Ready implies s1.task_queue@.contains(s1.tasks@[j].id) by {
                if j < ii {
                    assert(s1.tasks@[j] == s0.tasks@[j]);
                    assert(s0.tasks@[j].sched.run_state == TaskState::Ready);
                    assert(s0.task_queue@.contains(s0.tasks@[j].id));
                } else {
                    assert(s1.tasks@[j] == s0.tasks@[j + 1]);
                    assert(s0.tasks@[j + 1].sched.run_state == TaskState::Ready);
                    assert(s0.task_queue@.contains(s0.tasks@[j + 1].id));
                }
            }
            match s1.current_task {
                Some(cid) => {
                    assert(s0.current_task == Some(cid) && cid != id);
                    let ci = choose|ci: int|
                        0 <= ci < s0.tasks@.len() && s0.tasks@[ci].id == cid && s0
                            .tasks@[ci].sched.run_state == TaskState::Running;
                    assert(ci != ii);
                    if ci < ii {
                        assert(s1.tasks@[ci] == s0.tasks@[ci]);
                    } else {
                        assert(s1.tasks@[ci - 1] == s0.tasks@[ci]);
                    }
                },
                None => {},
            }
            assert forall|j: int|
                0 <= j < s1.tasks@.len() && (#[trigger] s1.tasks@[j]).sched.run_state
                    == TaskState::Running implies s1.current_task == Some(s1.tasks@[j].id) by {
                if j < ii {
                    assert(s1.tasks@[j] == s0.tasks@[j]);
                    assert(s0.tasks@[j].sched.run_state == TaskState::Running);
                } else {
                    assert(s1.tasks@[j] == s0.tasks@[j + 1]);
                    assert(s0.tasks@[j + 1].sched.run_state == TaskState::Running);
                }
            }
        }
    }
}

/// Scheduler FIFO: with `a` then `b` at the head of the ready queue, the
/// next dispatch runs `a`, and the dispatch after that runs `b`, whether
/// `a` blocked in between (leaving the queue untouched) or yielded
/// (rejoining at the tail).
pub proof fn lemma_scheduler_fifo(s: Scheduler, s2: Scheduler, a: TaskId, b: TaskId)
    requires
        s.task_queue@.len() >= 2,
        s.task_queue@[0] == a,
        s.task_queue@[1] == b,
        s2.task_queue@ == s.task_queue@.drop_first() || s2.task_queue@ == s.task_queue@
            .drop_first().push(a),
    ensures
        s.spec_next_dispatch() == Some(a),
        s2.spec_next_dispatch() == Some(b),
{
    assert(s.task_queue@.drop_first()[0] == b);
    if s2.task_queue@ == s.task_queue@.drop_first().push(a) {
        assert(s2.task_queue@[0] == b);
    }
}

} // verus!

//! The user-side syscall surface.
//!
//! In the machine these stubs place the call id and up to five words in
//! the argument registers and trap; here the trap is a direct call into
//! the kernel's post-decode entry, with the same marshalling: missing
//! arguments ride as zero, and text crosses as a validated handle rather
//! than a raw pointer.

use vstd::prelude::*;

verus! {

use crate::kernel::{spec_exec_effect, spec_pm_effect, spec_pm_name, spec_sbrk_effect, Kernel};
use crate::sched::{id_in_state, TaskState};

/// The `i`-th argument word as the marshalling pads it: absent words ride
/// as zero.
pub open spec fn spec_arg(args: Seq<usize>, i: int) -> usize {
    if 0 <= i < args.len() {
        args[i]
    } else {
        0
    }
}

/// The stable syscall ids, in trap-number order.
#[derive(Clone, Copy, Debug, PartialEq, Eq, Structural)]
pub enum Syscall {
    Log,
    ModuleCall,
    Wait,
    Sbrk,
    Exec,
    Exit,
    Halt,
}

/// The trap number of a syscall.
pub open spec fn spec_syscall_id(s: Syscall) -> int {
    match s {
        Syscall::Log => 0,
        Syscall::ModuleCall => 1,
        Syscall::Wait => 2,
        Syscall::Sbrk => 3,
        Syscall::Exec => 4,
        Syscall::Exit => 5,
        Syscall::Halt => 6,
    }
}

/// The trap number as the trap takes it.
pub fn syscall_id(s: Syscall) -> (r: usize)
    ensures
        r == spec_syscall_id(s),
        r <= 6,
{
    match s {
        Syscall::Log => 0,
        Syscall::ModuleCall => 1,
        Syscall::Wait => 2,
        Syscall::Sbrk => 3,
        Syscall::Exec => 4,
        Syscall::Exit => 5,
        Syscall::Halt => 6,
    }
}

/// Decode a trap number back to a syscall; an unknown number is a caller
/// bug and is rejected rather than reinterpreted.
pub fn decode_syscall(id: usize) -> (r: Option<Syscall>)
    ensures
        match r {
            Some(s) => spec_syscall_id(s) == id,
            None => id > 6,
        },
{
    match id {
        0 => Some(Syscall::Log),
        1 => Some(Syscall::ModuleCall),
        2 => Some(Syscall::Wait),
        3 => Some(Syscall::Sbrk),
        4 => Some(Syscall::Exec),
        5 => Some(Syscall::Exit),
        6 => Some(Syscall::Halt),
        _ => None,
    }
}

/// Issue a syscall: up to five argument words, missing ones as zero, as
/// the register marshalling does.
pub fn syscall(kernel: &mut Kernel, call: Syscall, args: &Vec<usize>) -> (r: isize)
    requires
        old(kernel).wf(),
        args@.len() <= 5,
    ensures
        final(kernel).wf(),
        call == Syscall::Halt ==> final(kernel).halted == Some(spec_arg(args@, 0)) && r == 0,
        call == Syscall::Log && spec_arg(args@, 0) < old(kernel).user_strings@.len() ==> r == 0
            && final(kernel).klog@.len() == old(kernel).klog@.len() + 1 && final(kernel).klog@.last()@ == old(kernel).user_strings@[spec_arg(args@, 0) as int]@,
        call == Syscall::ModuleCall && spec_arg(args@, 0) < old(kernel).user_strings@.len()
            && old(kernel).user_strings@[spec_arg(args@, 0) as int]@ == spec_pm_name()
            ==> spec_pm_effect(
            *old(kernel),
            *final(kernel),
            spec_arg(args@, 1),
            spec_arg(args@, 2),
            spec_arg(args@, 3),
            r,
        ),
        call == Syscall::Wait && old(kernel).scheduler.current_task is Some && old(kernel).scheduler.task_queue@.len() > 0 ==> {
            &&& r == 0
            &&& final(kernel).scheduler.current_task == Some(
                old(kernel).scheduler.task_queue@[0],
            )
            &&& final(kernel).scheduler.task_queue@ == old(kernel).scheduler.task_queue@.drop_first()
        },
        call == Syscall::Sbrk && old(kernel).scheduler.current_task is Some ==> exists|ti: int|
            {
                &&& 0 <= ti < old(kernel).scheduler.tasks@.len()
                &&& (#[trigger] old(kernel).scheduler.tasks@[ti]).id == old(kernel).scheduler.current_task->Some_0
                &&& exists|ro: Option<(u64, u64)>|
                    {
                        &&& #[trigger] spec_sbrk_effect(
                            *old(kernel),
                            *final(kernel),
                            old(kernel).scheduler.tasks@[ti].proc,
                            spec_arg(args@, 0) as int / 0x1000,
                            ro,
                        )
                        &&& (ro matches Some(rg) ==> r == rg.0 as isize)
                        &&& (ro is None ==> r == -1)
                    }
            },
        call == Syscall::Exec && old(kernel).scheduler.current_task is Some ==> spec_exec_effect(
            *old(kernel),
            *final(kernel),
            spec_arg(args@, 0),
            r,
        ),
        call == Syscall::Exit && old(kernel).scheduler.current_task is Some ==> exists|ti: int|
            {
                &&& 0 <= ti < old(kernel).scheduler.tasks@.len()
                &&& (#[trigger] old(kernel).scheduler.tasks@[ti]).id == old(kernel).scheduler.current_task->Some_0
                &&& ((exists|pi: int|
                    0 <= pi < old(kernel).procs@.len() && (#[trigger] old(kernel).procs@[pi]).id
                        == old(kernel).scheduler.tasks@[ti].proc) ==> final(kernel).procs@.len() == old(kernel).procs@.len() - 1)
            },
{
    let a = if args.len() > 0 {
        args[0]
    } else {
        0
    };
    let b = if args.len() > 1 {
        args[1]
    } else {
        0
    };
    let c = if args.len() > 2 {
        args[2]
    } else {
        0
    };
    let d = if args.len() > 3 {
        args[3]
    } else {
        0
    };
    let e = if args.len() > 4 {
        args[4]
    } else {
        0
    };
    let r = kernel.handle_syscall(syscall_id(call), a, b, c, d, e);
    proof {
        if call == Syscall::Sbrk && old(kernel).scheduler.current_task is Some {
            let ti = choose|ti: int|
                {
                    &&& 0 <= ti < old(kernel).scheduler.tasks@.len()
                    &&& (#[trigger] old(kernel).scheduler.tasks@[ti]).id == old(kernel).scheduler.current_task->Some_0
                    &&& exists|ro: Option<(u64, u64)>|
                        {
                            &&& #[trigger] spec_sbrk_effect(
                                *old(kernel),
                                *kernel,
                                old(kernel).scheduler.tasks@[ti].proc,
                                a as int / 0x1000,
                                ro,
                            )
                            &&& (ro matches Some(rg) ==> r == rg.0 as isize)
                            &&& (ro is None ==> r == -1)
                        }
                };
            assert(a as int == spec_arg(args@, 0) as int);
        }
    }
    r
}

/// Write a line of text to the kernel log.
#[verifier::rlimit(100)]
pub fn log(kernel: &mut Kernel, message: Vec<u8>) -> (r: isize)
    requires
        old(kernel).wf(),
    ensures
        final(kernel).wf(),
        old(kernel).user_strings@.len() < usize::MAX - 1 ==> r == 0 && final(kernel).klog@.len()
            == old(kernel).klog@.len() + 1 && final(kernel).klog@.last()@ == message@,
{
    let h = match kernel.register_user_string(message) {
        Some(h) => h,
        None => {
            return -1;
        },
    };
    let mut args: Vec<usize> = Vec::new();
    args.push(h);
    syscall(kernel, Syscall::Log, &args)
}

/// Invoke a named module with a four-word payload.
#[verifier::rlimit(100)]
pub fn module_call(
    kernel: &mut Kernel,
    module: Vec<u8>,
    x0: usize,
    x1: usize,
    x2: usize,
    x3: usize,
) -> (r: isize)
    requires
        old(kernel).wf(),
    ensures
        final(kernel).wf(),
        old(kernel).user_strings@.len() < usize::MAX - 1 && module@
            == crate::kernel::spec_pm_name() ==> crate::kernel::spec_pm_effect(
            *old(kernel),
            *final(kernel),
            x0,
            x1,
            x2,
            r,
        ),
{
    let h = match kernel.register_user_string(module) {
        Some(h) => h,
        None => {
            return -1;
        },
    };
    let mut args: Vec<usize> = Vec::new();
    args.push(h);
    args.push(x0);
    args.push(x1);
    args.push(x2);
    args.push(x3);
    syscall(kernel, Syscall::ModuleCall, &args)
}

/// Give up the CPU until woken.
#[verifier::rlimit(100)]
pub fn wait(kernel: &mut Kernel) -> (r: isize)
    requires
        old(kernel).wf(),
    ensures
        final(kernel).wf(),
        old(kernel).scheduler.current_task is Some && old(kernel).scheduler.task_queue@.len() > 0
            ==> {
            &&& r == 0
            &&& final(kernel).scheduler.current_task == Some(
                old(kernel).scheduler.task_queue@[0],
            )
            &&& final(kernel).scheduler.task_queue@ == old(kernel).scheduler.task_queue@.drop_first()
        },
{
    let args: Vec<usize> = Vec::new();
    syscall(kernel, Syscall::Wait, &args)
}

/// Extend the caller's arena by `bytes`, page-rounded.
#[verifier::rlimit(100)]
pub fn sbrk(kernel: &mut Kernel, bytes: usize) -> (r: isize)
    requires
        old(kernel).wf(),
    ensures
        final(kernel).wf(),
        old(kernel).scheduler.current_task is Some ==> exists|ti: int|
            {
                &&& 0 <= ti < old(kernel).scheduler.tasks@.len()
                &&& (#[trigger] old(kernel).scheduler.tasks@[ti]).id == old(kernel).scheduler.current_task->Some_0
                &&& exists|ro: Option<(u64, u64)>|
                    {
                        &&& #[trigger] crate::kernel::spec_sbrk_effect(
                            *old(kernel),
                            *final(kernel),
                            old(kernel).scheduler.tasks@[ti].proc,
                            bytes as int / 0x1000,
                            ro,
                        )
                        &&& (ro matches Some(rg) ==> r == rg.0 as isize)
                        &&& (ro is None ==> r == -1)
                    }
            },
{
    let mut args: Vec<usize> = Vec::new();
    args.push(bytes);
    syscall(kernel, Syscall::Sbrk, &args)
}

/// Run the program at `path` and wait for it to finish.
#[verifier::rlimit(100)]
pub fn exec(kernel: &mut Kernel, path: Vec<u8>) -> (r: isize)
    requires
        old(kernel).wf(),
    ensures
        final(kernel).wf(),
        old(kernel).user_strings@.len() < usize::MAX - 1 && old(kernel).scheduler.current_task
            is Some && !(exists|fi: int|
            0 <= fi < old(kernel).init_fs@.len() && (#[trigger] old(kernel).init_fs@[fi]).0@
                == path@) ==> r == -1 && final(kernel).procs@ == old(kernel).procs@,
        old(kernel).user_strings@.len() < usize::MAX - 1 && (exists|fi: int|
            0 <= fi < old(kernel).init_fs@.len() && (#[trigger] old(kernel).init_fs@[fi]).0@
                == path@) && old(kernel).next_proc <= 0x7fff_ffff && old(kernel).next_task
            < usize::MAX - 1 && old(kernel).scheduler.current_task is Some ==> {
            &&& r == old(kernel).next_proc
            &&& final(kernel).procs@.len() == old(kernel).procs@.len() + 1
            &&& crate::sched::id_in_state(
                final(kernel).scheduler.tasks@,
                old(kernel).scheduler.current_task->Some_0,
                crate::sched::TaskState::Blocked,
            )
        },
{
    let h = match kernel.register_user_string(path) {
        Some(h) => h,
        None => {
            return -1;
        },
    };
    let mut args: Vec<usize> = Vec::new();
    args.push(h);
    syscall(kernel, Syscall::Exec, &args)
}

/// Terminate the calling process.
#[verifier::rlimit(100)]
pub fn exit(kernel: &mut Kernel) -> (r: isize)
    requires
        old(kernel).wf(),
    ensures
        final(kernel).wf(),
        old(kernel).scheduler.current_task is Some ==> exists|ti: int|
            {
                &&& 0 <= ti < old(kernel).scheduler.tasks@.len()
                &&& (#[trigger] old(kernel).scheduler.tasks@[ti]).id == old(kernel).scheduler.current_task->Some_0
                &&& ((exists|pi: int|
                    0 <= pi < old(kernel).procs@.len() && (#[trigger] old(kernel).procs@[pi]).id
                        == old(kernel).scheduler.tasks@[ti].proc) ==> final(kernel).procs@.len()
                    == old(kernel).procs@.len() - 1)
            },
{
    let args: Vec<usize> = Vec::new();
    syscall(kernel, Syscall::Exit, &args)
}

/// Shut the machine down with a code.
pub fn halt(kernel: &mut Kernel, code: usize) -> (r: isize)
    requires
        old(kernel).wf(),
    ensures
        final(kernel).wf(),
        final(kernel).halted == Some(code),
{
    let mut args: Vec<usize> = Vec::new();
    args.push(code);
    syscall(kernel, Syscall::Halt, &args)
}

/// Create a mutex through the process-management module; the result is
/// its handle.
#[verifier::rlimit(100)]
pub fn mutex_create(kernel: &mut Kernel) -> (r: isize)
    requires
        old(kernel).wf(),
    ensures
        final(kernel).wf(),
        old(kernel).user_strings@.len() < usize::MAX - 1 ==> crate::kernel::spec_pm_effect(
            *old(kernel),
            *final(kernel),
            0,
            0,
            0,
            r,
        ),
{
    let mut name: Vec<u8> = Vec::new();
    name.push(0x70);
    name.push(0x6d);
    proof {
        assert(name@ =~= crate::kernel::spec_pm_name());
    }
    module_call(kernel, name, 0, 0, 0, 0)
}

/// One attempt to take the mutex: 1 taken, 0 blocked until wake.
#[verifier::rlimit(100)]
pub fn mutex_lock(kernel: &mut Kernel, mutex: usize) -> (r: isize)
    requires
        old(kernel).wf(),
    ensures
        final(kernel).wf(),
        old(kernel).user_strings@.len() < usize::MAX - 1 ==> crate::kernel::spec_pm_effect(
            *old(kernel),
            *final(kernel),
            1,
            mutex,
            0,
            r,
        ),
{
    let mut name: Vec<u8> = Vec::new();
    name.push(0x70);
    name.push(0x6d);
    proof {
        assert(name@ =~= crate::kernel::spec_pm_name());
    }
    module_call(kernel, name, 1, mutex, 0, 0)
}

/// Release the mutex and wake its waiters.
#[verifier::rlimit(100)]
pub fn mutex_unlock(kernel: &mut Kernel, mutex: usize) -> (r: isize)
    requires
        old(kernel).wf(),
    ensures
        final(kernel).wf(),
        old(kernel).user_strings@.len() < usize::MAX - 1 ==> crate::kernel::spec_pm_effect(
            *old(kernel),
            *final(kernel),
            2,
            mutex,
            0,
            r,
        ),
{
    let mut name: Vec<u8> = Vec::new();
    name.push(0x70);
    name.push(0x6d);
    proof {
        assert(name@ =~= crate::kernel::spec_pm_name());
    }
    module_call(kernel, name, 2, mutex, 0, 0)
}

/// Retire a mutex handle.
#[verifier::rlimit(100)]
pub fn mutex_destroy(kernel: &mut Kernel, mutex: usize) -> (r: isize)
    requires
        old(kernel).wf(),
    ensures
        final(kernel).wf(),
        old(kernel).user_strings@.len() < usize::MAX - 1 ==> crate::kernel::spec_pm_effect(
            *old(kernel),
            *final(kernel),
            3,
            mutex,
            0,
            r,
        ),
{
    let mut name: Vec<u8> = Vec::new();
    name.push(0x70);
    name.push(0x6d);
    proof {
        assert(name@ =~= crate::kernel::spec_pm_name());
    }
    module_call(kernel, name, 3, mutex, 0, 0)
}

/// Create a condvar through the process-management module.
#[verifier::rlimit(100)]
pub fn condvar_create(kernel: &mut Kernel) -> (r: isize)
    requires
        old(kernel).wf(),
    ensures
        final(kernel).wf(),
        old(kernel).user_strings@.len() < usize::MAX - 1 ==> crate::kernel::spec_pm_effect(
            *old(kernel),
            *final(kernel),
            4,
            0,
            0,
            r,
        ),
{
    let mut name: Vec<u8> = Vec::new();
    name.push(0x70);
    name.push(0x6d);
    proof {
        assert(name@ =~= crate::kernel::spec_pm_name());
    }
    module_call(kernel, name, 4, 0, 0, 0)
}

/// Join the condvar's waiter list, release the mutex, and block.
#[verifier::rlimit(100)]
pub fn condvar_wait(kernel: &mut Kernel, condvar: usize, mutex: usize) -> (r: isize)
    requires
        old(kernel).wf(),
    ensures
        final(kernel).wf(),
        old(kernel).user_strings@.len() < usize::MAX - 1 ==> crate::kernel::spec_pm_effect(
            *old(kernel),
            *final(kernel),
            5,
            condvar,
            mutex,
            r,
        ),
{
    let mut name: Vec<u8> = Vec::new();
    name.push(0x70);
    name.push(0x6d);
    proof {
        assert(name@ =~= crate::kernel::spec_pm_name());
    }
    module_call(kernel, name, 5, condvar, mutex, 0)
}

/// Wake every task waiting on the condvar.
#[verifier::rlimit(100)]
pub fn condvar_notify_all(kernel: &mut Kernel, condvar: usize) -> (r: isize)
    requires
        old(kernel).wf(),
    ensures
        final(kernel).wf(),
        old(kernel).user_strings@.len() < usize::MAX - 1 ==> crate::kernel::spec_pm_effect(
            *old(kernel),
            *final(kernel),
            6,
            condvar,
            0,
            r,
        ),
{
    let mut name: Vec<u8> = Vec::new();
    name.push(0x70);
    name.push(0x6d);
    proof {
        assert(name@ =~= crate::kernel::spec_pm_name());
    }
    module_call(kernel, name, 6, condvar, 0, 0)
}

/// Retire a condvar handle.
#[verifier::rlimit(100)]
pub fn condvar_destory(kernel: &mut Kernel, condvar: usize) -> (r: isize)
    requires
        old(kernel).wf(),
    ensures
        final(kernel).wf(),
        old(kernel).user_strings@.len() < usize::MAX - 1 ==> crate::kernel::spec_pm_effect(
            *old(kernel),
            *final(kernel),
            7,
            condvar,
            0,
            r,
        ),
{
    let mut name: Vec<u8> = Vec::new();
    name.push(0x70);
    name.push(0x6d);
    proof {
        assert(name@ =~= crate::kernel::spec_pm_name());
    }
    module_call(kernel, name, 7, condvar, 0, 0)
}

} // verus!

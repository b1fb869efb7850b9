use sophon::kernel::{Kernel, KernelService};
use sophon::sched::{TaskId, TaskState};
use sophon::syscall;

fn boot() -> Kernel {
    let mut ranges: Vec<(u64, u64)> = Vec::new();
    ranges.push((0x4000_0000, 0x8000_0000));
    Kernel::boot(ranges).unwrap()
}

// Boot to idle: with a single free range and no init image, the scheduler
// holds exactly one task after init, and it is running.
#[test]
fn boot_to_idle() {
    let k = boot();
    assert_eq!(k.scheduler.tasks.len(), 1);
    let idle = k.scheduler.get_current_task_id().unwrap();
    assert_eq!(
        k.scheduler.get_task_by_id(idle).unwrap().sched.run_state,
        TaskState::Running
    );
    assert_eq!(k.scheduler.task_queue.len(), 0);
    assert_eq!(k.procs.len(), 1);
}

// sbrk monotonicity: the returned base strictly increases across calls.
#[test]
fn sbrk_bases_strictly_increase() {
    let mut k = boot();
    let pid = k.current_proc().unwrap();
    k.initialize_user_space(pid).unwrap();
    let (b1, e1) = k.sbrk(pid, 2).unwrap();
    assert_eq!(e1 - b1, 0x2000);
    let (b2, e2) = k.sbrk(pid, 1).unwrap();
    assert!(b2 > b1);
    assert_eq!(b2, e1);
    let (b3, _) = k.sbrk(pid, 3).unwrap();
    assert!(b3 > b2);
    assert_eq!(b3, e2);
}

// sbrk pages are real: a task of the process writes a pattern across the
// pages, another read of the same process sees it, and a different
// process reading the same addresses faults.
#[test]
fn sbrk_pages_shared_within_process_only() {
    let mut k = boot();
    let pid = k.current_proc().unwrap();
    k.initialize_user_space(pid).unwrap();
    let (b, _) = k.sbrk(pid, 2).unwrap();
    // a second task of the same process shares the address space
    k.spawn_task(pid).unwrap();
    let mut off = 0;
    while off < 0x2000 {
        k.user_write(pid, b + off, 0xa5).unwrap();
        off += 0x1000 / 4;
    }
    assert_eq!(k.user_read(pid, b).unwrap(), 0xa5);
    assert_eq!(k.user_read(pid, b + 0x1000).unwrap(), 0xa5);
    // a different process with its own table faults on those addresses
    let other = k.spawn().unwrap();
    k.initialize_user_space(other).unwrap();
    assert!(k.user_read(other, b).is_err());
}

// Exec round trip: the parent execs a program from the boot file system,
// blocks on the child's monitor, the child exits, and the parent resumes
// holding the child's process id.
#[test]
fn exec_round_trip() {
    let mut k = boot();
    let image: Vec<u8> = vec![0x7f, 0x45, 0x4c, 0x46];
    k.add_init_file(b"/init".to_vec(), image);
    let parent_task = k.scheduler.get_current_task_id().unwrap();
    let r = syscall::exec(&mut k, b"/init".to_vec());
    assert!(r > 0);
    let child = sophon::sched::ProcId(r as usize);
    // the parent is blocked; the child's main task is running
    assert_eq!(
        k.scheduler.get_task_by_id(parent_task).unwrap().sched.run_state,
        TaskState::Blocked
    );
    let child_task = k.scheduler.get_current_task_id().unwrap();
    assert!(child_task != parent_task);
    // the child exits: the parent wakes and resumes with the child's id
    let exit_r = k.exit(child);
    assert_eq!(exit_r, r);
    assert_eq!(
        k.scheduler.get_task_by_id(parent_task).unwrap().sched.run_state,
        TaskState::Ready
    );
    let mut delivered = false;
    let mut i = 0;
    while i < k.pending_results.len() {
        if k.pending_results[i] == (parent_task, r) {
            delivered = true;
        }
        i += 1;
    }
    assert!(delivered);
}

#[test]
fn exec_missing_path_is_refused() {
    let mut k = boot();
    let r = syscall::exec(&mut k, b"/absent".to_vec());
    assert_eq!(r, -1);
    assert_eq!(k.procs.len(), 1);
}

#[test]
fn module_registry() {
    let mut k = boot();
    assert!(k.register(b"hello".to_vec(), Vec::new()));
    assert!(!k.register(b"hello".to_vec(), Vec::new()));
    // an unregistered module is not found
    assert_eq!(k.module_call(&b"absent".to_vec(), false, 0, 0, 0, 0), -1);
}

#[test]
fn pm_mutex_over_syscalls() {
    let mut k = boot();
    // idle alone cannot block, so give the scheduler a second task
    let pid = k.current_proc().unwrap();
    k.spawn_task(pid).unwrap();
    let m = syscall::mutex_create(&mut k);
    assert!(m >= 0);
    assert_eq!(syscall::mutex_lock(&mut k, m as usize), 1);
    // a second attempt by the same holder blocks it and switches away
    let holder = k.scheduler.get_current_task_id().unwrap();
    assert_eq!(syscall::mutex_lock(&mut k, m as usize), 0);
    assert!(k.scheduler.get_current_task_id() != Some(holder));
    assert_eq!(syscall::mutex_unlock(&mut k, m as usize), 0);
    assert_eq!(
        k.scheduler.get_task_by_id(holder).unwrap().sched.run_state,
        TaskState::Ready
    );
    assert_eq!(syscall::mutex_destroy(&mut k, m as usize), 0);
}

#[test]
fn pm_condvar_over_syscalls() {
    let mut k = boot();
    let pid = k.current_proc().unwrap();
    k.spawn_task(pid).unwrap();
    let m = syscall::mutex_create(&mut k);
    let cv = syscall::condvar_create(&mut k);
    assert!(m >= 0 && cv >= 0);
    assert_eq!(syscall::mutex_lock(&mut k, m as usize), 1);
    let waiter = k.scheduler.get_current_task_id().unwrap();
    assert_eq!(syscall::condvar_wait(&mut k, cv as usize, m as usize), 0);
    assert_eq!(
        k.scheduler.get_task_by_id(waiter).unwrap().sched.run_state,
        TaskState::Blocked
    );
    assert_eq!(syscall::condvar_notify_all(&mut k, cv as usize), 0);
    assert_eq!(
        k.scheduler.get_task_by_id(waiter).unwrap().sched.run_state,
        TaskState::Ready
    );
    assert_eq!(syscall::condvar_destory(&mut k, cv as usize), 0);
}

// Process teardown returns its memory: the user frames mapped by sbrk
// and the frames behind the user page table all rejoin the free pool.
#[test]
fn exit_releases_user_memory() {
    let mut k = boot();
    let baseline = k.physical.free_bytes();
    let child = k.spawn().unwrap();
    k.initialize_user_space(child).unwrap();
    let (b, _) = k.sbrk(child, 2).unwrap();
    k.user_write(child, b, 0x5a).unwrap();
    assert!(k.physical.free_bytes() < baseline);
    k.exit(child);
    assert_eq!(k.physical.free_bytes(), baseline);
    assert_eq!(k.physical.outstanding, 1);
    assert_eq!(k.procs.len(), 1);
}

#[test]
fn kernel_service_entry_points() {
    let mut k = boot();
    let service = KernelService(0);
    service.log(&mut k, b"module up".to_vec());
    assert_eq!(k.klog.len(), 1);
    let p = service.alloc_bytes(&mut k, 48).unwrap();
    assert!(service.dealloc_bytes(&mut k, p, 48));
    // a pointer that lines up with no cell is refused
    assert!(!service.dealloc_bytes(&mut k, p + 1, 48));
    assert_eq!(service.current_task(&k), k.scheduler.get_current_task_id());
    assert!(service.current_process(&k).is_some());
    assert!(service.schedule(&mut k).is_some());
}

use sophon::error::KernelError;
use sophon::kernel::Kernel;
use sophon::scheme::{
    decode_scheme_request, handle_user_scheme_request, Args, Error, Mode, Resource,
    ResourceAllocator, SchemeCall, SchemeRequest, Whence,
};
use sophon::syscall::{decode_syscall, syscall_id, Syscall};
use sophon::syscall;

fn boot() -> Kernel {
    let mut ranges: Vec<(u64, u64)> = Vec::new();
    ranges.push((0x4000_0000, 0x8000_0000));
    Kernel::boot(ranges).unwrap()
}

#[test]
fn syscall_ids_round_trip() {
    assert_eq!(syscall_id(Syscall::Log), 0);
    assert_eq!(syscall_id(Syscall::ModuleCall), 1);
    assert_eq!(syscall_id(Syscall::Wait), 2);
    assert_eq!(syscall_id(Syscall::Sbrk), 3);
    assert_eq!(syscall_id(Syscall::Exec), 4);
    assert_eq!(syscall_id(Syscall::Exit), 5);
    assert_eq!(syscall_id(Syscall::Halt), 6);
    assert_eq!(decode_syscall(3), Some(Syscall::Sbrk));
    assert_eq!(decode_syscall(6), Some(Syscall::Halt));
    assert_eq!(decode_syscall(7), None);
}

#[test]
fn error_codes_are_negative_and_distinct() {
    let codes = [
        KernelError::OutOfMemory.code(),
        KernelError::MappingExists.code(),
        KernelError::NotFound.code(),
        KernelError::InvalidArgument.code(),
        KernelError::Other.code(),
    ];
    let mut i = 0;
    while i < codes.len() {
        assert!(codes[i] < 0);
        let mut j = i + 1;
        while j < codes.len() {
            assert!(codes[i] != codes[j]);
            j += 1;
        }
        i += 1;
    }
    assert_eq!(KernelError::OutOfMemory.code(), -1);
}

#[test]
fn log_appends_to_kernel_log() {
    let mut k = boot();
    assert_eq!(syscall::log(&mut k, b"hello".to_vec()), 0);
    assert_eq!(k.klog.len(), 1);
    assert_eq!(k.klog[0], b"hello".to_vec());
}

#[test]
fn halt_records_code() {
    let mut k = boot();
    assert_eq!(syscall::halt(&mut k, 7), 0);
    assert_eq!(k.halted, Some(7));
}

#[test]
fn sbrk_syscall_returns_base() {
    let mut k = boot();
    let pid = k.current_proc().unwrap();
    k.initialize_user_space(pid).unwrap();
    let r1 = syscall::sbrk(&mut k, 0x2000);
    assert!(r1 > 0);
    let r2 = syscall::sbrk(&mut k, 0x1000);
    assert!(r2 > r1);
    assert_eq!(r2, r1 + 0x2000);
}

#[test]
fn wait_blocks_the_caller() {
    let mut k = boot();
    let pid = k.current_proc().unwrap();
    k.spawn_task(pid).unwrap();
    let caller = k.scheduler.get_current_task_id().unwrap();
    assert_eq!(syscall::wait(&mut k), 0);
    assert!(k.scheduler.get_current_task_id() != Some(caller));
}

#[test]
fn scheme_request_tags() {
    assert_eq!(decode_scheme_request(0), Some(SchemeRequest::Register));
    assert_eq!(decode_scheme_request(1), Some(SchemeRequest::Open));
    assert_eq!(decode_scheme_request(6), Some(SchemeRequest::Write));
    assert_eq!(decode_scheme_request(7), None);
}

#[test]
fn args_reads_little_endian_words() {
    let mut buf: Vec<u8> = Vec::new();
    let mut i = 0;
    while i < 8 {
        buf.push(i as u8);
        i += 1;
    }
    buf.push(0xff);
    buf.push(0);
    buf.push(0);
    buf.push(0);
    buf.push(0);
    buf.push(0);
    buf.push(0);
    buf.push(0);
    let mut args = Args::from(buf);
    assert_eq!(args.get(), Some(0x0706050403020100));
    assert_eq!(args.get(), Some(0xff));
    assert_eq!(args.get(), None);
}

#[test]
fn resource_handles_count_up() {
    let mut ra = ResourceAllocator::new();
    assert_eq!(ra.allocate_resource().0, 1);
    assert_eq!(ra.allocate_resource().0, 2);
    assert_eq!(ra.allocate_resource().0, 3);
}

#[test]
fn scheme_dispatch_decodes_each_kind() {
    let open = handle_user_scheme_request(&vec![1, 7, 12, 0, 2]).unwrap();
    assert_eq!(
        open,
        SchemeCall::Open { uri: 7, uri_len: 12, flags: 0, mode: Mode::ReadWrite }
    );
    let read = handle_user_scheme_request(&vec![5, 3, 0x9000, 64, 0]).unwrap();
    assert_eq!(read, SchemeCall::Read { fd: Resource(3), buf: 0x9000, len: 64 });
    let write = handle_user_scheme_request(&vec![6, 3, 0x9000, 64, 0]).unwrap();
    assert_eq!(write, SchemeCall::Write { fd: Resource(3), buf: 0x9000, len: 64 });
    // registering through the user path, an unknown kind, and a bad mode
    // tag are refused
    assert_eq!(handle_user_scheme_request(&vec![0, 0, 0, 0, 0]), Err(Error::Other));
    assert_eq!(handle_user_scheme_request(&vec![9, 0, 0, 0, 0]), Err(Error::Other));
    assert_eq!(handle_user_scheme_request(&vec![1, 7, 12, 0, 5]), Err(Error::Other));
}

#[test]
fn reserved_resource_operations_report_other() {
    let r = Resource(1);
    assert_eq!(r.stat(), Err(Error::Other));
    assert_eq!(r.lseek(4, Whence::Cur), Err(Error::Other));
    assert_eq!(r.close(), Err(Error::Other));
}

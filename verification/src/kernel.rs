//! The kernel proper: processes, their address spaces, the syscall and
//! module-call surface, and the global state the subsystems share.
//!
//! Everything the machine kernel keeps behind interrupt-safe locks and
//! global singletons is one owned structure here; each operation is one
//! uninterrupted transition, which is exactly what the interrupt guard of
//! the single-CPU design provides.

use vstd::prelude::*;

verus! {

use crate::addr::{spec_align_up, spec_aligned, Page, PageSize};
use crate::error::KernelError;
use crate::heap::FreeListAllocator;
use crate::page_table::{
    lemma_unmapped_is_clear, spec_get_index, spec_no_user_blocks, spec_same_page,
    user_data_flags, PageTable, FLAG_NO_EXEC, FLAG_PRESENT, FLAG_SMALL_PAGE, FLAG_USER,
};
use crate::physical::{ranges_wf, spec_free_bytes, PhysicalMemory};
use crate::sched::{id_in_state, ProcId, Scheduler, SchedulerState, Task, TaskId, TaskState};
use crate::sync::{RawCondvar, RawMutex};

/// First address of the user arena.
pub const USER_SPACE_START: u64 = 0x20_0000;

/// One past the last address of the user arena.
pub const USER_SPACE_END: u64 = 0x40_0000_0000;

/// The top-level slot that covers kernel memory in every address space.
pub const KERNEL_WINDOW_VADDR: u64 = 0x8000_0000_0000;

/// Every address of the user arena routes through root slot zero, well
/// away from the kernel window's slot.
proof fn lemma_user_arena_slot(va: u64)
    requires
        va < USER_SPACE_END,
    ensures
        spec_get_index(4, va) == 0,
        spec_get_index(4, va) != spec_get_index(4, KERNEL_WINDOW_VADDR),
{
    assert(va < 0x40_0000_0000 ==> (va >> ((4 - 1) * 9 + 12) as u64) & 0x1ff == 0) by (bit_vector);
    assert((0x8000_0000_0000u64 >> ((4 - 1) * 9 + 12) as u64) & 0x1ff == 256) by (bit_vector);
}

/// Distinct 4K-aligned addresses lie in distinct 4K pages.
proof fn lemma_distinct_pages(a: u64, b: u64)
    requires
        a as int % 0x1000 == 0,
        b as int % 0x1000 == 0,
        a != b,
    ensures
        a >> 12 != b >> 12,
{
    assert(a % 0x1000 == 0 && b % 0x1000 == 0 && a != b ==> a >> 12 != b >> 12) by (bit_vector);
}

/// Backing bytes of written 4K frames, keyed by frame base. A frame that
/// was never written reads as zeroes, as the page-table manager zeroes
/// frames before publishing them.
pub struct FrameStore {
    pub entries: Vec<(u64, Vec<u8>)>,
}

/// The byte at `off` of the frame at `key`.
pub open spec fn spec_frame_byte(entries: Seq<(u64, Vec<u8>)>, key: u64, off: int) -> u8 {
    if exists|i: int| 0 <= i < entries.len() && entries[i].0 == key {
        let i = choose|i: int| 0 <= i < entries.len() && entries[i].0 == key;
        entries[i].1@[off]
    } else {
        0
    }
}

/// With unique keys, the entry chosen for the key of entry `i` is `i`.
proof fn lemma_store_find(entries: Seq<(u64, Vec<u8>)>, i: int)
    requires
        forall|a: int, b: int|
            0 <= a < entries.len() && 0 <= b < entries.len() && a != b ==> (#[trigger] entries[a]).0
                != (#[trigger] entries[b]).0,
        0 <= i < entries.len(),
    ensures
        spec_frame_byte(entries, entries[i].0, 0) == entries[i].1@[0],
        forall|off: int| spec_frame_byte(entries, entries[i].0, off) == entries[i].1@[off],
{
    let key = entries[i].0;
    assert forall|off: int| spec_frame_byte(entries, key, off) == entries[i].1@[off] by {
        assert(exists|j: int| 0 <= j < entries.len() && entries[j].0 == key);
        let j = choose|j: int| 0 <= j < entries.len() && entries[j].0 == key;
        if j != i {
            assert(entries[j].0 != entries[i].0);
        }
    }
}

impl FrameStore {
    /// Keys are unique and every recorded frame holds exactly 4096 bytes.
    pub open spec fn wf(self) -> bool {
        &&& forall|a: int, b: int|
            0 <= a < self.entries@.len() && 0 <= b < self.entries@.len() && a != b ==> (
            #[trigger] self.entries@[a]).0 != (#[trigger] self.entries@[b]).0
        &&& forall|a: int|
            0 <= a < self.entries@.len() ==> (#[trigger] self.entries@[a]).1@.len() == 4096
    }

    pub fn new() -> (r: FrameStore)
        ensures
            r.wf(),
            r.entries@.len() == 0,
    {
        FrameStore { entries: Vec::new() }
    }

    fn find(&self, key: u64) -> (r: Option<usize>)
        ensures
            match r {
                Some(i) => i < self.entries@.len() && self.entries@[i as int].0 == key,
                None => forall|i: int|
                    0 <= i < self.entries@.len() ==> (#[trigger] self.entries@[i]).0 != key,
            },
    {
        let n = self.entries.len();
        let mut i: usize = 0;
        while i < n
            invariant
                0 <= i <= n,
                n == self.entries@.len(),
                forall|k: int| 0 <= k < i ==> (#[trigger] self.entries@[k]).0 != key,
            decreases n - i,
        {
            if self.entries[i].0 == key {
                return Some(i);
            }
            i = i + 1;
        }
        None
    }

    /// Read one byte of a frame; an unwritten frame reads as zero.
    pub fn read(&self, key: u64, off: usize) -> (r: u8)
        requires
            self.wf(),
            off < 4096,
        ensures
            r == spec_frame_byte(self.entries@, key, off as int),
    {
        match self.find(key) {
            Some(i) => {
                proof {
                    lemma_store_find(self.entries@, i as int);
                }
                let e = &self.entries[i];
                e.1[off]
            },
            None => {
                proof {
                    if exists|j: int| 0 <= j < self.entries@.len() && self.entries@[j].0 == key {
                        let j = choose|j: int|
                            0 <= j < self.entries@.len() && self.entries@[j].0 == key;
                    }
                }
                0
            },
        }
    }

    /// Write one byte of a frame, creating its zeroed backing record on
    /// first touch. Every other byte of every frame is unchanged.
    #[verifier::rlimit(100)]
    pub fn write(&mut self, key: u64, off: usize, val: u8)
        requires
            old(self).wf(),
            off < 4096,
        ensures
            final(self).wf(),
            spec_frame_byte(final(self).entries@, key, off as int) == val,
            forall|k: u64, o: int|
                !(k == key && o == off) && 0 <= o < 4096 ==> spec_frame_byte(
                    final(self).entries@,
                    k,
                    o,
                ) == spec_frame_byte(old(self).entries@, k, o),
    {
        let ghost s0 = self.entries@;
        let i = match self.find(key) {
            Some(i) => i,
            None => {
                let mut zeroes: Vec<u8> = Vec::new();
                let mut z: usize = 0;
                while z < 4096
                    invariant
                        0 <= z <= 4096,
                        zeroes@.len() == z,
                        forall|q: int| 0 <= q < z ==> zeroes@[q] == 0,
                    decreases 4096 - z,
                {
                    zeroes.push(0);
                    z = z + 1;
                }
                let n = self.entries.len();
                self.entries.push((key, zeroes));
                proof {
                    assert forall|k: u64, o: int| 0 <= o < 4096 implies spec_frame_byte(
                        self.entries@,
                        k,
                        o,
                    ) == spec_frame_byte(s0, k, o) || k == key by {
                        if k != key {
                            if exists|j: int| 0 <= j < s0.len() && s0[j].0 == k {
                                let j = choose|j: int| 0 <= j < s0.len() && s0[j].0 == k;
                                assert(self.entries@[j].0 == k);
                                let j2 = choose|j2: int|
                                    0 <= j2 < self.entries@.len() && self.entries@[j2].0 == k;
                                if j2 != j {
                                    if j2 < n as int {
                                        assert(s0[j2].0 == k);
                                    }
                                }
                            } else {
                                assert(forall|j: int|
                                    0 <= j < self.entries@.len() ==> (#[trigger] self.entries@[j]).0
                                        != k || j == n);
                            }
                        }
                    }
                }
                n
            },
        };
        let ghost s1 = self.entries@;
        let mut slot: (u64, Vec<u8>) = (0, Vec::new());
        self.entries.set_and_swap(i, &mut slot);
        let (k0, mut bytes) = slot;
        bytes.set(off, val);
        let mut slot2: (u64, Vec<u8>) = (k0, bytes);
        self.entries.set_and_swap(i, &mut slot2);
        proof {
            let s2 = self.entries@;
            assert(s2[i as int].0 == key && s2[i as int].1@ == s1[i as int].1@.update(
                off as int,
                val,
            ));
            assert(forall|j: int| 0 <= j < s2.len() && j != i ==> s2[j] == s1[j]);
            lemma_store_find(s2, i as int);
            assert(spec_frame_byte(s2, key, off as int) == val);
            assert forall|k: u64, o: int|
                !(k == key && o == off) && 0 <= o < 4096 implies spec_frame_byte(s2, k, o)
                == spec_frame_byte(s1, k, o) by {
                if k == key {
                    lemma_store_find(s1, i as int);
                    lemma_store_find(s2, i as int);
                } else {
                    if exists|j: int| 0 <= j < s1.len() && s1[j].0 == k {
                        let j = choose|j: int| 0 <= j < s1.len() && s1[j].0 == k;
                        assert(j != i);
                        lemma_store_find(s1, j);
                        lemma_store_find(s2, j);
                    } else {
                        assert(forall|j: int|
                            0 <= j < s2.len() ==> (#[trigger] s2[j]).0 == s1[j].0);
                    }
                }
            }
            assert forall|k: u64, o: int|
                !(k == key && o == off) && 0 <= o < 4096 implies spec_frame_byte(
                self.entries@,
                k,
                o,
            ) == spec_frame_byte(s0, k, o) by {
                if k == key {
                    if exists|j: int| 0 <= j < s0.len() && s0[j].0 == k {
                        let j = choose|j: int| 0 <= j < s0.len() && s0[j].0 == k;
                        assert(s1 == s0);
                        lemma_store_find(s1, j);
                    } else {
                        // first touch: the fresh record is zero-filled, and
                        // an absent frame reads as zero too
                        if s1 != s0 {
                            assert(s1[i as int].1@[o] == 0);
                            lemma_store_find(s1, i as int);
                        }
                    }
                }
            }
        }
    }
}

/// One process: its identity, threads, address space, brk mark, liveness
/// flag, monitor waiter list, and the user image it was spawned from.
pub struct Proc {
    pub id: ProcId,
    pub threads: Vec<TaskId>,
    pub page_table: Option<PageTable>,
    pub virtual_memory_highwater: u64,
    pub dead: bool,
    pub monitor: Vec<TaskId>,
    pub user_elf: Option<Vec<u8>>,
}

/// A stand-in process occupying a table slot while the real entry is
/// swapped out for mutation.
fn dummy_proc() -> (r: Proc)
    ensures
        r.page_table is None,
{
    Proc {
        id: ProcId(0),
        threads: Vec::new(),
        page_table: None,
        virtual_memory_highwater: USER_SPACE_START,
        dead: false,
        monitor: Vec::new(),
        user_elf: None,
    }
}

/// The whole kernel: every global singleton of the machine kernel as one
/// owned structure.
pub struct Kernel {
    pub physical: PhysicalMemory,
    pub kernel_pt: PageTable,
    pub heap: FreeListAllocator,
    pub scheduler: Scheduler,
    pub procs: Vec<Proc>,
    pub next_proc: usize,
    pub next_task: usize,
    pub modules: Vec<Vec<u8>>,
    pub mutexes: Vec<RawMutex>,
    pub condvars: Vec<RawCondvar>,
    pub frames: FrameStore,
    pub init_fs: Vec<(Vec<u8>, Vec<u8>)>,
    pub user_strings: Vec<Vec<u8>>,
    pub klog: Vec<Vec<u8>>,
    pub pending_results: Vec<(TaskId, isize)>,
    pub halted: Option<usize>,
}

impl Kernel {
    pub open spec fn wf(self) -> bool {
        &&& self.physical.wf()
        &&& self.kernel_pt.wf()
        &&& self.heap.wf()
        &&& self.scheduler.wf()
        &&& self.frames.wf()
        &&& forall|i: int|
            0 <= i < self.procs@.len() ==> match (#[trigger] self.procs@[i]).page_table {
                Some(pt) => {
                    &&& pt.wf()
                    &&& spec_no_user_blocks(pt)
                    &&& forall|k: int|
                        0 <= k < 512 && (#[trigger] pt.root.entries@[k]) is KernelWindow ==> k
                            == spec_get_index(4, KERNEL_WINDOW_VADDR)
                    &&& forall|va: u64|
                        self.procs@[i].virtual_memory_highwater <= va < USER_SPACE_END
                            ==> (#[trigger] pt.spec_translate(PageSize::Size4K, va)) is None
                },
                None => true,
            }
        &&& forall|i: int|
            0 <= i < self.procs@.len() ==> {
                &&& USER_SPACE_START <= (#[trigger] self.procs@[i]).virtual_memory_highwater
                    <= USER_SPACE_END
                &&& spec_aligned(self.procs@[i].virtual_memory_highwater, 0x1000)
            }
        &&& forall|i: int|
            0 <= i < self.scheduler.tasks@.len() ==> (#[trigger] self.scheduler.tasks@[i]).id.0
                < self.next_task
        &&& forall|i: int|
            0 <= i < self.procs@.len() ==> (#[trigger] self.procs@[i]).id.0 < self.next_proc
        &&& forall|i: int, j: int|
            0 <= i < self.procs@.len() && 0 <= j < self.procs@.len() && i != j ==> (
            #[trigger] self.procs@[i]).id != (#[trigger] self.procs@[j]).id
    }

    /// Index of a process in the table.
    fn find_proc(&self, pid: ProcId) -> (r: Option<usize>)
        ensures
            match r {
                Some(i) => i < self.procs@.len() && self.procs@[i as int].id == pid,
                None => forall|i: int|
                    0 <= i < self.procs@.len() ==> (#[trigger] self.procs@[i]).id != pid,
            },
    {
        let n = self.procs.len();
        let mut i: usize = 0;
        while i < n
            invariant
                0 <= i <= n,
                n == self.procs@.len(),
                forall|k: int| 0 <= k < i ==> (#[trigger] self.procs@[k]).id != pid,
            decreases n - i,
        {
            if self.procs[i].id.0 == pid.0 {
                return Some(i);
            }
            i = i + 1;
        }
        None
    }

    /// Create a process with one ready main thread, as `spawn` and
    /// `spawn_user` do. Ids count up and are never reused.
    pub fn create_proc(&mut self, user_elf: Option<Vec<u8>>) -> (r: Result<ProcId, KernelError>)
        requires
            old(self).wf(),
        ensures
            final(self).wf(),
            r is Ok <==> old(self).next_proc < usize::MAX - 1 && old(self).next_task < usize::MAX
                - 1,
            match r {
                Ok(pid) => {
                    &&& final(self).procs@.len() == old(self).procs@.len() + 1
                    &&& final(self).procs@.last().id == pid
                    &&& final(self).procs@.last().dead == false
                    &&& final(self).procs@.last().virtual_memory_highwater == USER_SPACE_START
                    &&& final(self).procs@.last().threads@.len() == 1
                    &&& final(self).procs@.last().page_table is None
                    &&& final(self).procs@.last().monitor@.len() == 0
                    &&& final(self).procs@.last().user_elf == user_elf
                    &&& forall|i: int|
                        0 <= i < old(self).procs@.len() ==> final(self).procs@[i] == old(self).procs@[i]
                    &&& final(self).scheduler.tasks@.len() == old(self).scheduler.tasks@.len() + 1
                    &&& final(self).scheduler.tasks@ == old(self).scheduler.tasks@.push(
                        final(self).scheduler.tasks@.last(),
                    )
                    &&& final(self).scheduler.tasks@.last().proc == pid
                    &&& final(self).scheduler.tasks@.last().id == final(self).procs@.last().threads@[0]
                    &&& final(self).scheduler.task_queue@ == old(self).scheduler.task_queue@.push(
                        final(self).scheduler.tasks@.last().id,
                    )
                    &&& final(self).scheduler.current_task == old(self).scheduler.current_task
                    &&& pid.0 == old(self).next_proc
                    &&& final(self).physical == old(self).physical
                    &&& final(self).kernel_pt == old(self).kernel_pt
                    &&& final(self).heap == old(self).heap
                    &&& final(self).frames == old(self).frames
                    &&& final(self).modules == old(self).modules
                    &&& final(self).mutexes == old(self).mutexes
                    &&& final(self).condvars == old(self).condvars
                    &&& final(self).init_fs == old(self).init_fs
                    &&& final(self).user_strings == old(self).user_strings
                    &&& final(self).klog == old(self).klog
                    &&& final(self).pending_results == old(self).pending_results
                    &&& final(self).halted == old(self).halted
                },
                Err(_) => *final(self) == *old(self),
            },
    {
        if self.next_proc >= usize::MAX - 1 || self.next_task >= usize::MAX - 1 {
            return Err(KernelError::Other);
        }
        let pid = ProcId(self.next_proc);
        self.next_proc = self.next_proc + 1;
        let tid = TaskId(self.next_task);
        self.next_task = self.next_task + 1;
        let task = Task { id: tid, proc: pid, context: 0, sched: SchedulerState::new() };
        proof {
            assert(!self.scheduler.spec_has_task(tid)) by {
                if exists|i: int|
                    0 <= i < self.scheduler.tasks@.len() && self.scheduler.tasks@[i].id == tid {
                    let i = choose|i: int|
                        0 <= i < self.scheduler.tasks@.len() && self.scheduler.tasks@[i].id == tid;
                }
            }
        }
        self.scheduler.register_new_task(task);
        let mut threads: Vec<TaskId> = Vec::new();
        threads.push(tid);
        let p = Proc {
            id: pid,
            threads,
            page_table: None,
            virtual_memory_highwater: USER_SPACE_START,
            dead: false,
            monitor: Vec::new(),
            user_elf,
        };
        self.procs.push(p);
        proof {
            assert(spec_aligned(USER_SPACE_START, 0x1000)) by {
                assert(USER_SPACE_START as int == 0x200 * 0x1000);
                vstd::arithmetic::div_mod::lemma_mod_multiples_basic(0x200, 0x1000);
            }
        }
        Ok(pid)
    }

    /// Spawn an in-kernel process (no user image).
    pub fn spawn(&mut self) -> (r: Result<ProcId, KernelError>)
        requires
            old(self).wf(),
        ensures
            final(self).wf(),
            r is Ok <==> old(self).next_proc < usize::MAX - 1 && old(self).next_task < usize::MAX
                - 1,
            r matches Ok(pid) ==> {
                &&& final(self).procs@.len() == old(self).procs@.len() + 1
                &&& final(self).procs@.last().id == pid
                &&& pid.0 == old(self).next_proc
                &&& final(self).scheduler.task_queue@.len() == old(self).scheduler.task_queue@.len() + 1
            },
    {
        self.create_proc(None)
    }

    /// Spawn a process around a user image.
    pub fn spawn_user(&mut self, elf: Vec<u8>) -> (r: Result<ProcId, KernelError>)
        requires
            old(self).wf(),
        ensures
            final(self).wf(),
            r is Ok <==> old(self).next_proc < usize::MAX - 1 && old(self).next_task < usize::MAX
                - 1,
            r matches Ok(pid) ==> {
                &&& final(self).procs@.len() == old(self).procs@.len() + 1
                &&& final(self).procs@.last().id == pid
                &&& final(self).procs@.last().user_elf == Some(elf)
                &&& final(self).procs@.last().monitor@.len() == 0
                &&& forall|i: int|
                    0 <= i < old(self).procs@.len() ==> final(self).procs@[i] == old(self).procs@[i]
                &&& pid.0 == old(self).next_proc
                &&& final(self).scheduler.tasks@ == old(self).scheduler.tasks@.push(
                    final(self).scheduler.tasks@.last(),
                )
                &&& final(self).scheduler.current_task == old(self).scheduler.current_task
                &&& final(self).scheduler.task_queue@.len() == old(self).scheduler.task_queue@.len() + 1
                &&& final(self).init_fs == old(self).init_fs
                &&& final(self).user_strings == old(self).user_strings
                &&& final(self).modules == old(self).modules
                &&& final(self).mutexes == old(self).mutexes
                &&& final(self).condvars == old(self).condvars
                &&& final(self).klog == old(self).klog
                &&& final(self).pending_results == old(self).pending_results
                &&& final(self).halted == old(self).halted
                &&& final(self).physical == old(self).physical
                &&& final(self).heap == old(self).heap
                &&& final(self).frames == old(self).frames
                &&& final(self).kernel_pt == old(self).kernel_pt
            },
    {
        self.create_proc(Some(elf))
    }

    /// Add another ready thread to an existing process.
    pub fn spawn_task(&mut self, pid: ProcId) -> (r: Result<TaskId, KernelError>)
        requires
            old(self).wf(),
        ensures
            final(self).wf(),
            r is Ok <==> (exists|i: int|
                0 <= i < old(self).procs@.len() && (#[trigger] old(self).procs@[i]).id == pid)
                && old(self).next_task < usize::MAX - 1,
            r matches Ok(tid) ==> {
                &&& tid.0 == old(self).next_task
                &&& final(self).scheduler.tasks@.len() == old(self).scheduler.tasks@.len() + 1
                &&& final(self).scheduler.task_queue@.len() == old(self).scheduler.task_queue@.len() + 1
                &&& final(self).scheduler.tasks@.last().id == tid
                &&& final(self).scheduler.tasks@.last().proc == pid
            },
            r is Err ==> final(self).scheduler == old(self).scheduler && final(self).procs == old(self).procs,
    {
        let i = match self.find_proc(pid) {
            Some(i) => i,
            None => {
                return Err(KernelError::NotFound);
            },
        };
        if self.next_task >= usize::MAX - 1 {
            return Err(KernelError::Other);
        }
        let tid = TaskId(self.next_task);
        self.next_task = self.next_task + 1;
        let task = Task { id: tid, proc: pid, context: 0, sched: SchedulerState::new() };
        proof {
            assert(!self.scheduler.spec_has_task(tid)) by {
                if exists|j: int|
                    0 <= j < self.scheduler.tasks@.len() && self.scheduler.tasks@[j].id == tid {
                    let j = choose|j: int|
                        0 <= j < self.scheduler.tasks@.len() && self.scheduler.tasks@[j].id == tid;
                }
            }
        }
        self.scheduler.register_new_task(task);
        let mut p = dummy_proc();
        self.procs.set_and_swap(i, &mut p);
        let Proc { id, mut threads, page_table, virtual_memory_highwater, dead, monitor, user_elf }
            = p;
        threads.push(tid);
        let mut back = Proc {
            id,
            threads,
            page_table,
            virtual_memory_highwater,
            dead,
            monitor,
            user_elf,
        };
        self.procs.set_and_swap(i, &mut back);
        Ok(tid)
    }

    /// Give a process its own address space: a fresh top-level table with
    /// the kernel window shared by reference, never copied or freed.
    #[verifier::rlimit(100)]
    #[verifier::spinoff_prover]
    pub fn initialize_user_space(&mut self, pid: ProcId) -> (r: Result<(), KernelError>)
        requires
            old(self).wf(),
        ensures
            final(self).wf(),
            final(self).procs@.len() == old(self).procs@.len(),
            r is Ok <==> (exists|i: int|
                0 <= i < old(self).procs@.len() && (#[trigger] old(self).procs@[i]).id == pid)
                && spec_free_bytes(old(self).physical.ranges@) > 0,
            r is Ok ==> exists|i: int|
                {
                    &&& 0 <= i < final(self).procs@.len()
                    &&& (#[trigger] final(self).procs@[i]).id == pid
                    &&& match final(self).procs@[i].page_table {
                        Some(pt) => pt.root.entries@[spec_get_index(
                            4,
                            KERNEL_WINDOW_VADDR,
                        ) as int] is KernelWindow,
                        None => false,
                    }
                },
    {
        proof {
            crate::physical::lemma_free_nonneg(self.physical);
        }
        let i = match self.find_proc(pid) {
            Some(i) => i,
            None => {
                return Err(KernelError::NotFound);
            },
        };
        let mut pt = match PageTable::alloc_root(&mut self.physical) {
            Ok(pt) => pt,
            Err(e) => {
                return Err(e);
            },
        };
        let win = crate::page_table::get_index(4, KERNEL_WINDOW_VADDR);
        pt.set_kernel_window(win);
        proof {
            assert(spec_no_user_blocks(pt));
            assert forall|k: int|
                0 <= k < 512 && (#[trigger] pt.root.entries@[k]) is KernelWindow implies k
                == spec_get_index(4, KERNEL_WINDOW_VADDR) by {}
            assert(forall|va: u64| (#[trigger] pt.spec_translate(PageSize::Size4K, va)) is None);
        }
        let mut p = dummy_proc();
        self.procs.set_and_swap(i, &mut p);
        let Proc { id, threads, page_table: _, virtual_memory_highwater, dead, monitor, user_elf }
            = p;
        let mut back = Proc {
            id,
            threads,
            page_table: Some(pt),
            virtual_memory_highwater,
            dead,
            monitor,
            user_elf,
        };
        self.procs.set_and_swap(i, &mut back);
        proof {
            let ii = i as int;
            assert(self.procs@[ii].id == pid && self.procs@[ii].page_table is Some);
            assert forall|j: int|
                0 <= j < self.procs@.len() && j != ii implies self.procs@[j] == old(self).procs@[j] by {}
        }
        Ok(())
    }

    /// Whether `va` translates to a user data page in `pt`.
    pub open spec fn spec_user_mapped(pt: PageTable, va: u64) -> bool {
        match pt.spec_translate(PageSize::Size4K, va) {
            Some(fr) => fr.1 == (FLAG_PRESENT | FLAG_USER | FLAG_NO_EXEC) | FLAG_SMALL_PAGE,
            None => false,
        }
    }

    /// Advance the process's arena mark by whole pages and map each new
    /// page to a freshly acquired frame with user data rights. The base
    /// returned is the old mark aligned up; marks only ever grow, so the
    /// bases strictly increase across calls. Fails exactly for an unknown
    /// process, a process still sharing the kernel table, a range past
    /// the arena end, or a pool that cannot cover the pages and the
    /// tables they may need (four frames per page suffice).
    #[verifier::rlimit(100)]
    pub fn sbrk(&mut self, pid: ProcId, num_pages: usize) -> (r: Option<(u64, u64)>)
        requires
            old(self).wf(),
        ensures
            final(self).wf(),
            spec_sbrk_effect(*old(self), *final(self), pid, num_pages as int, r),
            r matches Some(rg) ==> USER_SPACE_START <= rg.0 && rg.0 <= rg.1 <= USER_SPACE_END
                && rg.1 == rg.0 + num_pages * 0x1000,
    {
        let ghost k0 = *old(self);
        let i = match self.find_proc(pid) {
            Some(i) => i,
            None => {
                return None;
            },
        };
        proof {
            assert forall|j: int|
                0 <= j < k0.procs@.len() && (#[trigger] k0.procs@[j]).id == pid implies j
                == i as int by {
                if j != i as int {
                    assert(k0.procs@[j].id != k0.procs@[i as int].id);
                }
            }
        }
        let mut p = dummy_proc();
        self.procs.set_and_swap(i, &mut p);
        let Proc { id, threads, page_table, virtual_memory_highwater, dead, monitor, user_elf } = p;
        let mut pt = match page_table {
            Some(pt) => pt,
            None => {
                let mut back = Proc {
                    id,
                    threads,
                    page_table: None,
                    virtual_memory_highwater,
                    dead,
                    monitor,
                    user_elf,
                };
                self.procs.set_and_swap(i, &mut back);
                proof {
                    assert(self.procs@ =~= k0.procs@);
                }
                return None;
            },
        };
        let hw = virtual_memory_highwater;
        let start = crate::addr::align_up(hw, 0x1000);
        let fits = num_pages as u64 <= (USER_SPACE_END - start) / 0x1000;
        let enough = fits && {
            let needed = (num_pages as u64) * 0x4000;
            self.physical.free_bytes() >= needed
        };
        if !enough {
            let mut back = Proc {
                id,
                threads,
                page_table: Some(pt),
                virtual_memory_highwater,
                dead,
                monitor,
                user_elf,
            };
            self.procs.set_and_swap(i, &mut back);
            proof {
                assert(self.procs@ =~= k0.procs@);
                assert(!fits ==> start + num_pages * 0x1000 > USER_SPACE_END) by (nonlinear_arith)
                    requires
                        !fits ==> num_pages as u64 > (USER_SPACE_END - start) / 0x1000,
                        start <= USER_SPACE_END,
                ;
            }
            return None;
        }
        proof {
            assert(start + num_pages * 0x1000 <= USER_SPACE_END) by (nonlinear_arith)
                requires
                    num_pages as u64 <= (USER_SPACE_END - start) / 0x1000,
                    start <= USER_SPACE_END,
            ;
        }
        let end = start + (num_pages as u64) * 0x1000;
        let ghost pt0 = pt;
        let ghost pmid = self.procs@;
        proof {
            assert(k0.procs@[i as int].page_table == Some(pt));
            assert(pt.wf() && spec_no_user_blocks(pt));
            assert(forall|k: int|
                0 <= k < 512 && (#[trigger] pt.root.entries@[k]) is KernelWindow ==> k
                    == spec_get_index(4, KERNEL_WINDOW_VADDR));
            assert(hw == k0.procs@[i as int].virtual_memory_highwater);
            assert(forall|va: u64|
                hw <= va < USER_SPACE_END ==> (#[trigger] pt.spec_translate(
                    PageSize::Size4K,
                    va,
                )) is None);
        }
        let flags = user_data_flags();
        let mut j: usize = 0;
        while j < num_pages
            invariant
                0 <= j <= num_pages,
                self.procs@ == pmid,
                (i as int) < pmid.len(),
                self.scheduler == k0.scheduler,
                self.kernel_pt == k0.kernel_pt,
                self.heap == k0.heap,
                self.frames == k0.frames,
                self.mutexes == k0.mutexes,
                self.condvars == k0.condvars,
                self.modules == k0.modules,
                self.init_fs == k0.init_fs,
                self.user_strings == k0.user_strings,
                self.klog == k0.klog,
                self.pending_results == k0.pending_results,
                self.halted == k0.halted,
                self.next_proc == k0.next_proc,
                self.next_task == k0.next_task,
                pt.wf(),
                spec_no_user_blocks(pt),
                self.physical.wf(),
                self.physical.initial_bytes == k0.physical.initial_bytes,
                spec_free_bytes(self.physical.ranges@) >= (num_pages - j) * 0x4000,
                forall|k: int|
                    0 <= k < 512 ==> ((#[trigger] pt.root.entries@[k]) is KernelWindow <==> pt0
                        .root.entries@[k] is KernelWindow),
                forall|k: int|
                    0 <= k < 512 && (#[trigger] pt0.root.entries@[k]) is KernelWindow ==> k
                        == spec_get_index(4, KERNEL_WINDOW_VADDR),
                spec_aligned(start, 0x1000),
                USER_SPACE_START <= hw <= USER_SPACE_END,
                hw <= start,
                start + num_pages * 0x1000 <= USER_SPACE_END,
                end == start + num_pages * 0x1000,
                flags == FLAG_PRESENT | FLAG_USER | FLAG_NO_EXEC,
                forall|jj: int|
                    0 <= jj < j ==> #[trigger] Self::spec_user_mapped(
                        pt,
                        (start + jj * 0x1000) as u64,
                    ),
                forall|va: u64|
                    hw <= va < USER_SPACE_END && !(exists|jj: int|
                        0 <= jj < j && #[trigger] spec_same_page(
                            PageSize::Size4K,
                            va,
                            (start + jj * 0x1000) as u64,
                        )) ==> (#[trigger] pt.spec_translate(PageSize::Size4K, va)) is None,
                forall|sz: PageSize, va: u64|
                    va < crate::page_table::MAX_VADDR && !(sz == PageSize::Size4K && (exists|
                        jj: int,
                    |
                        0 <= jj < j && #[trigger] spec_same_page(
                            PageSize::Size4K,
                            va,
                            (start + jj * 0x1000) as u64,
                        ))) ==> #[trigger] pt.spec_translate(sz, va) == pt0.spec_translate(
                        sz,
                        va,
                    ),
            decreases num_pages - j,
        {
            let va = start + (j as u64) * 0x1000;
            proof {
                assert((j as int) * 0x1000 < num_pages * 0x1000 && (j as int + 1) * 0x1000
                    <= num_pages * 0x1000) by (nonlinear_arith)
                    requires
                        j < num_pages,
                ;
                assert(spec_aligned(va, 0x1000)) by {
                    crate::addr::lemma_mod_add_zero(start as int, (j as u64 * 0x1000) as int,
                        0x1000);
                    vstd::arithmetic::div_mod::lemma_mod_multiples_basic(j as int, 0x1000);
                }
                assert(pt.spec_translate(PageSize::Size4K, va) is None) by {
                    assert forall|jj: int|
                        0 <= jj < j implies !(#[trigger] spec_same_page(
                        PageSize::Size4K,
                        va,
                        (start + jj * 0x1000) as u64,
                    )) by {
                        let prev = (start + jj * 0x1000) as u64;
                        assert(spec_aligned(prev, 0x1000)) by {
                            crate::addr::lemma_mod_add_zero(start as int, jj * 0x1000, 0x1000);
                            vstd::arithmetic::div_mod::lemma_mod_multiples_basic(jj, 0x1000);
                        }
                        assert(prev != va) by (nonlinear_arith)
                            requires
                                0 <= jj < j,
                                prev == start + jj * 0x1000,
                                va == start + (j as int) * 0x1000,
                                start + num_pages * 0x1000 <= USER_SPACE_END,
                        ;
                        lemma_distinct_pages(prev, va);
                    }
                }
                assert(!(pt.root.entries@[spec_get_index(4, va) as int] is KernelWindow)) by {
                    lemma_user_arena_slot(va);
                    if pt.root.entries@[0] is KernelWindow {
                        assert(pt0.root.entries@[0] is KernelWindow);
                    }
                }
                lemma_unmapped_is_clear(pt, va);
                crate::physical::lemma_first_fit_4k(self.physical.ranges@);
                assert(spec_free_bytes(self.physical.ranges@) >= 0x4000) by (nonlinear_arith)
                    requires
                        spec_free_bytes(self.physical.ranges@) >= (num_pages - j) * 0x4000,
                        j < num_pages,
                ;
            }
            let frame = match self.physical.acquire(PageSize::Size4K) {
                Some(frame) => frame,
                None => unreached(),
            };
            let page = Page::new(PageSize::Size4K, va);
            let ghost ptb = pt;
            let r2 = pt.map(page, frame, flags, &mut self.physical);
            proof {
                if r2 is Err {
                    assert(ptb.spec_missing_tables(PageSize::Size4K, va) <= 3);
                    assert(false);
                }
            }
            proof {
                assert forall|k: int|
                    0 <= k < 512 implies ((#[trigger] pt.root.entries@[k]) is KernelWindow <==> pt0
                    .root.entries@[k] is KernelWindow) by {
                    assert((pt.root.entries@[k] is KernelWindow) <==> (ptb.root.entries@[k]
                        is KernelWindow));
                }
                assert forall|jj: int|
                    0 <= jj < j + 1 implies #[trigger] Self::spec_user_mapped(
                    pt,
                    (start + jj * 0x1000) as u64,
                ) by {
                    let prev = (start + jj * 0x1000) as u64;
                    if jj < j {
                        assert(spec_aligned(prev, 0x1000)) by {
                            crate::addr::lemma_mod_add_zero(start as int, jj * 0x1000, 0x1000);
                            vstd::arithmetic::div_mod::lemma_mod_multiples_basic(jj, 0x1000);
                        }
                        assert(prev != va && prev < USER_SPACE_END) by (nonlinear_arith)
                            requires
                                0 <= jj < j,
                                j < num_pages,
                                prev == start + jj * 0x1000,
                                va == start + (j as int) * 0x1000,
                                start + num_pages * 0x1000 <= USER_SPACE_END,
                        ;
                        lemma_distinct_pages(prev, va);
                        assert(Self::spec_user_mapped(ptb, prev));
                        assert(pt.spec_translate(PageSize::Size4K, prev) == ptb.spec_translate(
                            PageSize::Size4K,
                            prev,
                        ));
                    } else {
                        assert(jj == j as int);
                        assert(prev == va);
                        assert(pt.spec_translate(PageSize::Size4K, va) == Some(
                            (frame.base, crate::page_table::spec_leaf_flags(
                                PageSize::Size4K,
                                flags,
                            )),
                        ));
                        assert(crate::page_table::spec_leaf_flags(PageSize::Size4K, flags)
                            == flags | FLAG_SMALL_PAGE);
                    }
                }
                assert forall|va2: u64|
                    hw <= va2 < USER_SPACE_END && !(exists|jj: int|
                        0 <= jj < j + 1 && #[trigger] spec_same_page(
                            PageSize::Size4K,
                            va2,
                            (start + jj * 0x1000) as u64,
                        )) implies (#[trigger] pt.spec_translate(PageSize::Size4K, va2))
                    is None by {
                    assert(!spec_same_page(PageSize::Size4K, va2, va));
                    assert(pt.spec_translate(PageSize::Size4K, va2) == ptb.spec_translate(
                        PageSize::Size4K,
                        va2,
                    ));
                }
            }
            j = j + 1;
        }
        let mut back = Proc {
            id,
            threads,
            page_table: Some(pt),
            virtual_memory_highwater: end,
            dead,
            monitor,
            user_elf,
        };
        self.procs.set_and_swap(i, &mut back);
        proof {
            assert(spec_aligned(end, 0x1000)) by {
                crate::addr::lemma_mod_add_zero(start as int, (num_pages as u64 * 0x1000) as int,
                    0x1000);
                vstd::arithmetic::div_mod::lemma_mod_multiples_basic(num_pages as int, 0x1000);
            }
            let ii = i as int;
            assert forall|j2: int|
                0 <= j2 < self.procs@.len() && j2 != ii implies self.procs@[j2] == k0
                .procs@[j2] by {}
            assert forall|va: u64|
                end <= va < USER_SPACE_END implies (#[trigger] pt.spec_translate(
                PageSize::Size4K,
                va,
            )) is None by {
                assert forall|jj: int|
                    0 <= jj < num_pages implies !(#[trigger] spec_same_page(
                    PageSize::Size4K,
                    va,
                    (start + jj * 0x1000) as u64,
                )) by {
                    let prev = (start + jj * 0x1000) as u64;
                    assert(spec_aligned(prev, 0x1000)) by {
                        crate::addr::lemma_mod_add_zero(start as int, jj * 0x1000, 0x1000);
                        vstd::arithmetic::div_mod::lemma_mod_multiples_basic(jj, 0x1000);
                    }
                    let pv = (va / 0x1000) * 0x1000;
                    assert(prev < end) by (nonlinear_arith)
                        requires
                            0 <= jj < num_pages,
                            prev == start + jj * 0x1000,
                            end == start + num_pages * 0x1000,
                    ;
                    assert(prev % 0x1000 == 0 && va >= end && end as int % 0x1000 == 0 && prev
                        < end ==> prev >> 12 != va >> 12) by (bit_vector);
                }
            }
            let hwg = k0.procs@[ii].virtual_memory_highwater;
            assert(hwg == hw);
            assert(spec_align_up(hwg as int, 0x1000) == start);
            assert(self.procs@[ii].id == pid && self.procs@[ii].virtual_memory_highwater == end
                && self.procs@[ii].page_table == Some(pt));
            assert forall|jj: int|
                0 <= jj < num_pages implies #[trigger] Self::spec_user_mapped(
                pt,
                (start + jj * 0x1000) as u64,
            ) by {}
        }
        Some((start, end))
    }

    /// Bring the kernel up from the boot handoff    /// Bring the kernel up from the boot handoff: absorb the free ranges,
    /// build the kernel address space and heap, and leave the idle task
    /// running. After boot exactly one task exists and it is on the CPU.
    #[verifier::rlimit(100)]
    #[verifier::spinoff_prover]
    pub fn boot(ranges: Vec<(u64, u64)>) -> (r: Result<Kernel, KernelError>)
        requires
            ranges_wf(ranges@),
        ensures
            r is Err <==> crate::physical::spec_free_bytes(ranges@) == 0,
            match r {
                Ok(k) => {
                    &&& k.wf()
                    &&& k.scheduler.tasks@.len() == 1
                    &&& k.scheduler.current_task is Some
                    &&& id_in_state(
                        k.scheduler.tasks@,
                        k.scheduler.current_task->Some_0,
                        TaskState::Running,
                    )
                    &&& k.scheduler.task_queue@.len() == 0
                    &&& k.procs@.len() == 1
                    &&& k.halted is None
                },
                Err(e) => e == KernelError::OutOfMemory,
            },
    {
        let mut physical = PhysicalMemory::new();
        physical.init(ranges);
        let kernel_pt = match PageTable::alloc_root(&mut physical) {
            Ok(pt) => pt,
            Err(e) => {
                return Err(e);
            },
        };
        let heap = FreeListAllocator::new();
        let scheduler = Scheduler::new();
        let mut modules: Vec<Vec<u8>> = Vec::new();
        let mut pm_name: Vec<u8> = Vec::new();
        pm_name.push(0x70);
        pm_name.push(0x6d);
        modules.push(pm_name);
        let mut k = Kernel {
            physical,
            kernel_pt,
            heap,
            scheduler,
            procs: Vec::new(),
            next_proc: 1,
            next_task: 0,
            modules,
            mutexes: Vec::new(),
            condvars: Vec::new(),
            frames: FrameStore::new(),
            init_fs: Vec::new(),
            user_strings: Vec::new(),
            klog: Vec::new(),
            pending_results: Vec::new(),
            halted: None,
        };
        match k.create_proc(None) {
            Ok(_) => {},
            Err(e) => {
                return Err(e);
            },
        }
        k.scheduler.schedule();
        Ok(k)
    }

    /// A store by the running process into its own address space: the
    /// address translates through the process's page table to a frame and
    /// the byte lands in that frame. An address the process has not
    /// mapped faults.
    pub fn user_write(&mut self, pid: ProcId, va: u64, val: u8) -> (r: Result<(), KernelError>)
        requires
            old(self).wf(),
        ensures
            final(self).wf(),
            final(self).procs@.len() == old(self).procs@.len(),
            final(self).procs == old(self).procs,
            final(self).scheduler == old(self).scheduler,
            final(self).physical == old(self).physical,
            final(self).kernel_pt == old(self).kernel_pt,
            forall|i: int|
                0 <= i < old(self).procs@.len() && (#[trigger] old(self).procs@[i]).id == pid
                    ==> match old(self).procs@[i].page_table {
                    Some(pt) => match pt.spec_translate(
                        PageSize::Size4K,
                        (((va as int) / 0x1000) * 0x1000) as u64,
                    ) {
                        Some(fr) => {
                            &&& r is Ok
                            &&& spec_frame_byte(
                                final(self).frames.entries@,
                                fr.0,
                                (va % 0x1000) as int,
                            ) == val
                            &&& forall|k: u64, o: int|
                                !(k == fr.0 && o == va % 0x1000) && 0 <= o < 4096
                                    ==> spec_frame_byte(final(self).frames.entries@, k, o)
                                    == spec_frame_byte(old(self).frames.entries@, k, o)
                        },
                        None => r is Err && final(self).frames == old(self).frames,
                    },
                    None => r is Err && final(self).frames == old(self).frames,
                },
    {
        let i = match self.find_proc(pid) {
            Some(i) => i,
            None => {
                return Err(KernelError::NotFound);
            },
        };
        let page = (va / 0x1000) * 0x1000;
        let off = (va % 0x1000) as usize;
        let fr = {
            let pr = &self.procs[i];
            match &pr.page_table {
                Some(pt) => pt.try_translate(PageSize::Size4K, page),
                None => {
                    return Err(KernelError::InvalidArgument);
                },
            }
        };
        let r = match fr {
            Some(f) => {
                self.frames.write(f.0, off, val);
                Ok(())
            },
            None => Err(KernelError::InvalidArgument),
        };
        proof {
            assert forall|j: int|
                0 <= j < old(self).procs@.len() && (#[trigger] old(self).procs@[j]).id
                    == pid implies j == i as int by {
                if j != i as int {
                    assert(old(self).procs@[j].id != old(self).procs@[i as int].id);
                }
            }
        }
        r
    }

    /// A load by the running process from its own address space; an
    /// address the process has not mapped faults.
    pub fn user_read(&self, pid: ProcId, va: u64) -> (r: Result<u8, KernelError>)
        requires
            self.wf(),
        ensures
            forall|i: int|
                0 <= i < self.procs@.len() && (#[trigger] self.procs@[i]).id == pid
                    ==> match self.procs@[i].page_table {
                    Some(pt) => match pt.spec_translate(
                        PageSize::Size4K,
                        (((va as int) / 0x1000) * 0x1000) as u64,
                    ) {
                        Some(fr) => r == Ok::<u8, KernelError>(
                            spec_frame_byte(self.frames.entries@, fr.0, (va % 0x1000) as int),
                        ),
                        None => r is Err,
                    },
                    None => r is Err,
                },
    {
        let i = match self.find_proc(pid) {
            Some(i) => i,
            None => {
                return Err(KernelError::NotFound);
            },
        };
        let page = (va / 0x1000) * 0x1000;
        let off = (va % 0x1000) as usize;
        proof {
            assert forall|j: int|
                0 <= j < self.procs@.len() && (#[trigger] self.procs@[j]).id == pid implies j
                == i as int by {
                if j != i as int {
                    assert(self.procs@[j].id != self.procs@[i as int].id);
                }
            }
        }
        let pr = &self.procs[i];
        match &pr.page_table {
            Some(pt) => match pt.try_translate(PageSize::Size4K, page) {
                Some(f) => Ok(self.frames.read(f.0, off)),
                None => Err(KernelError::InvalidArgument),
            },
            None => Err(KernelError::InvalidArgument),
        }
    }
}

/// The registry name of the process-management module.
pub open spec fn spec_pm_name() -> Seq<u8> {
    seq![0x70u8, 0x6du8]
}

/// The parts of the kernel a process-management request never touches.
pub open spec fn spec_pm_frame(pre: Kernel, post: Kernel) -> bool {
    &&& post.procs == pre.procs
    &&& post.physical == pre.physical
    &&& post.kernel_pt == pre.kernel_pt
    &&& post.heap == pre.heap
    &&& post.frames == pre.frames
    &&& post.modules == pre.modules
    &&& post.init_fs == pre.init_fs
    &&& post.klog == pre.klog
    &&& post.pending_results == pre.pending_results
    &&& post.halted == pre.halted
    &&& post.next_proc == pre.next_proc
    &&& post.next_task == pre.next_task
    &&& post.scheduler.tasks@.len() == pre.scheduler.tasks@.len()
}

/// What each process-management request kind does: the contract the `pm`
/// routing layer serves, spelled out once and shared by every caller up
/// to the syscall stubs.
pub open spec fn spec_pm_effect(
    pre: Kernel,
    post: Kernel,
    kind: usize,
    a: usize,
    b: usize,
    r: isize,
) -> bool {
    &&& spec_pm_frame(pre, post)
    &&& if kind == 0 {
        if pre.mutexes@.len() < 0x7fff_ffff {
            &&& r == pre.mutexes@.len()
            &&& post.mutexes@.len() == pre.mutexes@.len() + 1
            &&& !post.mutexes@.last().is_locked
            &&& post.mutexes@.last().waiters@.len() == 0
            &&& post.scheduler == pre.scheduler
            &&& post.condvars == pre.condvars
        } else {
            r == -1 && post.mutexes == pre.mutexes && post.condvars == pre.condvars
                && post.scheduler == pre.scheduler
        }
    } else if kind == 1 {
        if a < pre.mutexes@.len() && pre.scheduler.current_task is Some
            && pre.scheduler.task_queue@.len() > 0 {
            &&& post.condvars == pre.condvars
            &&& post.mutexes@.len() == pre.mutexes@.len()
            &&& post.mutexes@[a as int].is_locked
            &&& forall|j: int|
                0 <= j < pre.mutexes@.len() && j != a ==> post.mutexes@[j] == pre.mutexes@[j]
            &&& if !pre.mutexes@[a as int].is_locked {
                &&& r == 1
                &&& post.mutexes@[a as int].waiters == pre.mutexes@[a as int].waiters
                &&& post.scheduler == pre.scheduler
            } else {
                &&& r == 0
                &&& post.mutexes@[a as int].waiters@ == pre.mutexes@[a as int].waiters@.push(
                    pre.scheduler.current_task->Some_0,
                )
                &&& post.scheduler.current_task == Some(pre.scheduler.task_queue@[0])
                &&& post.scheduler.task_queue@ == pre.scheduler.task_queue@.drop_first()
            }
        } else {
            r == -1 && post.mutexes == pre.mutexes && post.condvars == pre.condvars
                && post.scheduler == pre.scheduler
        }
    } else if kind == 2 {
        if a < pre.mutexes@.len() {
            &&& r == 0
            &&& post.condvars == pre.condvars
            &&& post.mutexes@.len() == pre.mutexes@.len()
            &&& !post.mutexes@[a as int].is_locked
            &&& post.mutexes@[a as int].waiters@.len() == 0
            &&& forall|j: int|
                0 <= j < pre.mutexes@.len() && j != a ==> post.mutexes@[j] == pre.mutexes@[j]
            &&& post.scheduler.current_task == pre.scheduler.current_task
            &&& forall|id: TaskId|
                pre.mutexes@[a as int].waiters@.contains(id) && id_in_state(
                    pre.scheduler.tasks@,
                    id,
                    TaskState::Blocked,
                ) ==> id_in_state(post.scheduler.tasks@, id, TaskState::Ready)
        } else {
            r == -1 && post.mutexes == pre.mutexes && post.condvars == pre.condvars
                && post.scheduler == pre.scheduler
        }
    } else if kind == 3 {
        if a < pre.mutexes@.len() {
            &&& r == 0
            &&& post.condvars == pre.condvars
            &&& post.scheduler == pre.scheduler
            &&& post.mutexes@.len() == pre.mutexes@.len()
            &&& !post.mutexes@[a as int].is_locked
            &&& post.mutexes@[a as int].waiters@.len() == 0
            &&& forall|j: int|
                0 <= j < pre.mutexes@.len() && j != a ==> post.mutexes@[j] == pre.mutexes@[j]
        } else {
            r == -1 && post.mutexes == pre.mutexes && post.condvars == pre.condvars
                && post.scheduler == pre.scheduler
        }
    } else if kind == 4 {
        if pre.condvars@.len() < 0x7fff_ffff {
            &&& r == pre.condvars@.len()
            &&& post.condvars@.len() == pre.condvars@.len() + 1
            &&& post.condvars@.last().waiters@.len() == 0
            &&& post.scheduler == pre.scheduler
            &&& post.mutexes == pre.mutexes
        } else {
            r == -1 && post.mutexes == pre.mutexes && post.condvars == pre.condvars
                && post.scheduler == pre.scheduler
        }
    } else if kind == 5 {
        if a < pre.condvars@.len() && b < pre.mutexes@.len() && pre.scheduler.current_task
            is Some {
            &&& (r == 0 || r == -1)
            &&& r == 0 ==> {
                &&& post.condvars@.len() == pre.condvars@.len()
                &&& post.condvars@[a as int].waiters@ == pre.condvars@[a as int].waiters@.push(
                    pre.scheduler.current_task->Some_0,
                )
                &&& forall|j: int|
                    0 <= j < pre.condvars@.len() && j != a ==> post.condvars@[j]
                        == pre.condvars@[j]
                &&& post.mutexes@.len() == pre.mutexes@.len()
                &&& !post.mutexes@[b as int].is_locked
                &&& post.mutexes@[b as int].waiters@.len() == 0
                &&& forall|j: int|
                    0 <= j < pre.mutexes@.len() && j != b ==> post.mutexes@[j] == pre.mutexes@[j]
                &&& id_in_state(
                    post.scheduler.tasks@,
                    pre.scheduler.current_task->Some_0,
                    TaskState::Blocked,
                )
                &&& post.scheduler.current_task != pre.scheduler.current_task
            }
        } else {
            r == -1 && post.mutexes == pre.mutexes && post.condvars == pre.condvars
                && post.scheduler == pre.scheduler
        }
    } else if kind == 6 {
        if a < pre.condvars@.len() {
            &&& r == 0
            &&& post.mutexes == pre.mutexes
            &&& post.condvars@.len() == pre.condvars@.len()
            &&& post.condvars@[a as int].waiters@.len() == 0
            &&& forall|j: int|
                0 <= j < pre.condvars@.len() && j != a ==> post.condvars@[j] == pre.condvars@[j]
            &&& post.scheduler.current_task == pre.scheduler.current_task
            &&& forall|id: TaskId|
                pre.condvars@[a as int].waiters@.contains(id) && id_in_state(
                    pre.scheduler.tasks@,
                    id,
                    TaskState::Blocked,
                ) ==> id_in_state(post.scheduler.tasks@, id, TaskState::Ready)
        } else {
            r == -1 && post.mutexes == pre.mutexes && post.condvars == pre.condvars
                && post.scheduler == pre.scheduler
        }
    } else if kind == 7 {
        if a < pre.condvars@.len() {
            &&& r == 0
            &&& post.mutexes == pre.mutexes
            &&& post.scheduler == pre.scheduler
            &&& post.condvars@.len() == pre.condvars@.len()
            &&& post.condvars@[a as int].waiters@.len() == 0
            &&& forall|j: int|
                0 <= j < pre.condvars@.len() && j != a ==> post.condvars@[j] == pre.condvars@[j]
        } else {
            r == -1 && post.mutexes == pre.mutexes && post.condvars == pre.condvars
                && post.scheduler == pre.scheduler
        }
    } else {
        r == -1 && post.mutexes == pre.mutexes && post.condvars == pre.condvars
            && post.scheduler == pre.scheduler
    }
}

/// What `sbrk` does: nothing for an unknown process, a process still on
/// the shared kernel table, a request past the arena end, or a pool too
/// small for the pages and their tables; otherwise the mark advances by
/// whole pages from its aligned position and every new page translates
/// to a frame with user data rights.
/// `sbrk` refused the request and left every observable part of the
/// kernel as it was.
pub open spec fn spec_sbrk_noop(pre: Kernel, post: Kernel, r: Option<(u64, u64)>) -> bool {
    &&& r is None
    &&& post.procs@ == pre.procs@
    &&& post.scheduler == pre.scheduler
    &&& post.physical == pre.physical
    &&& post.heap == pre.heap
    &&& post.kernel_pt == pre.kernel_pt
    &&& post.frames == pre.frames
    &&& post.modules == pre.modules
    &&& post.init_fs == pre.init_fs
    &&& post.user_strings == pre.user_strings
    &&& post.klog == pre.klog
    &&& post.pending_results == pre.pending_results
    &&& post.mutexes == pre.mutexes
    &&& post.condvars == pre.condvars
    &&& post.halted == pre.halted
    &&& post.next_proc == pre.next_proc
    &&& post.next_task == pre.next_task
}

pub open spec fn spec_sbrk_effect(
    pre: Kernel,
    post: Kernel,
    pid: ProcId,
    num_pages: int,
    r: Option<(u64, u64)>,
) -> bool {
    if !(exists|i: int| 0 <= i < pre.procs@.len() && (#[trigger] pre.procs@[i]).id == pid) {
        spec_sbrk_noop(pre, post, r)
    } else {
        exists|i: int|
            {
                &&& 0 <= i < pre.procs@.len()
                &&& (#[trigger] pre.procs@[i]).id == pid
                &&& {
                    let hw = pre.procs@[i].virtual_memory_highwater;
                    let base = spec_align_up(hw as int, 0x1000);
                    match pre.procs@[i].page_table {
                        None => spec_sbrk_noop(pre, post, r),
                        Some(pt) => {
                            if base + num_pages * 0x1000 > USER_SPACE_END
                                || spec_free_bytes(pre.physical.ranges@)
                                < num_pages * 0x4000 {
                                spec_sbrk_noop(pre, post, r)
                            } else {
                                &&& r == Some((base as u64, (base + num_pages * 0x1000) as u64))
                                &&& post.procs@.len() == pre.procs@.len()
                                &&& post.procs@[i].id == pid
                                &&& post.procs@[i].virtual_memory_highwater == base + num_pages
                                    * 0x1000
                                &&& forall|j: int|
                                    0 <= j < pre.procs@.len() && j != i ==> (#[trigger] post
                                        .procs@[j]) == pre.procs@[j]
                                &&& match post.procs@[i].page_table {
                                    Some(pt2) => forall|jj: int|
                                        0 <= jj < num_pages ==> #[trigger] Kernel::spec_user_mapped(
                                            pt2,
                                            (base + jj * 0x1000) as u64,
                                        ),
                                    None => false,
                                }
                                &&& post.scheduler == pre.scheduler
                                &&& post.init_fs == pre.init_fs
                                &&& post.user_strings == pre.user_strings
                                &&& post.modules == pre.modules
                                &&& post.klog == pre.klog
                                &&& post.pending_results == pre.pending_results
                                &&& post.halted == pre.halted
                                &&& post.physical.initial_bytes == pre.physical.initial_bytes
                            }
                        },
                    }
                }
            }
    }
}

/// What `exec` does: nothing on a bad handle, a missing path, or
/// exhausted ids; otherwise the child process exists around the named
/// image, the calling task sits on the child's monitor and is blocked,
/// and the child's process id comes back.
pub open spec fn spec_exec_effect(pre: Kernel, post: Kernel, h: usize, r: isize) -> bool {
    if h >= pre.user_strings@.len() || pre.next_proc > 0x7fff_ffff || pre.next_task >= usize::MAX
        - 1 {
        r == -1 && post == pre
    } else {
        let path = pre.user_strings@[h as int]@;
        if !(exists|fi: int| 0 <= fi < pre.init_fs@.len() && (#[trigger] pre.init_fs@[fi]).0@
            == path) {
            r == -1 && post == pre
        } else {
            &&& r == pre.next_proc
            &&& post.procs@.len() == pre.procs@.len() + 1
            &&& exists|fi: int|
                0 <= fi < pre.init_fs@.len() && (#[trigger] pre.init_fs@[fi]).0@ == path && (
                match post.procs@.last().user_elf {
                    Some(img) => img@ == pre.init_fs@[fi].1@,
                    None => false,
                })
            &&& post.procs@.last().id.0 == pre.next_proc
            &&& post.procs@.last().monitor@ == seq![pre.scheduler.current_task->Some_0]
            &&& forall|j: int| 0 <= j < pre.procs@.len() ==> post.procs@[j] == pre.procs@[j]
            &&& id_in_state(
                post.scheduler.tasks@,
                pre.scheduler.current_task->Some_0,
                TaskState::Blocked,
            )
            &&& post.scheduler.current_task != pre.scheduler.current_task
            &&& post.scheduler.tasks@.len() == pre.scheduler.tasks@.len() + 1
            &&& post.init_fs == pre.init_fs
            &&& post.user_strings == pre.user_strings
            &&& post.modules == pre.modules
            &&& post.mutexes == pre.mutexes
            &&& post.condvars == pre.condvars
            &&& post.klog == pre.klog
            &&& post.pending_results == pre.pending_results
            &&& post.halted == pre.halted
            &&& post.physical == pre.physical
            &&& post.heap == pre.heap
            &&& post.frames == pre.frames
        }
    }
}

/// What `exit` does: nothing for an unknown process; otherwise the
/// process leaves the table, every blocked task on its monitor becomes
/// ready with the process id recorded as its pending result, and the id
/// comes back to the caller.
pub open spec fn spec_exit_effect(pre: Kernel, post: Kernel, pid: ProcId, r: isize) -> bool {
    if !(exists|i: int| 0 <= i < pre.procs@.len() && (#[trigger] pre.procs@[i]).id == pid) {
        r == -1 && post == pre
    } else {
        exists|i: int|
            {
                &&& 0 <= i < pre.procs@.len()
                &&& (#[trigger] pre.procs@[i]).id == pid
                &&& post.procs@ == pre.procs@.remove(i)
                &&& r == if pid.0 <= 0x7fff_ffff {
                    pid.0 as int
                } else {
                    0
                }
                &&& (pid.0 <= 0x7fff_ffff ==> post.pending_results@ == pre.pending_results@
                    + pre.procs@[i].monitor@.map_values(|t: TaskId| (t, pid.0 as isize)))
                &&& forall|tid: TaskId|
                    pre.procs@[i].monitor@.contains(tid) && id_in_state(
                        pre.scheduler.tasks@,
                        tid,
                        TaskState::Blocked,
                    ) ==> id_in_state(post.scheduler.tasks@, tid, TaskState::Ready)
                &&& post.modules == pre.modules
                &&& post.init_fs == pre.init_fs
                &&& post.user_strings == pre.user_strings
                &&& post.klog == pre.klog
                &&& post.mutexes == pre.mutexes
                &&& post.condvars == pre.condvars
                &&& post.halted == pre.halted
                &&& post.next_proc == pre.next_proc
                &&& post.next_task == pre.next_task
                &&& post.physical.initial_bytes == pre.physical.initial_bytes
            }
    }
}

impl Kernel {
    /// Register an in-kernel module by name; loading its image is the ELF
    /// collaborator's work, outside this core, so only the name enters the
    /// registry here. A name registered twice is kept once and the second
    /// registration reports that nothing changed.
    pub fn register(&mut self, name: Vec<u8>, elf: Vec<u8>) -> (r: bool)
        requires
            old(self).wf(),
        ensures
            final(self).wf(),
            r <==> !(exists|i: int|
                0 <= i < old(self).modules@.len() && old(self).modules@[i]@ == name@),
            r ==> final(self).modules@ == old(self).modules@.push(name),
            !r ==> final(self).modules@ == old(self).modules@,
            exists|i: int| 0 <= i < final(self).modules@.len() && final(self).modules@[i]@ == name@,
    {
        let _ = elf;
        let n = self.modules.len();
        let mut i: usize = 0;
        while i < n
            invariant
                0 <= i <= n,
                n == self.modules@.len(),
                self.wf(),
                *self == *old(self),
                forall|k: int| 0 <= k < i ==> (#[trigger] self.modules@[k])@ != name@,
            decreases n - i,
        {
            if bytes_eq(&self.modules[i], &name) {
                return false;
            }
            i = i + 1;
        }
        self.modules.push(name);
        proof {
            assert(self.modules@[n as int]@ == name@);
        }
        true
    }

    /// Route a process-management request: the mutex and condvar
    /// operations the `pm` module serves. Handles index the kernel's
    /// tables; a bad handle or kind is rejected, never dereferenced.
    pub fn pm_call(&mut self, kind: usize, a: usize, b: usize) -> (r: isize)
        requires
            old(self).wf(),
        ensures
            final(self).wf(),
            spec_pm_effect(*old(self), *final(self), kind, a, b, r),
    {
        if kind == 0 {
            // create a mutex
            if self.mutexes.len() >= 0x7fff_ffff {
                return -1;
            }
            let id = self.mutexes.len();
            self.mutexes.push(RawMutex::new());
            id as isize
        } else if kind == 1 {
            // lock: one attempt by the current task; 1 taken, 0 blocked
            if a >= self.mutexes.len() {
                return -1;
            }
            let cur = self.scheduler.get_current_task_id();
            if matches!(cur, Option::None) {
                return -1;
            }
            if self.task_queue_len() == 0 {
                return -1;
            }
            let mut m = RawMutex::new();
            self.mutexes.set_and_swap(a, &mut m);
            let acquired = m.lock(&mut self.scheduler);
            self.mutexes.set_and_swap(a, &mut m);
            if acquired {
                1
            } else {
                0
            }
        } else if kind == 2 {
            // unlock: clear the bit and wake every waiter
            if a >= self.mutexes.len() {
                return -1;
            }
            let mut m = RawMutex::new();
            self.mutexes.set_and_swap(a, &mut m);
            m.is_locked = false;
            self.wake_list(&m.waiters);
            m.waiters.clear();
            self.mutexes.set_and_swap(a, &mut m);
            0
        } else if kind == 3 {
            // destroy: the slot is retired
            if a >= self.mutexes.len() {
                return -1;
            }
            let mut m = RawMutex::new();
            self.mutexes.set_and_swap(a, &mut m);
            0
        } else if kind == 4 {
            // create a condvar
            if self.condvars.len() >= 0x7fff_ffff {
                return -1;
            }
            let id = self.condvars.len();
            self.condvars.push(RawCondvar::new());
            id as isize
        } else if kind == 5 {
            // wait: enqueue on the condvar, release the mutex, block
            if a >= self.condvars.len() || b >= self.mutexes.len() {
                return -1;
            }
            let t = match self.scheduler.get_current_task_id() {
                Some(t) => t,
                None => {
                    return -1;
                },
            };
            let mut m = RawMutex::new();
            self.mutexes.set_and_swap(b, &mut m);
            m.is_locked = false;
            self.wake_list(&m.waiters);
            m.waiters.clear();
            self.mutexes.set_and_swap(b, &mut m);
            let mut cv = RawCondvar::new();
            self.condvars.set_and_swap(a, &mut cv);
            cv.waiters.push(t);
            self.condvars.set_and_swap(a, &mut cv);
            if self.task_queue_len() == 0 {
                return -1;
            }
            self.scheduler.freeze_current_task();
            0
        } else if kind == 6 {
            // notify all: every waiter wakes exactly once
            if a >= self.condvars.len() {
                return -1;
            }
            let mut cv = RawCondvar::new();
            self.condvars.set_and_swap(a, &mut cv);
            self.wake_list(&cv.waiters);
            cv.waiters.clear();
            self.condvars.set_and_swap(a, &mut cv);
            0
        } else if kind == 7 {
            // destroy: the slot is retired
            if a >= self.condvars.len() {
                return -1;
            }
            let mut cv = RawCondvar::new();
            self.condvars.set_and_swap(a, &mut cv);
            0
        } else {
            -1
        }
    }

    /// Length of the ready queue.
    fn task_queue_len(&self) -> (r: usize)
        ensures
            r == self.scheduler.task_queue@.len(),
    {
        self.scheduler.task_queue.len()
    }

    /// Wake every task in the list, in order.
    fn wake_list(&mut self, ws: &Vec<TaskId>)
        requires
            old(self).scheduler.wf(),
        ensures
            final(self).scheduler.wf(),
            final(self).scheduler.tasks@.len() == old(self).scheduler.tasks@.len(),
            forall|i: int|
                0 <= i < old(self).scheduler.tasks@.len() ==> (#[trigger] final(self).scheduler.tasks@[i]).id == old(self).scheduler.tasks@[i].id,
            final(self).scheduler.current_task == old(self).scheduler.current_task,
            forall|id: TaskId|
                ws@.contains(id) && id_in_state(old(self).scheduler.tasks@, id, TaskState::Blocked)
                    ==> id_in_state(final(self).scheduler.tasks@, id, TaskState::Ready),
            final(self).physical == old(self).physical,
            final(self).kernel_pt == old(self).kernel_pt,
            final(self).heap == old(self).heap,
            final(self).procs == old(self).procs,
            final(self).frames == old(self).frames,
            final(self).mutexes == old(self).mutexes,
            final(self).condvars == old(self).condvars,
            final(self).modules == old(self).modules,
            final(self).init_fs == old(self).init_fs,
            final(self).user_strings == old(self).user_strings,
            final(self).klog == old(self).klog,
            final(self).pending_results == old(self).pending_results,
            final(self).halted == old(self).halted,
            final(self).next_proc == old(self).next_proc,
            final(self).next_task == old(self).next_task,
    {
        let n = ws.len();
        let mut i: usize = 0;
        while i < n
            invariant
                0 <= i <= n,
                n == ws@.len(),
                self.scheduler.wf(),
                self.scheduler.tasks@.len() == old(self).scheduler.tasks@.len(),
                forall|k: int|
                    0 <= k < old(self).scheduler.tasks@.len() ==> (#[trigger] self
                        .scheduler.tasks@[k]).id == old(self).scheduler.tasks@[k].id,
                self.scheduler.current_task == old(self).scheduler.current_task,
                forall|id: TaskId|
                    #![trigger id_in_state(old(self).scheduler.tasks@, id, TaskState::Blocked)]
                    {
                        &&& (ws@.subrange(0, i as int).contains(id) && id_in_state(
                            old(self).scheduler.tasks@,
                            id,
                            TaskState::Blocked,
                        ) ==> id_in_state(self.scheduler.tasks@, id, TaskState::Ready))
                        &&& (id_in_state(old(self).scheduler.tasks@, id, TaskState::Blocked)
                            && !id_in_state(self.scheduler.tasks@, id, TaskState::Ready)
                            ==> id_in_state(self.scheduler.tasks@, id, TaskState::Blocked))
                    },
                self.physical == old(self).physical,
                self.kernel_pt == old(self).kernel_pt,
                self.heap == old(self).heap,
                self.procs == old(self).procs,
                self.frames == old(self).frames,
                self.mutexes == old(self).mutexes,
                self.condvars == old(self).condvars,
                self.modules == old(self).modules,
                self.init_fs == old(self).init_fs,
                self.user_strings == old(self).user_strings,
                self.klog == old(self).klog,
                self.pending_results == old(self).pending_results,
                self.halted == old(self).halted,
                self.next_proc == old(self).next_proc,
                self.next_task == old(self).next_task,
            decreases n - i,
        {
            let ghost before = *self;
            let w = ws[i];
            self.scheduler.wake_up(w);
            proof {
                assert(ws@.subrange(0, i as int + 1).contains(w)) by {
                    assert(ws@.subrange(0, i as int + 1)[i as int] == w);
                }
                if id_in_state(before.scheduler.tasks@, w, TaskState::Blocked) {
                    let wi = choose|wi: int|
                        {
                            &&& 0 <= wi < before.scheduler.tasks@.len()
                            &&& before.scheduler.tasks@[wi].id == w
                            &&& self.scheduler.tasks@ == before.scheduler.tasks@.update(
                                wi,
                                Task {
                                    id: w,
                                    proc: before.scheduler.tasks@[wi].proc,
                                    context: before.scheduler.tasks@[wi].context,
                                    sched: SchedulerState {
                                        run_state: TaskState::Ready,
                                        time_slice_units: before.scheduler.tasks@[wi]
                                            .sched.time_slice_units,
                                    },
                                },
                            )
                        };
                    assert forall|id: TaskId|
                        ws@.subrange(0, i as int + 1).contains(id) && id_in_state(
                            old(self).scheduler.tasks@,
                            id,
                            TaskState::Blocked,
                        ) implies id_in_state(self.scheduler.tasks@, id, TaskState::Ready) by {
                        if id == w {
                            assert(self.scheduler.tasks@[wi].id == w && self
                                .scheduler.tasks@[wi].sched.run_state == TaskState::Ready);
                        } else {
                            let qi = choose|qi: int|
                                0 <= qi < i + 1 && (#[trigger] ws@.subrange(0, i as int + 1)[qi])
                                    == id;
                            assert(qi != i) by {
                                assert(ws@.subrange(0, i as int + 1)[i as int] == w);
                            }
                            assert(ws@.subrange(0, i as int).contains(id)) by {
                                assert(ws@.subrange(0, i as int)[qi] == id);
                            }
                            assert(id_in_state(before.scheduler.tasks@, id, TaskState::Ready));
                            let ri = choose|ri: int|
                                0 <= ri < before.scheduler.tasks@.len() && before
                                    .scheduler.tasks@[ri].id == id && before
                                    .scheduler.tasks@[ri].sched.run_state == TaskState::Ready;
                            assert(ri != wi);
                            assert(self.scheduler.tasks@[ri] == before.scheduler.tasks@[ri]);
                        }
                    }
                    assert forall|id: TaskId|
                        id_in_state(old(self).scheduler.tasks@, id, TaskState::Blocked)
                            && !id_in_state(
                            self.scheduler.tasks@,
                            id,
                            TaskState::Ready,
                        ) implies id_in_state(self.scheduler.tasks@, id, TaskState::Blocked) by {
                        if id != w {
                            if id_in_state(before.scheduler.tasks@, id, TaskState::Blocked) {
                                let bi = choose|bi: int|
                                    0 <= bi < before.scheduler.tasks@.len() && before
                                        .scheduler.tasks@[bi].id == id && before
                                        .scheduler.tasks@[bi].sched.run_state
                                        == TaskState::Blocked;
                                assert(bi != wi);
                                assert(self.scheduler.tasks@[bi] == before.scheduler.tasks@[bi]);
                            } else {
                                let ri = choose|ri: int|
                                    0 <= ri < before.scheduler.tasks@.len() && before
                                        .scheduler.tasks@[ri].id == id && before
                                        .scheduler.tasks@[ri].sched.run_state == TaskState::Ready;
                                assert(ri != wi);
                                assert(self.scheduler.tasks@[ri] == before.scheduler.tasks@[ri]);
                                assert(id_in_state(self.scheduler.tasks@, id, TaskState::Ready));
                            }
                        } else {
                            assert(self.scheduler.tasks@[wi].sched.run_state == TaskState::Ready);
                        }
                    }
                } else {
                    assert(self.scheduler.tasks@ == before.scheduler.tasks@);
                    assert forall|id: TaskId|
                        ws@.subrange(0, i as int + 1).contains(id) && id_in_state(
                            old(self).scheduler.tasks@,
                            id,
                            TaskState::Blocked,
                        ) implies id_in_state(self.scheduler.tasks@, id, TaskState::Ready) by {
                        if id == w {
                            assert(!id_in_state(before.scheduler.tasks@, w, TaskState::Blocked));
                            assert(id_in_state(self.scheduler.tasks@, id, TaskState::Ready));
                        } else {
                            let qi = choose|qi: int|
                                0 <= qi < i + 1 && (#[trigger] ws@.subrange(0, i as int + 1)[qi])
                                    == id;
                            assert(qi != i) by {
                                assert(ws@.subrange(0, i as int + 1)[i as int] == w);
                            }
                            assert(ws@.subrange(0, i as int).contains(id)) by {
                                assert(ws@.subrange(0, i as int)[qi] == id);
                            }
                        }
                    }
                }
            }
            i = i + 1;
        }
        proof {
            assert(ws@.subrange(0, n as int) =~= ws@);
        }
    }

    /// Invoke a named module with a four-word payload. Name resolution is
    /// by the registry; the only in-tree handler is the `pm` module, and
    /// a module loaded from an image has its handler outside this core.
    pub fn module_call(
        &mut self,
        name: &Vec<u8>,
        privileged: bool,
        x0: usize,
        x1: usize,
        x2: usize,
        x3: usize,
    ) -> (r: isize)
        requires
            old(self).wf(),
        ensures
            final(self).wf(),
            final(self).modules == old(self).modules,
            name@ == spec_pm_name() ==> spec_pm_effect(*old(self), *final(self), x0, x1, x2, r),
            name@ != spec_pm_name() ==> r == -1 && *final(self) == *old(self),
    {
        let _ = privileged;
        let _ = x3;
        let mut pm_name: Vec<u8> = Vec::new();
        pm_name.push(0x70);
        pm_name.push(0x6d);
        proof {
            assert(pm_name@ =~= spec_pm_name());
        }
        if bytes_eq(name, &pm_name) {
            let r = self.pm_call(x0, x1, x2);
            proof {
                assert(spec_pm_frame(*old(self), *self));
                assert(spec_pm_effect(*old(self), *self, x0, x1, x2, r));
            }
            return r;
        }
        let n = self.modules.len();
        let mut i: usize = 0;
        while i < n
            invariant
                0 <= i <= n,
                n == self.modules@.len(),
                self.wf(),
                *self == *old(self),
                name@ != spec_pm_name(),
            decreases n - i,
        {
            if bytes_eq(&self.modules[i], name) {
                // registered, but its handler lives in a loaded image that
                // this core treats as a collaborator
                return -1;
            }
            i = i + 1;
        }
        -1
    }

    /// Terminate a process: its monitor waiters wake carrying the process
    /// id as their pending result, its settled tasks leave the scheduler,
    /// its user memory returns to the pool, and it leaves the table.
    #[verifier::rlimit(100)]
    pub fn exit(&mut self, pid: ProcId) -> (r: isize)
        requires
            old(self).wf(),
        ensures
            final(self).wf(),
            spec_exit_effect(*old(self), *final(self), pid, r),
    {
        let ghost k0 = *old(self);
        let i = match self.find_proc(pid) {
            Some(i) => i,
            None => {
                return -1;
            },
        };
        let mut p = dummy_proc();
        self.procs.set_and_swap(i, &mut p);
        let ghost pmid = self.procs@;
        let Proc { id, threads, page_table, virtual_memory_highwater, dead, monitor, user_elf } = p;
        let _ = virtual_memory_highwater;
        let _ = dead;
        let _ = user_elf;
        // wake everyone waiting on the monitor ...
        self.wake_list(&monitor);
        // ... and record the result each resumes with
        let deliver = id.0 <= 0x7fff_ffff;
        let mut w: usize = 0;
        let wn = monitor.len();
        while w < wn
            invariant
                0 <= w <= wn,
                wn == monitor@.len(),
                deliver == (id.0 <= 0x7fff_ffff),
                self.scheduler.wf(),
                self.physical == k0.physical,
                self.kernel_pt == k0.kernel_pt,
                self.heap == k0.heap,
                self.frames == k0.frames,
                self.procs@ == pmid,
                self.mutexes == k0.mutexes,
                self.condvars == k0.condvars,
                self.modules == k0.modules,
                self.init_fs == k0.init_fs,
                self.user_strings == k0.user_strings,
                self.klog == k0.klog,
                self.halted == k0.halted,
                self.next_proc == k0.next_proc,
                self.next_task == k0.next_task,
                (i as int) < pmid.len(),
                deliver ==> self.pending_results@ == k0.pending_results@ + monitor@.subrange(
                    0,
                    w as int,
                ).map_values(|t: TaskId| (t, id.0 as isize)),
                !deliver ==> self.pending_results == k0.pending_results,
                forall|j: int|
                    0 <= j < self.scheduler.tasks@.len() ==> (
                    #[trigger] self.scheduler.tasks@[j]).id.0 < self.next_task,
                forall|tid: TaskId|
                    monitor@.contains(tid) && id_in_state(
                        k0.scheduler.tasks@,
                        tid,
                        TaskState::Blocked,
                    ) ==> id_in_state(self.scheduler.tasks@, tid, TaskState::Ready),
            decreases wn - w,
        {
            if deliver {
                self.pending_results.push((monitor[w], id.0 as isize));
                proof {
                    assert(self.pending_results@ =~= k0.pending_results@ + monitor@.subrange(
                        0,
                        w as int + 1,
                    ).map_values(|t: TaskId| (t, id.0 as isize)));
                }
            }
            w = w + 1;
        }
        proof {
            assert(monitor@.subrange(0, wn as int) =~= monitor@);
        }
        // take the process's settled tasks out of the scheduler
        let mut t: usize = 0;
        let tn = threads.len();
        while t < tn
            invariant
                0 <= t <= tn,
                tn == threads@.len(),
                self.scheduler.wf(),
                self.physical == k0.physical,
                self.kernel_pt == k0.kernel_pt,
                self.heap == k0.heap,
                self.frames == k0.frames,
                self.procs@ == pmid,
                self.mutexes == k0.mutexes,
                self.condvars == k0.condvars,
                self.modules == k0.modules,
                self.init_fs == k0.init_fs,
                self.user_strings == k0.user_strings,
                self.klog == k0.klog,
                self.halted == k0.halted,
                self.next_proc == k0.next_proc,
                self.next_task == k0.next_task,
                (i as int) < pmid.len(),
                deliver ==> self.pending_results@ == k0.pending_results@ + monitor@.map_values(
                    |tt: TaskId| (tt, id.0 as isize),
                ),
                !deliver ==> self.pending_results == k0.pending_results,
                forall|j: int|
                    0 <= j < self.scheduler.tasks@.len() ==> (
                    #[trigger] self.scheduler.tasks@[j]).id.0 < self.next_task,
                forall|tid2: TaskId|
                    monitor@.contains(tid2) && id_in_state(
                        k0.scheduler.tasks@,
                        tid2,
                        TaskState::Blocked,
                    ) ==> id_in_state(self.scheduler.tasks@, tid2, TaskState::Ready),
            decreases tn - t,
        {
            let tid = threads[t];
            let lookup = self.scheduler.get_task_by_id(tid);
            let removable = match lookup {
                Some(task) => !matches!(task.sched.run_state, TaskState::Ready),
                None => false,
            };
            if removable {
                proof {
                    let task = lookup->Some_0;
                    let k = choose|k: int|
                        0 <= k < self.scheduler.tasks@.len() && self.scheduler.tasks@[k] == task;
                    if id_in_state(self.scheduler.tasks@, tid, TaskState::Ready) {
                        let j = choose|j: int|
                            0 <= j < self.scheduler.tasks@.len() && self.scheduler.tasks@[j].id
                                == tid && self.scheduler.tasks@[j].sched.run_state
                                == TaskState::Ready;
                        if j != k {
                            assert(self.scheduler.tasks@[j].id != self.scheduler.tasks@[k].id);
                        }
                        assert(false);
                    }
                }
                let ghost sbefore = self.scheduler.tasks@;
                self.scheduler.remove_task(tid);
                proof {
                    let ghost safter = self.scheduler.tasks@;
                    let ri = choose|ri: int|
                        0 <= ri < sbefore.len() && sbefore[ri].id == tid && safter == sbefore
                            .remove(ri);
                    assert forall|j: int|
                        0 <= j < self.scheduler.tasks@.len() implies (
                    #[trigger] self.scheduler.tasks@[j]).id.0 < self.next_task by {
                        assert(self.scheduler.tasks@ == sbefore.remove(ri));
                        if j < ri {
                            assert(self.scheduler.tasks@[j] == sbefore[j]);
                        } else {
                            assert(self.scheduler.tasks@[j] == sbefore[j + 1]);
                        }
                    }
                    assert forall|tid2: TaskId|
                        monitor@.contains(tid2) && id_in_state(
                            k0.scheduler.tasks@,
                            tid2,
                            TaskState::Blocked,
                        ) implies id_in_state(self.scheduler.tasks@, tid2, TaskState::Ready) by {
                        let wi = choose|wi: int|
                            0 <= wi < sbefore.len() && sbefore[wi].id == tid2 && sbefore[wi]
                                .sched.run_state == TaskState::Ready;
                        assert(wi != ri) by {
                            if wi == ri {
                                assert(sbefore[ri].id == tid && sbefore[ri].id == tid2);
                                assert(!id_in_state(sbefore, tid, TaskState::Ready));
                                assert(id_in_state(sbefore, tid2, TaskState::Ready)) by {
                                    assert(sbefore[wi].id == tid2 && sbefore[wi].sched.run_state
                                        == TaskState::Ready);
                                }
                            }
                        }
                        if wi < ri {
                            assert(safter[wi] == sbefore[wi]);
                        } else {
                            assert(safter[wi - 1] == sbefore[wi]);
                        }
                    }
                }
            }
            t = t + 1;
        }
        // release the user mappings and the table frames themselves; the
        // shared kernel window is a marker in the root and frees nothing
        match page_table {
            Some(pt) => {
                let _ = crate::page_table::release_user_page_table(pt, &mut self.physical);
            },
            None => {},
        }
        self.procs.remove(i);
        proof {
            let s1 = self.procs@;
            let ii = i as int;
            assert(s1 == pmid.remove(ii));
            assert forall|j: int|
                0 <= j < s1.len() implies #[trigger] s1[j] == (if j < ii {
                k0.procs@[j]
            } else {
                k0.procs@[j + 1]
            }) by {
                if j < ii {
                    assert(s1[j] == pmid[j]);
                } else {
                    assert(s1[j] == pmid[j + 1]);
                }
            }
            assert(self.procs@ =~= k0.procs@.remove(ii));
        }
        if deliver {
            id.0 as isize
        } else {
            0
        }
    }

    /// Register a user string (the model of a user pointer crossing the
    /// boundary: the kernel validates handles instead of dereferencing
    /// raw addresses) and hand back its handle.
    pub fn register_user_string(&mut self, text: Vec<u8>) -> (r: Option<usize>)
        requires
            old(self).wf(),
        ensures
            final(self).wf(),
            r is None <==> old(self).user_strings@.len() >= usize::MAX - 1,
            r matches Some(h) ==> h == old(self).user_strings@.len() && final(self).user_strings@ == old(self).user_strings@.push(text),
            final(self).procs == old(self).procs,
            final(self).scheduler == old(self).scheduler,
            final(self).init_fs == old(self).init_fs,
            final(self).modules == old(self).modules,
            final(self).mutexes == old(self).mutexes,
            final(self).condvars == old(self).condvars,
            final(self).klog == old(self).klog,
            final(self).pending_results == old(self).pending_results,
            final(self).halted == old(self).halted,
            final(self).physical == old(self).physical,
            final(self).heap == old(self).heap,
            final(self).kernel_pt == old(self).kernel_pt,
            final(self).frames == old(self).frames,
            final(self).next_proc == old(self).next_proc,
            final(self).next_task == old(self).next_task,
    {
        if self.user_strings.len() >= usize::MAX - 1 {
            return None;
        }
        let h = self.user_strings.len();
        self.user_strings.push(text);
        Some(h)
    }

    /// Place a file in the boot file system image.
    pub fn add_init_file(&mut self, path: Vec<u8>, image: Vec<u8>)
        requires
            old(self).wf(),
        ensures
            final(self).wf(),
            final(self).init_fs@ == old(self).init_fs@.push((path, image)),
            final(self).procs == old(self).procs,
            final(self).scheduler == old(self).scheduler,
    {
        self.init_fs.push((path, image));
    }

    /// Spawn the program at `path` from the boot file system and block
    /// the calling task on the child's monitor; the caller resumes with
    /// the child's process id once the child exits. A missing handle or
    /// path is reported without spawning anything.
    #[verifier::rlimit(100)]
    pub fn exec(&mut self, path_handle: usize) -> (r: isize)
        requires
            old(self).wf(),
            old(self).scheduler.current_task is Some,
        ensures
            final(self).wf(),
            spec_exec_effect(*old(self), *final(self), path_handle, r),
    {
        let ghost k0 = *old(self);
        if self.next_proc > 0x7fff_ffff || self.next_task >= usize::MAX - 1 {
            return -1;
        }
        let path = match self.lookup_user_string(path_handle) {
            Some(p) => p,
            None => {
                return -1;
            },
        };
        let n = self.init_fs.len();
        let mut found: Option<usize> = None;
        let mut i: usize = 0;
        while i < n
            invariant
                0 <= i <= n,
                n == self.init_fs@.len(),
                self.wf(),
                *self == *old(self),
                path@ == old(self).user_strings@[path_handle as int]@,
                path_handle < old(self).user_strings@.len(),
                match found {
                    Some(fi) => fi < n && self.init_fs@[fi as int].0@ == path@,
                    None => forall|k: int|
                        0 <= k < i ==> (#[trigger] self.init_fs@[k]).0@ != path@,
                },
            decreases n + 1 - i,
        {
            if bytes_eq(&self.init_fs[i].0, &path) {
                found = Some(i);
                i = n;
            } else {
                i = i + 1;
            }
        }
        let fi = match found {
            Some(fi) => fi,
            None => {
                return -1;
            },
        };
        let image = copy_bytes(&self.init_fs[fi].1);
        let parent = match self.scheduler.get_current_task_id() {
            Some(t) => t,
            None => unreached(),
        };
        let child = match self.spawn_user(image) {
            Ok(pid) => pid,
            Err(_) => unreached(),
        };
        let ci = match self.find_proc(child) {
            Some(ci) => ci,
            None => {
                proof {
                    assert(self.procs@.last().id == child);
                }
                unreached()
            },
        };
        proof {
            // the fresh child sits at the end of the table
            let last = self.procs@.len() - 1;
            if ci as int != last {
                assert(self.procs@[ci as int].id != self.procs@[last].id);
            }
            assert(ci as int == last);
        }
        let mut p = dummy_proc();
        self.procs.set_and_swap(ci, &mut p);
        let Proc { id, threads, page_table, virtual_memory_highwater, dead, mut monitor, user_elf }
            = p;
        monitor.push(parent);
        let mut back = Proc {
            id,
            threads,
            page_table,
            virtual_memory_highwater,
            dead,
            monitor,
            user_elf,
        };
        self.procs.set_and_swap(ci, &mut back);
        proof {
            assert(self.procs@.last().monitor@ =~= seq![parent]);
            assert(self.scheduler.task_queue@.len() > 0);
            // the parent runs, so it is not waiting in the ready queue and
            // the dispatched head is a different task
            assert(id_in_state(self.scheduler.tasks@, parent, TaskState::Running)) by {
                let ci2 = choose|ci2: int|
                    0 <= ci2 < k0.scheduler.tasks@.len() && k0.scheduler.tasks@[ci2].id == parent
                        && k0.scheduler.tasks@[ci2].sched.run_state == TaskState::Running;
                assert(self.scheduler.tasks@[ci2].id == parent && self
                    .scheduler.tasks@[ci2].sched.run_state == TaskState::Running);
            }
        }
        let next = self.scheduler.freeze_current_task();
        proof {
            if next == parent {
                let ri = choose|ri: int|
                    0 <= ri < self.scheduler.tasks@.len() && self.scheduler.tasks@[ri].id == next
                        && self.scheduler.tasks@[ri].sched.run_state == TaskState::Running;
                let bi = choose|bi: int|
                    0 <= bi < self.scheduler.tasks@.len() && self.scheduler.tasks@[bi].id
                        == parent && self.scheduler.tasks@[bi].sched.run_state
                        == TaskState::Blocked;
            }
        }
        child.0 as isize
    }

    /// Fetch a registered user string by handle.    /// Fetch a registered user string by handle.
    fn lookup_user_string(&self, h: usize) -> (r: Option<Vec<u8>>)
        ensures
            r is Some <==> h < self.user_strings@.len(),
            r matches Some(v) ==> v@ == self.user_strings@[h as int]@,
    {
        if h < self.user_strings.len() {
            Some(copy_bytes(&self.user_strings[h]))
        } else {
            None
        }
    }

    /// The post-decode syscall entry: dispatch on the id with five plain
    /// words, as the trap handler does after reading the argument
    /// registers. String arguments arrive as validated handles.
    #[verifier::rlimit(100)]
    #[verifier::spinoff_prover]
    pub fn handle_syscall(
        &mut self,
        syscall_id: usize,
        a: usize,
        b: usize,
        c: usize,
        d: usize,
        e: usize,
    ) -> (r: isize)
        requires
            old(self).wf(),
            syscall_id <= 6,
        ensures
            final(self).wf(),
            syscall_id == 6 ==> final(self).halted == Some(a) && r == 0,
            syscall_id == 0 && a < old(self).user_strings@.len() ==> r == 0 && final(self).klog@.len() == old(self).klog@.len() + 1 && final(self).klog@.last()@ == old(self).user_strings@[a as int]@,
            syscall_id == 0 && a >= old(self).user_strings@.len() ==> r < 0,
            syscall_id == 1 && a < old(self).user_strings@.len() && old(self).user_strings@[a as int]@ == spec_pm_name() ==> spec_pm_effect(
                *old(self),
                *final(self),
                b,
                c,
                d,
                r,
            ),
            syscall_id == 1 && a >= old(self).user_strings@.len() ==> r < 0,
            syscall_id == 2 && old(self).scheduler.current_task is Some && old(self).scheduler.task_queue@.len() > 0 ==> {
                &&& r == 0
                &&& final(self).scheduler.current_task == Some(
                    old(self).scheduler.task_queue@[0],
                )
                &&& final(self).scheduler.task_queue@ == old(self).scheduler.task_queue@.drop_first()
                &&& (final(self).scheduler.current_task != old(self).scheduler.current_task
                    ==> id_in_state(
                    final(self).scheduler.tasks@,
                    old(self).scheduler.current_task->Some_0,
                    TaskState::Blocked,
                ))
            },
            syscall_id == 3 && old(self).scheduler.current_task is Some ==> exists|ti: int|
                {
                    &&& 0 <= ti < old(self).scheduler.tasks@.len()
                    &&& (#[trigger] old(self).scheduler.tasks@[ti]).id == old(self).scheduler.current_task->Some_0
                    &&& exists|ro: Option<(u64, u64)>|
                        {
                            &&& #[trigger] spec_sbrk_effect(
                                *old(self),
                                *final(self),
                                old(self).scheduler.tasks@[ti].proc,
                                a as int / 0x1000,
                                ro,
                            )
                            &&& (ro matches Some(rg) ==> r == rg.0 as isize)
                            &&& (ro is None ==> r == -1)
                        }
                },
            syscall_id == 4 && old(self).scheduler.current_task is Some ==> spec_exec_effect(
                *old(self),
                *final(self),
                a,
                r,
            ),
            syscall_id == 5 && old(self).scheduler.current_task is Some ==> exists|ti: int|
                {
                    &&& 0 <= ti < old(self).scheduler.tasks@.len()
                    &&& (#[trigger] old(self).scheduler.tasks@[ti]).id == old(self).scheduler.current_task->Some_0
                    &&& ((exists|pi: int|
                        0 <= pi < old(self).procs@.len() && (#[trigger] old(self).procs@[pi]).id
                            == old(self).scheduler.tasks@[ti].proc) ==> final(self).procs@.len()
                        == old(self).procs@.len() - 1)
                },
    {
        let _ = e;
        if syscall_id == 0 {
            // log: append the text to the kernel log
            match self.lookup_user_string(a) {
                Some(text) => {
                    self.klog.push(text);
                    0
                },
                None => KernelError::InvalidArgument.code(),
            }
        } else if syscall_id == 1 {
            // module call: resolve the name, hand over the payload
            match self.lookup_user_string(a) {
                Some(name) => self.module_call(&name, false, b, c, d, e),
                None => KernelError::InvalidArgument.code(),
            }
        } else if syscall_id == 2 {
            // wait: freeze the caller and run the next ready task
            let cur = self.scheduler.get_current_task_id();
            if matches!(cur, Option::None) {
                return KernelError::InvalidArgument.code();
            }
            if self.task_queue_len() == 0 {
                return KernelError::InvalidArgument.code();
            }
            self.scheduler.freeze_current_task();
            0
        } else if syscall_id == 3 {
            // sbrk: extend the caller's arena
            let pid = match self.current_proc() {
                Some(pid) => pid,
                None => {
                    return KernelError::InvalidArgument.code();
                },
            };
            let ghost cur = old(self).scheduler.current_task->Some_0;
            let ghost ti = choose|ti: int|
                0 <= ti < old(self).scheduler.tasks@.len() && old(self).scheduler.tasks@[ti].id
                    == cur && old(self).scheduler.tasks@[ti].proc == pid;
            let pages = a / 0x1000;
            let res = self.sbrk(pid, pages);
            let rr = match res {
                Some(range) => range.0 as isize,
                None => -1,
            };
            proof {
                assert(old(self).scheduler.tasks@[ti].id == cur);
                assert(pages as int == a as int / 0x1000);
                assert(spec_sbrk_effect(*old(self), *self, pid, a as int / 0x1000, res));
            }
            rr
        } else if syscall_id == 4 {
            // exec: spawn from the boot file system and wait for the child
            let cur = self.scheduler.get_current_task_id();
            if matches!(cur, Option::None) {
                return KernelError::InvalidArgument.code();
            }
            self.exec(a)
        } else if syscall_id == 5 {
            // exit: terminate the calling process
            let pid = match self.current_proc() {
                Some(pid) => pid,
                None => {
                    return KernelError::InvalidArgument.code();
                },
            };
            let r = self.exit(pid);
            // hand the CPU onward if anything is ready
            if self.scheduler.get_current_task_id().is_none() && self.task_queue_len() > 0 {
                self.scheduler.schedule();
            }
            r
        } else {
            // halt: record the shutdown code
            self.halted = Some(a);
            0
        }
    }

    /// The process owning the running task.
    pub fn current_proc(&self) -> (r: Option<ProcId>)
        requires
            self.wf(),
        ensures
            r is Some <==> self.scheduler.current_task is Some,
            r matches Some(pid) ==> exists|i: int|
                0 <= i < self.scheduler.tasks@.len() && (#[trigger] self.scheduler.tasks@[i]).id
                    == self.scheduler.current_task->Some_0 && self.scheduler.tasks@[i].proc
                    == pid,
    {
        match self.scheduler.get_current_task() {
            Some(t) => Some(t.proc),
            None => None,
        }
    }
}

/// The service surface the kernel hands a loaded module: the module's
/// registry id and entry points into the kernel's facilities. What a
/// loaded image does with it is the collaborator's side; each entry point
/// here is the kernel's own verified behaviour.
pub struct KernelService(pub usize);

impl KernelService {
    /// Append a line from the module to the kernel log.
    pub fn log(&self, kernel: &mut Kernel, s: Vec<u8>)
        requires
            old(kernel).wf(),
        ensures
            final(kernel).wf(),
            final(kernel).klog@.len() == old(kernel).klog@.len() + 1,
            final(kernel).klog@.last()@ == s@,
    {
        kernel.klog.push(s);
    }

    /// Serve a module's allocation from the kernel heap: the cell comes
    /// back aligned to its class inside the heap window, exactly as the
    /// allocator promises.
    pub fn alloc_bytes(&self, kernel: &mut Kernel, size: u64) -> (r: Option<u64>)
        requires
            old(kernel).wf(),
        ensures
            final(kernel).wf(),
            final(kernel).physical.initial_bytes == old(kernel).physical.initial_bytes,
            forall|k: u64|
                1 <= size <= 0x1_0000_0000 && crate::heap::spec_is_class_of(k, size) ==> match r {
                    Some(c) => spec_aligned(c, (1u64 << k) as nat)
                        && crate::heap::KERNEL_HEAP_BASE <= c && c + (1u64 << k)
                        <= crate::heap::KERNEL_HEAP_BASE + crate::heap::KERNEL_HEAP_SIZE,
                    None => !crate::heap::spec_has_cell(old(kernel).heap.cells@, k as int),
                },
            size < 1 || size > 0x1_0000_0000 ==> r is None && *final(kernel) == *old(kernel),
    {
        if size < 1 || size > 0x1_0000_0000 {
            return None;
        }
        match kernel.heap.allocate(size, &mut kernel.physical) {
            Ok(p) => Some(p),
            Err(_) => None,
        }
    }

    /// Return a module's allocation to the kernel heap. A pointer that
    /// does not line up with a cell of the given size is refused rather
    /// than corrupting the free lists; an accepted cell goes to the head
    /// of its class.
    pub fn dealloc_bytes(&self, kernel: &mut Kernel, ptr: u64, size: u64) -> (r: bool)
        requires
            old(kernel).wf(),
        ensures
            final(kernel).wf(),
            final(kernel).physical.initial_bytes == old(kernel).physical.initial_bytes,
            !r ==> *final(kernel) == *old(kernel),
            r ==> forall|k: u64|
                crate::heap::spec_is_class_of(k, size) && k < 21 ==> final(kernel).heap.cells@[k as int]@ == old(kernel).heap.cells@[k as int]@.push(ptr),
    {
        if size < 1 || size > 0x1_0000_0000 {
            return false;
        }
        let cs = FreeListAllocator::cell_size(size);
        let k = FreeListAllocator::size_class(cs);
        let window_end = crate::heap::KERNEL_HEAP_BASE + crate::heap::KERNEL_HEAP_SIZE;
        if ptr % (1u64 << k) != 0 || ptr < crate::heap::KERNEL_HEAP_BASE || ptr > window_end {
            return false;
        }
        if (1u64 << k) > window_end - ptr {
            return false;
        }
        proof {
            assert(spec_aligned(ptr, (1u64 << k) as nat));
            assert forall|k2: u64| crate::heap::spec_is_class_of(k2, size) implies k2 == k by {
                crate::heap::lemma_class_unique(k2, k, size);
            }
        }
        kernel.heap.free(ptr, size, &mut kernel.physical);
        true
    }

    /// The process owning the running task, for the module's bookkeeping.
    pub fn current_process(&self, kernel: &Kernel) -> (r: Option<ProcId>)
        requires
            kernel.wf(),
    {
        kernel.current_proc()
    }

    /// The running task itself.
    pub fn current_task(&self, kernel: &Kernel) -> (r: Option<TaskId>)
        ensures
            r == kernel.scheduler.current_task,
    {
        kernel.scheduler.get_current_task_id()
    }

    /// A privileged call from one module into another: routed exactly as
    /// an unprivileged one.
    pub fn module_call(
        &self,
        kernel: &mut Kernel,
        name: &Vec<u8>,
        x0: usize,
        x1: usize,
        x2: usize,
        x3: usize,
    ) -> (r: isize)
        requires
            old(kernel).wf(),
        ensures
            final(kernel).wf(),
            final(kernel).modules == old(kernel).modules,
            name@ == spec_pm_name() ==> spec_pm_effect(*old(kernel), *final(kernel), x0, x1, x2, r),
            name@ != spec_pm_name() ==> r == -1 && *final(kernel) == *old(kernel),
    {
        kernel.module_call(name, true, x0, x1, x2, x3)
    }

    /// Hand the CPU onward at the end of a timer interrupt: charge the
    /// running task a slice unit, rotating to the head of the queue when
    /// the slice is spent.
    pub fn schedule(&self, kernel: &mut Kernel) -> (r: Option<TaskId>)
        requires
            old(kernel).wf(),
        ensures
            final(kernel).wf(),
            r matches Some(t) ==> final(kernel).scheduler.current_task == Some(t),
            r is None <==> old(kernel).scheduler.current_task is None && old(kernel).scheduler.task_queue@.len() == 0,
    {
        let cur = kernel.scheduler.get_current_task();
        match cur {
            Some(t) => {
                if t.sched.time_slice_units > 0 {
                    proof {
                        let w = choose|w: int|
                            0 <= w < kernel.scheduler.tasks@.len() && kernel.scheduler.tasks@[w]
                                == t;
                        assert forall|i: int|
                            0 <= i < kernel.scheduler.tasks@.len() && (#[trigger] kernel
                                .scheduler.tasks@[i]).id == kernel
                                .scheduler.current_task->Some_0 implies kernel
                            .scheduler.tasks@[i].sched.time_slice_units > 0 by {
                            if i != w {
                                assert(kernel.scheduler.tasks@[i].id != kernel
                                    .scheduler.tasks@[w].id);
                            }
                        }
                    }
                    Some(kernel.scheduler.timer_tick())
                } else {
                    Some(kernel.scheduler.schedule())
                }
            },
            None => {
                if kernel.task_queue_len() > 0 {
                    Some(kernel.scheduler.schedule())
                } else {
                    None
                }
            },
        }
    }
}

/// Byte-wise equality of two names or buffers.
pub fn bytes_eq(a: &Vec<u8>, b: &Vec<u8>) -> (r: bool)
    ensures
        r == (a@ == b@),
{
    if a.len() != b.len() {
        proof {
            assert(a@ != b@);
        }
        return false;
    }
    let n = a.len();
    let mut i: usize = 0;
    while i < n
        invariant
            0 <= i <= n,
            n == a@.len() == b@.len(),
            forall|k: int| 0 <= k < i ==> a@[k] == b@[k],
        decreases n - i,
    {
        if a[i] != b[i] {
            return false;
        }
        i = i + 1;
    }
    proof {
        assert(a@ =~= b@);
    }
    true
}

/// Copy a byte buffer.
pub fn copy_bytes(a: &Vec<u8>) -> (r: Vec<u8>)
    ensures
        r@ == a@,
{
    let n = a.len();
    let mut r: Vec<u8> = Vec::new();
    let mut i: usize = 0;
    while i < n
        invariant
            0 <= i <= n,
            n == a@.len(),
            r@ == a@.subrange(0, i as int),
        decreases n - i,
    {
        r.push(a[i]);
        proof {
            assert(r@ =~= a@.subrange(0, i + 1));
        }
        i = i + 1;
    }
    proof {
        assert(a@.subrange(0, n as int) =~= a@);
    }
    r
}

/// User isolation: an address a process has never reached by `sbrk` (it
/// lies at or above the process's arena mark) translates to nothing in
/// that process's own table, so a load from it faults. In particular a
/// range another process mapped for itself stays invisible here.
pub proof fn lemma_user_isolation(k: Kernel, i: int, va: u64)
    requires
        k.wf(),
        0 <= i < k.procs@.len(),
        k.procs@[i].virtual_memory_highwater <= va < USER_SPACE_END,
    ensures
        match k.procs@[i].page_table {
            Some(pt) => pt.spec_translate(PageSize::Size4K, va) is None,
            None => true,
        },
{
}

/// The bases `sbrk` returns strictly increase across calls of a process:
/// each call moves the mark to the end of the range it returned, and the
/// next base is the aligned mark. (A call for zero pages returns its base
/// without moving the mark, so the law speaks of calls that take pages.)
pub proof fn lemma_sbrk_monotonic(hw0: u64, b1: u64, n1: nat, hw1: u64, b2: u64)
    requires
        b1 == spec_align_up(hw0 as int, 0x1000),
        hw1 == b1 + n1 * 0x1000,
        n1 >= 1,
        b2 == spec_align_up(hw1 as int, 0x1000),
    ensures
        b2 > b1,
{
    assert(hw1 as int % 0x1000 >= 0);
    assert(b2 >= hw1);
    assert(n1 * 0x1000 >= 0x1000) by (nonlinear_arith)
        requires
            n1 >= 1,
    ;
}

} // verus!

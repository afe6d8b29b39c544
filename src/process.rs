use vstd::prelude::*;

use crate::config::{page_count, pages_for, MAX_SYSCALL_NUM, PAGE_SIZE};
use crate::copyout::{read_span, scatter, user_span};
use crate::mm::{
    port_permission, range_free, range_full, span_ok, with_range, without_range, AddressSpace,
    MapPermission,
};
use crate::task::{
    dispatched, is_next_ready, none_ready, TaskControlBlock, TaskManager, TaskStatus,
};

verus! {

/// Time of day as seconds and microseconds.
#[derive(Clone, Copy, Debug)]
pub struct TimeVal {
    pub sec: usize,
    pub usec: usize,
}

/// Task information
#[derive(Clone, Copy)]
pub struct TaskInfo {
    /// Task status in its life cycle
    pub status: TaskStatus,
    /// The numbers of syscall called by task
    pub syscall_times: [u32; MAX_SYSCALL_NUM],
    /// Total running time of task
    pub time: usize,
}

/// The `n` lowest bytes of `x`, least significant first.
pub open spec fn le_bytes(x: nat, n: nat) -> Seq<u8>
    decreases n,
{
    if n == 0 {
        Seq::empty()
    } else {
        seq![(x % 256) as u8] + le_bytes(x / 256, (n - 1) as nat)
    }
}

/// Each counter as four little-endian bytes, in order.
pub open spec fn counts_bytes(counts: Seq<u32>) -> Seq<u8>
    decreases counts.len(),
{
    if counts.len() == 0 {
        Seq::empty()
    } else {
        counts_bytes(counts.drop_last()) + le_bytes(counts.last() as nat, 4)
    }
}

pub open spec fn status_code(s: TaskStatus) -> nat {
    match s {
        TaskStatus::UnInit => 0,
        TaskStatus::Ready => 1,
        TaskStatus::Running => 2,
        TaskStatus::Exited => 3,
    }
}

/// Layout of a `TimeVal` in user memory: `sec`, then `usec`, each eight
/// little-endian bytes.
pub open spec fn time_val_bytes(t: TimeVal) -> Seq<u8> {
    le_bytes(t.sec as nat, 8) + le_bytes(t.usec as nat, 8)
}

/// Layout of a `TaskInfo` in user memory: the status code in four bytes, the
/// counters in four bytes each, four bytes of padding, then the time in eight
/// bytes; all little-endian, 2016 bytes in all.
pub open spec fn task_info_bytes(t: TaskInfo) -> Seq<u8> {
    le_bytes(status_code(t.status), 4) + counts_bytes(t.syscall_times@) + le_bytes(0, 4) + le_bytes(
        t.time as nat,
        8,
    )
}

/// Appends the `n` lowest bytes of `x`, least significant first.
fn push_le(out: &mut Vec<u8>, x: u64, n: usize)
    ensures
        final(out)@ == old(out)@ + le_bytes(x as nat, n as nat),
{
    let mut v = x;
    let mut i: usize = 0;
    while i < n
        invariant
            i <= n,
            out@ + le_bytes(v as nat, (n - i) as nat) == old(out)@ + le_bytes(x as nat, n as nat),
        decreases n - i,
    {
        let ghost before = out@;
        out.push((v % 256) as u8);
        assert(before + le_bytes(v as nat, (n - i) as nat) =~= out@ + le_bytes(
            (v / 256) as nat,
            (n - i - 1) as nat,
        ));
        v = v / 256;
        i = i + 1;
    }
    assert(out@ + le_bytes(v as nat, 0) =~= out@);
}

fn status_code_of(s: TaskStatus) -> (r: u64)
    ensures
        r == status_code(s),
{
    match s {
        TaskStatus::UnInit => 0,
        TaskStatus::Ready => 1,
        TaskStatus::Running => 2,
        TaskStatus::Exited => 3,
    }
}

impl TimeVal {
    /// The bytes of this value as user space reads them.
    pub fn to_bytes(&self) -> (r: Vec<u8>)
        ensures
            r@ == time_val_bytes(*self),
    {
        let mut out: Vec<u8> = Vec::new();
        push_le(&mut out, self.sec as u64, 8);
        push_le(&mut out, self.usec as u64, 8);
        out
    }
}

impl TaskInfo {
    /// The bytes of this value as user space reads them.
    pub fn to_bytes(&self) -> (r: Vec<u8>)
        ensures
            r@ == task_info_bytes(*self),
    {
        let mut out: Vec<u8> = Vec::new();
        push_le(&mut out, status_code_of(self.status), 4);
        let ghost head = out@;
        let mut i: usize = 0;
        while i < MAX_SYSCALL_NUM
            invariant
                i <= MAX_SYSCALL_NUM,
                out@ == head + counts_bytes(self.syscall_times@.take(i as int)),
            decreases MAX_SYSCALL_NUM - i,
        {
            push_le(&mut out, self.syscall_times[i] as u64, 4);
            assert(self.syscall_times@.take(i + 1).drop_last() =~= self.syscall_times@.take(i as int));
            i = i + 1;
        }
        assert(self.syscall_times@.take(MAX_SYSCALL_NUM as int) =~= self.syscall_times@);
        push_le(&mut out, 0, 4);
        push_le(&mut out, self.time as u64, 8);
        out
    }
}

/// A permission request: nothing above bit 2, and at least one of bits 0 to 2.
pub open spec fn port_valid(port: int) -> bool {
    port < 8 && port % 8 != 0
}

/// First virtual page of a request at `start`.
pub open spec fn first_page(start: int) -> int {
    start / PAGE_SIZE as int
}

/// One past the last virtual page of a request of `len` bytes at `start`.
pub open spec fn end_page(start: int, len: int) -> int {
    start / PAGE_SIZE as int + pages_for(len)
}

/// The pages of the request end at an address that a machine word can hold.
pub open spec fn range_fits(start: int, len: int) -> bool {
    end_page(start, len) <= (usize::MAX as int) / (PAGE_SIZE as int)
}

/// When `sys_mmap(start, len, port)` succeeds on `space`.
pub open spec fn mmap_ok(space: &AddressSpace, start: int, len: int, port: int) -> bool {
    &&& start % PAGE_SIZE as int == 0
    &&& port_valid(port)
    &&& range_fits(start, len)
    &&& range_free(space.regions(), first_page(start), end_page(start, len))
    &&& space.frames_available(pages_for(len))
}

/// When `sys_munmap(start, len)` succeeds on an address space with `regions`.
pub open spec fn munmap_ok(regions: Map<usize, MapPermission>, start: int, len: int) -> bool {
    &&& start % PAGE_SIZE as int == 0
    &&& range_fits(start, len)
    &&& range_full(regions, first_page(start), end_page(start, len))
}

/// task exits and submit an exit code: the current task becomes `Exited` and
/// the next `Ready` task runs. Returns false when no task is left to run.
pub fn sys_exit(tm: &mut TaskManager, _exit_code: i32, now_ms: usize) -> (r: bool)
    requires
        old(tm).wf(),
        old(tm).tasks@[old(tm).current as int].task_status == TaskStatus::Running,
    ensures
        final(tm).wf(),
        ({
            let mid = old(tm).tasks@.update(
                old(tm).current as int,
                TaskControlBlock {
                    task_status: TaskStatus::Exited,
                    ..old(tm).tasks@[old(tm).current as int]
                },
            );
            &&& r == !none_ready(mid)
            &&& r ==> is_next_ready(mid, old(tm).current as int, final(tm).current as int)
                && final(tm).tasks@ == dispatched(mid, final(tm).current as int, now_ms as int)
            &&& !r ==> final(tm).tasks@ == mid && final(tm).current == old(tm).current
        }),
{
    let cur = tm.current;
    let mut t = tm.tasks[cur];
    t.task_status = TaskStatus::Exited;
    tm.tasks.set(cur, t);
    tm.run_next_task(now_ms)
}

/// current task gives up resources for other tasks: it becomes `Ready` and
/// the next `Ready` task, possibly itself, runs.
pub fn sys_yield(tm: &mut TaskManager, now_ms: usize) -> (r: isize)
    requires
        old(tm).wf(),
        old(tm).tasks@[old(tm).current as int].task_status == TaskStatus::Running,
    ensures
        final(tm).wf(),
        r == 0,
        ({
            let mid = old(tm).tasks@.update(
                old(tm).current as int,
                TaskControlBlock {
                    task_status: TaskStatus::Ready,
                    ..old(tm).tasks@[old(tm).current as int]
                },
            );
            &&& is_next_ready(mid, old(tm).current as int, final(tm).current as int)
            &&& final(tm).tasks@ == dispatched(mid, final(tm).current as int, now_ms as int)
        }),
{
    let cur = tm.current;
    let mut t = tm.tasks[cur];
    t.task_status = TaskStatus::Ready;
    tm.tasks.set(cur, t);
    assert(tm.tasks@[cur as int].task_status == TaskStatus::Ready);
    tm.run_next_task(now_ms);
    0
}

/// The `TimeVal` for a clock reading of `us` microseconds.
pub open spec fn time_val_of(us: int) -> TimeVal {
    TimeVal { sec: (us / 1_000_000) as usize, usec: (us % 1_000_000) as usize }
}

/// Writes the time `now_us`, in microseconds, as a `TimeVal` at user address
/// `ts`. Returns 0, or -1 when the destination is not writable user memory.
pub fn sys_get_time(space: &mut AddressSpace, ts: usize, now_us: usize) -> (r: isize)
    requires
        old(space).wf(),
    ensures
        final(space).wf(),
        r == if span_ok(old(space).pages(), ts as int, 16, true) {
            0isize
        } else {
            -1isize
        },
        final(space).pages() == old(space).pages(),
        final(space).program_brk == old(space).program_brk,
        final(space).mem() == if r == 0 {
            scatter(old(space).mem(), time_val_bytes(time_val_of(now_us as int)), user_span(old(space).pages(), ts as int, 16))
        } else {
            old(space).mem()
        },
        r == 0 ==> read_span(final(space).mem(), final(space).pages(), ts as int, 16) == time_val_bytes(
            time_val_of(now_us as int),
        ),
{
    let res = TimeVal { sec: now_us / 1_000_000, usec: now_us % 1_000_000 };
    let bytes = res.to_bytes();
    proof {
        lemma_le_bytes_len(res.sec as nat, 8);
        lemma_le_bytes_len(res.usec as nat, 8);
    }
    if space.copy_out(ts, bytes.as_slice()) {
        0
    } else {
        -1
    }
}

/// The `TaskInfo` of task `t` at time `now_ms`.
pub open spec fn task_info_of(t: TaskControlBlock, now_ms: int) -> TaskInfo {
    TaskInfo {
        status: t.task_status,
        syscall_times: t.syscall_times_list,
        time: crate::task::elapsed(t, now_ms) as usize,
    }
}

/// Writes the status, syscall counts and running time of task `t` as a
/// `TaskInfo` at user address `ti`. Returns 0, or -1 when the destination is
/// not writable user memory.
pub fn sys_task_info(space: &mut AddressSpace, ti: usize, t: &TaskControlBlock, now_ms: usize) -> (r: isize)
    requires
        old(space).wf(),
    ensures
        final(space).wf(),
        r == if span_ok(old(space).pages(), ti as int, 2016, true) {
            0isize
        } else {
            -1isize
        },
        final(space).pages() == old(space).pages(),
        final(space).program_brk == old(space).program_brk,
        final(space).mem() == if r == 0 {
            scatter(old(space).mem(), task_info_bytes(task_info_of(*t, now_ms as int)), user_span(old(space).pages(), ti as int, 2016))
        } else {
            old(space).mem()
        },
        r == 0 ==> read_span(final(space).mem(), final(space).pages(), ti as int, 2016) == task_info_bytes(
            task_info_of(*t, now_ms as int),
        ),
{
    let res = TaskInfo {
        status: t.task_status,
        syscall_times: t.syscall_times_list,
        time: t.elapsed_ms(now_ms),
    };
    let bytes = res.to_bytes();
    proof {
        lemma_task_info_len(res);
    }
    if space.copy_out(ti, bytes.as_slice()) {
        0
    } else {
        -1
    }
}

proof fn lemma_le_bytes_len(x: nat, n: nat)
    ensures
        le_bytes(x, n).len() == n,
    decreases n,
{
    if n > 0 {
        lemma_le_bytes_len(x / 256, (n - 1) as nat);
    }
}

proof fn lemma_counts_bytes_len(counts: Seq<u32>)
    ensures
        counts_bytes(counts).len() == 4 * counts.len(),
    decreases counts.len(),
{
    if counts.len() > 0 {
        lemma_counts_bytes_len(counts.drop_last());
        lemma_le_bytes_len(counts.last() as nat, 4);
    }
}

proof fn lemma_task_info_len(t: TaskInfo)
    ensures
        task_info_bytes(t).len() == 2016,
{
    lemma_le_bytes_len(status_code(t.status), 4);
    lemma_counts_bytes_len(t.syscall_times@);
    lemma_le_bytes_len(0, 4);
    lemma_le_bytes_len(t.time as nat, 8);
}

/// Maps `len` bytes (rounded up to whole pages) at the page-aligned `start`,
/// with the permissions of the 3-bit request `port` (bit 0 Read, bit 1 Write,
/// bit 2 Execute) and user access. Returns 0, or -1, changing nothing, when
/// `start` is not page-aligned, `port` is not a valid request, the range does
/// not fit the address space, a page of it is already mapped, or physical
/// memory runs short.
pub fn sys_mmap(space: &mut AddressSpace, start: usize, len: usize, port: usize) -> (r: isize)
    requires
        old(space).wf(),
    ensures
        final(space).wf(),
        r == if mmap_ok(old(space), start as int, len as int, port as int) {
            0isize
        } else {
            -1isize
        },
        final(space).regions() == if r == 0 {
            with_range(
                old(space).regions(),
                first_page(start as int),
                end_page(start as int, len as int),
                port_permission(port as int),
            )
        } else {
            old(space).regions()
        },
        r != 0 ==> final(space).pages() == old(space).pages() && final(space).mem() == old(space).mem(),
        start % PAGE_SIZE != 0 ==> r == -1,
        port >= 8 || port % 8 == 0 ==> r == -1,
        forall|u: usize| #[trigger]
            old(space).pages().contains_key(u) ==> final(space).pages()[u] == old(space).pages()[u],
        final(space).heap_bottom == old(space).heap_bottom,
        final(space).program_brk == old(space).program_brk,
{
    assert((port & !0x7usize != 0) == (port >= 8)) by (bit_vector);
    assert(port & !0x7usize == 0 ==> (port & 0x7usize == 0) == (port == 0)) by (bit_vector);
    if start % PAGE_SIZE != 0 {
        return -1;
    } else if port & !0x7 != 0 {
        // only the low three bits may be set
        return -1;
    } else if port & 0x7 == 0 {
        // no access requested
        return -1;
    }
    let pages = page_count(len);
    let first = start / PAGE_SIZE;
    if pages > usize::MAX / PAGE_SIZE - first {
        return -1;
    }
    let permission = MapPermission::from_port(port);
    if space.map_area(first, first + pages, permission) {
        0
    } else {
        -1
    }
}

/// Unmaps `len` bytes (rounded up to whole pages) at the page-aligned
/// `start`. Returns 0, or -1, changing nothing, when `start` is not
/// page-aligned, the range does not fit the address space, or a page of it is
/// not mapped.
pub fn sys_munmap(space: &mut AddressSpace, start: usize, len: usize) -> (r: isize)
    requires
        old(space).wf(),
    ensures
        final(space).wf(),
        r == if munmap_ok(old(space).regions(), start as int, len as int) {
            0isize
        } else {
            -1isize
        },
        final(space).regions() == if r == 0 {
            without_range(old(space).regions(), first_page(start as int), end_page(start as int, len as int))
        } else {
            old(space).regions()
        },
        r != 0 ==> final(space).pages() == old(space).pages(),
        start % PAGE_SIZE != 0 ==> r == -1,
        !range_full(old(space).regions(), first_page(start as int), end_page(start as int, len as int))
            ==> r == -1,
        forall|u: usize| #[trigger]
            final(space).pages().contains_key(u) ==> final(space).pages()[u] == old(space).pages()[u],
        final(space).mem() == old(space).mem(),
        final(space).heap_bottom == old(space).heap_bottom,
        final(space).program_brk == old(space).program_brk,
{
    if start % PAGE_SIZE != 0 {
        return -1;
    }
    let pages = page_count(len);
    let first = start / PAGE_SIZE;
    if pages > usize::MAX / PAGE_SIZE - first {
        return -1;
    }
    if space.unmap_area(first, first + pages) {
        0
    } else {
        -1
    }
}

/// change data segment size: moves the program break by `size` bytes and
/// returns the old break, or -1 when the move cannot be done.
pub fn sys_sbrk(space: &mut AddressSpace, size: i32) -> (r: isize)
    requires
        old(space).wf(),
    ensures
        final(space).wf(),
        r == if old(space).brk_ok(size as int) {
            old(space).program_brk as isize
        } else {
            -1isize
        },
        final(space).program_brk == if old(space).brk_ok(size as int) {
            old(space).program_brk + size
        } else {
            old(space).program_brk as int
        },
        final(space).regions() == if old(space).brk_ok(size as int) {
            old(space).regions_after_brk(size as int)
        } else {
            old(space).regions()
        },
{
    if let Some(old_brk) = space.change_program_brk(size) {
        old_brk as isize
    } else {
        -1
    }
}

/// Mapping a free range and then unmapping the same range both succeed, and
/// give back exactly the regions there were before.
pub proof fn lemma_mmap_then_munmap(space: &AddressSpace, start: int, len: int, port: int)
    requires
        mmap_ok(space, start, len, port),
    ensures
        munmap_ok(
            with_range(space.regions(), first_page(start), end_page(start, len), port_permission(port)),
            start,
            len,
        ),
        without_range(
            with_range(space.regions(), first_page(start), end_page(start, len), port_permission(port)),
            first_page(start),
            end_page(start, len),
        ) == space.regions(),
{
    let s = first_page(start);
    let e = end_page(start, len);
    let mapped = with_range(space.regions(), s, e, port_permission(port));
    assert(without_range(mapped, s, e) =~= space.regions());
}

} // verus!

//! Handlers for the process-related system calls: lifecycle (yield, exit),
//! the time query, and the memory-mapping calls with their argument
//! validation. Each handler does everything that is kernel logic; what needs
//! hardware (the clock read, the register swap, the final shutdown) is the
//! caller's part, driven by the values returned from here.

use vstd::arithmetic::div_mod::{
    lemma_div_is_ordered, lemma_div_multiples_vanish, lemma_fundamental_div_mod,
};
use vstd::prelude::*;

use crate::manager::{
    exit_current_and_run_next, find_next_in_scan, statuses, suspend_current_and_run_next,
    tcb_exited, tcb_scheduled, tcb_suspended, ScheduleDecision, TaskManager,
};
use crate::mem::{copy_to_user, zero_page, UserSpace, PAGE_SIZE, PROT_MASK};
use crate::task::TaskStatus;

verus! {

/// A moment in time as user mode receives it: whole seconds and the
/// microseconds within the second.
#[derive(Clone, Copy, Debug, PartialEq, Eq, Structural)]
pub struct TimeVal {
    /// whole seconds
    pub sec: usize,
    /// microseconds within the second, below one million
    pub usec: usize,
}

/// Byte `i` of the little-endian encoding of `x`.
pub open spec fn le_byte(x: u64, i: int) -> u8 {
    ((x >> ((8 * i) as u64)) & 0xff) as u8
}

/// The 16-byte wire form of a [`TimeVal`]: eight little-endian bytes of the
/// seconds, then eight of the microseconds.
pub open spec fn time_val_bytes(sec: u64, usec: u64) -> Seq<u8> {
    Seq::new(
        16,
        |i: int|
            if i < 8 {
                le_byte(sec, i)
            } else {
                le_byte(usec, i - 8)
            },
    )
}

/// Serialize a [`TimeVal`] into its 16-byte wire form.
pub fn encode_time_val(tv: &TimeVal) -> (r: Vec<u8>)
    ensures
        r@ == time_val_bytes(tv.sec as u64, tv.usec as u64),
{
    let sec = tv.sec as u64;
    let usec = tv.usec as u64;
    let mut out: Vec<u8> = Vec::new();
    let mut i: usize = 0;
    while i < 8
        invariant
            i <= 8,
            sec == tv.sec as u64,
            out@.len() == i,
            forall|j: int| 0 <= j < i ==> #[trigger] out@[j] == le_byte(sec, j),
        decreases 8 - i,
    {
        out.push(((sec >> ((8 * i) as u64)) & 0xff) as u8);
        i = i + 1;
    }
    let mut i: usize = 0;
    while i < 8
        invariant
            i <= 8,
            sec == tv.sec as u64,
            usec == tv.usec as u64,
            out@.len() == 8 + i,
            forall|j: int| 0 <= j < 8 ==> #[trigger] out@[j] == le_byte(sec, j),
            forall|j: int| 8 <= j < 8 + i ==> #[trigger] out@[j] == le_byte(usec, j - 8),
        decreases 8 - i,
    {
        out.push(((usec >> ((8 * i) as u64)) & 0xff) as u8);
        i = i + 1;
    }
    proof {
        assert(out@ =~= time_val_bytes(tv.sec as u64, tv.usec as u64));
    }
    out
}

/// The yield call: the Running task voluntarily steps back to Ready, and the
/// scheduler picks the next Ready task round-robin. Because the yielder
/// itself is Ready again the scan always finds a task, so a yield always
/// produces a switch; once the yielder is rescheduled, the call's value to
/// user mode is 0. Time elapsed since the last billing point is charged to
/// the yielder's kernel-time accumulator.
pub fn sys_yield(m: &mut TaskManager, now_ms: usize) -> (d: ScheduleDecision)
    requires
        old(m).wf(),
        old(m).inner.tasks@[old(m).inner.current_task as int].task_info.status
            == TaskStatus::Running,
        old(m).inner.stop_time <= now_ms,
        old(m).inner.tasks@[old(m).inner.current_task as int].kernel_time + (now_ms - old(
            m,
        ).inner.stop_time) <= usize::MAX,
    ensures
        final(m).wf(),
        final(m).num_app == old(m).num_app,
        ({
            let c = old(m).inner.current_task as int;
            let elapsed = (now_ms - old(m).inner.stop_time) as usize;
            let mid = old(m).inner.tasks@.update(c, tcb_suspended(old(m).inner.tasks@[c], elapsed));
            let found = find_next_in_scan(statuses(mid), c, 0);
            &&& found is Some
            &&& ({
                let n = found->Some_0;
                &&& d == (ScheduleDecision::Switch { prev: c as usize, next: n as usize })
                &&& final(m).inner.current_task == n
                &&& final(m).inner.stop_time == now_ms
                &&& final(m).inner.tasks@ == mid.update(n, tcb_scheduled(mid[n], now_ms))
            })
        }),
{
    suspend_current_and_run_next(m, now_ms)
}

/// The exit call: the Running task ends for good, and the scheduler either
/// switches to the next Ready task or reports that every application has
/// completed and the machine should shut down. Never returns control to the
/// exiting task.
pub fn sys_exit(m: &mut TaskManager, now_ms: usize) -> (d: ScheduleDecision)
    requires
        old(m).wf(),
        old(m).inner.tasks@[old(m).inner.current_task as int].task_info.status
            == TaskStatus::Running,
        old(m).inner.stop_time <= now_ms,
        old(m).inner.tasks@[old(m).inner.current_task as int].kernel_time + (now_ms - old(
            m,
        ).inner.stop_time) <= usize::MAX,
    ensures
        final(m).wf(),
        final(m).num_app == old(m).num_app,
        ({
            let c = old(m).inner.current_task as int;
            let elapsed = (now_ms - old(m).inner.stop_time) as usize;
            let mid = old(m).inner.tasks@.update(
                c,
                tcb_exited(old(m).inner.tasks@[c], elapsed, now_ms),
            );
            let found = find_next_in_scan(statuses(mid), c, 0);
            match found {
                Some(n) => {
                    &&& d == (ScheduleDecision::Switch { prev: c as usize, next: n as usize })
                    &&& final(m).inner.current_task == n
                    &&& final(m).inner.stop_time == now_ms
                    &&& final(m).inner.tasks@ == mid.update(n, tcb_scheduled(mid[n], now_ms))
                },
                None => {
                    &&& d == ScheduleDecision::Shutdown
                    &&& final(m).inner.current_task == c
                    &&& final(m).inner.stop_time == now_ms
                    &&& final(m).inner.tasks@ == mid
                },
            }
        }),
{
    exit_current_and_run_next(m, now_ms)
}

/// The get-time call: split the monotonic microsecond reading `now_us` into
/// seconds and microseconds and write the 16-byte result across the
/// address-space boundary to `ts_addr`. Returns 0 when the whole record was
/// written, -1 when the destination range overflows the address width or
/// touches a page that is unmapped or not writable (bytes on writable pages
/// before the failing one stay written, as the copy documents).
pub fn sys_get_time(space: &mut UserSpace, ts_addr: usize, now_us: usize) -> (r: isize)
    requires
        old(space).wf(),
    ensures
        final(space).wf(),
        final(space).pages@.len() == old(space).pages@.len(),
        forall|v: int| #[trigger] final(space).mapped(v) == old(space).mapped(v),
        forall|v: int|
            old(space).mapped(v) ==> #[trigger] final(space).page_perm(v) == old(
                space,
            ).page_perm(v),
        ({
            let ps = PAGE_SIZE as int;
            let dest = ts_addr as int;
            let written = time_val_bytes((now_us / 1000000) as u64, (now_us % 1000000) as u64);
            if dest + 16 > usize::MAX as int {
                &&& r == -1
                &&& forall|v: int|
                    old(space).mapped(v) ==> #[trigger] final(space).page_bytes(v) == old(
                        space,
                    ).page_bytes(v)
            } else {
                let w = old(space).writable_prefix(dest, 16);
                &&& (w == 16 ==> r == 0)
                &&& (w < 16 ==> r == -1)
                &&& forall|a: int|
                    dest <= a < dest + w ==> #[trigger] final(space).byte_at(a) == written[a - dest]
                &&& forall|a: int|
                    0 <= a && old(space).mapped(a / ps) && !(dest <= a < dest + w)
                        ==> #[trigger] final(space).byte_at(a) == old(space).byte_at(a)
            }
        }),
{
    let us = now_us;
    let time = TimeVal { sec: us / 1000000, usec: us % 1000000 };
    let bytes = encode_time_val(&time);
    let copied = copy_to_user(space, ts_addr, &bytes);
    if copied == 16 {
        0
    } else {
        proof {
            if !(ts_addr as int + 16 > usize::MAX as int) {
                crate::mem::lemma_writable_prefix_bounds(*old(space), ts_addr as int, 16);
            }
        }
        -1
    }
}

/// How many pages the byte count `len` occupies, rounding the tail up.
pub open spec fn page_count(len: int) -> int {
    let ps = PAGE_SIZE as int;
    len / ps + if len % ps != 0 {
        1int
    } else {
        0int
    }
}

/// What makes an mmap request with a non-zero length acceptable: the start
/// page-aligned, the permission bits non-empty and within the allowed mask,
/// the range within the address width, and none of its pages mapped yet.
pub open spec fn mmap_valid(s: UserSpace, start: int, len: int, prot: int) -> bool {
    let ps = PAGE_SIZE as int;
    &&& start % ps == 0
    &&& 1 <= prot <= PROT_MASK
    &&& start + len <= usize::MAX as int
    &&& forall|v: int| start / ps <= v < start / ps + page_count(len) ==> !(#[trigger] s.mapped(v))
}

/// What makes a munmap request with a non-zero length acceptable: the start
/// page-aligned, the range within the address width, and every one of its
/// pages currently mapped — removing a partially-unmapped range fails rather
/// than silently succeeding.
pub open spec fn munmap_valid(s: UserSpace, start: int, len: int) -> bool {
    let ps = PAGE_SIZE as int;
    &&& start % ps == 0
    &&& start + len <= usize::MAX as int
    &&& forall|v: int| start / ps <= v < start / ps + page_count(len) ==> #[trigger] s.mapped(v)
}

/// For an aligned, in-range request the page numbers it touches fit
/// comfortably below the address width.
proof fn lemma_page_range_fits(start: int, len: int)
    requires
        0 <= start,
        1 <= len,
        start + len <= usize::MAX as int,
        start % (PAGE_SIZE as int) == 0,
    ensures
        start / (PAGE_SIZE as int) + page_count(len) <= usize::MAX as int / (PAGE_SIZE as int) + 1,
{
    let ps = PAGE_SIZE as int;
    let base = start / ps;
    let q = len / ps;
    lemma_fundamental_div_mod(start, ps);
    lemma_fundamental_div_mod(len, ps);
    assert(ps * base + ps * q <= start + len);
    assert(ps * (base + q) == ps * base + ps * q) by (nonlinear_arith);
    lemma_div_is_ordered(ps * (base + q), usize::MAX as int, ps);
    lemma_div_multiples_vanish(base + q, ps);
}

/// The mmap call: validate the arguments, then establish a zero-filled
/// mapping with permission bits `prot` over every page of
/// `[start, start + len)`. Returns 0 on success and -1 on any validation
/// failure — a misaligned start, permission bits empty or outside the mask,
/// a range past the address width, or any page already mapped — in which
/// case nothing is mapped at all. A zero-length request succeeds without
/// mapping anything.
#[verifier::loop_isolation(false)]
pub fn sys_mmap(space: &mut UserSpace, start: usize, len: usize, prot: usize) -> (r: isize)
    requires
        old(space).wf(),
    ensures
        final(space).wf(),
        len == 0 ==> r == 0 && *final(space) == *old(space),
        len > 0 ==> {
            &&& (r == 0 <==> mmap_valid(*old(space), start as int, len as int, prot as int))
            &&& (r != 0 ==> r == -1 && *final(space) == *old(space))
            &&& (r == 0 ==> {
                let ps = PAGE_SIZE as int;
                let base = start as int / ps;
                let pc = page_count(len as int);
                &&& forall|v: int|
                    #[trigger] final(space).mapped(v) <==> old(space).mapped(v) || (base <= v
                        < base + pc)
                &&& forall|v: int|
                    base <= v < base + pc ==> #[trigger] final(space).page_perm(v) == prot
                &&& forall|v: int|
                    base <= v < base + pc ==> #[trigger] final(space).page_bytes(v) == zero_page()
                &&& forall|v: int|
                    old(space).mapped(v) ==> #[trigger] final(space).page_perm(v) == old(
                        space,
                    ).page_perm(v)
                &&& forall|v: int|
                    old(space).mapped(v) ==> #[trigger] final(space).page_bytes(v) == old(
                        space,
                    ).page_bytes(v)
            })
        },
{
    if len == 0 {
        return 0;
    }
    if start % PAGE_SIZE != 0 {
        return -1;
    }
    if prot == 0 || prot > PROT_MASK {
        return -1;
    }
    if len > usize::MAX - start {
        return -1;
    }
    let base = start / PAGE_SIZE;
    let npages = len / PAGE_SIZE + (if len % PAGE_SIZE != 0 {
        1
    } else {
        0
    });
    proof {
        lemma_page_range_fits(start as int, len as int);
    }
    let mut k: usize = 0;
    while k < npages
        invariant
            space.wf(),
            *space == *old(space),
            base == start as usize / PAGE_SIZE,
            base + npages <= usize::MAX,
            k <= npages,
            forall|v: int| base <= v < base + k ==> !(#[trigger] space.mapped(v)),
        decreases npages - k,
    {
        if space.find_page(base + k).is_some() {
            proof {
                assert(space.mapped(base + k as int));
            }
            return -1;
        }
        k = k + 1;
    }
    let ghost orig = *space;
    let mut k: usize = 0;
    while k < npages
        invariant
            space.wf(),
            orig == *old(space),
            base == start as usize / PAGE_SIZE,
            base + npages <= usize::MAX,
            k <= npages,
            forall|v: int| base <= v < base + npages ==> !(#[trigger] orig.mapped(v)),
            forall|v: int|
                #[trigger] space.mapped(v) <==> orig.mapped(v) || (base <= v < base + k),
            forall|v: int| base <= v < base + k ==> #[trigger] space.page_perm(v) == prot,
            forall|v: int| base <= v < base + k ==> #[trigger] space.page_bytes(v) == zero_page(),
            forall|v: int|
                orig.mapped(v) ==> #[trigger] space.page_perm(v) == orig.page_perm(v),
            forall|v: int|
                orig.mapped(v) ==> #[trigger] space.page_bytes(v) == orig.page_bytes(v),
        decreases npages - k,
    {
        space.map_page(base + k, prot);
        k = k + 1;
    }
    proof {
        assert(npages as int == page_count(len as int));
        assert(base as int == start as int / (PAGE_SIZE as int));
        assert(mmap_valid(*old(space), start as int, len as int, prot as int));
    }
    0
}

/// The munmap call: validate the arguments, then remove the mapping of every
/// page of `[start, start + len)`. Returns 0 on success and -1 on a
/// misaligned start, a range past the address width, or a range any of whose
/// pages is not mapped — an unmapped or partially-unmapped range fails, and
/// nothing is removed. A zero-length request succeeds without removing
/// anything.
#[verifier::loop_isolation(false)]
pub fn sys_munmap(space: &mut UserSpace, start: usize, len: usize) -> (r: isize)
    requires
        old(space).wf(),
    ensures
        final(space).wf(),
        len == 0 ==> r == 0 && *final(space) == *old(space),
        len > 0 ==> {
            &&& (r == 0 <==> munmap_valid(*old(space), start as int, len as int))
            &&& (r != 0 ==> r == -1 && *final(space) == *old(space))
            &&& (r == 0 ==> {
                let ps = PAGE_SIZE as int;
                let base = start as int / ps;
                let pc = page_count(len as int);
                &&& forall|v: int|
                    #[trigger] final(space).mapped(v) <==> old(space).mapped(v) && !(base <= v
                        < base + pc)
                &&& forall|v: int|
                    old(space).mapped(v) && !(base <= v < base + pc)
                        ==> #[trigger] final(space).page_perm(v) == old(space).page_perm(v)
                &&& forall|v: int|
                    old(space).mapped(v) && !(base <= v < base + pc)
                        ==> #[trigger] final(space).page_bytes(v) == old(space).page_bytes(v)
            })
        },
{
    if len == 0 {
        return 0;
    }
    if start % PAGE_SIZE != 0 {
        return -1;
    }
    if len > usize::MAX - start {
        return -1;
    }
    let base = start / PAGE_SIZE;
    let npages = len / PAGE_SIZE + (if len % PAGE_SIZE != 0 {
        1
    } else {
        0
    });
    proof {
        lemma_page_range_fits(start as int, len as int);
    }
    let mut k: usize = 0;
    while k < npages
        invariant
            space.wf(),
            *space == *old(space),
            base == start as usize / PAGE_SIZE,
            base + npages <= usize::MAX,
            k <= npages,
            forall|v: int| base <= v < base + k ==> #[trigger] space.mapped(v),
        decreases npages - k,
    {
        if space.find_page(base + k).is_none() {
            return -1;
        }
        k = k + 1;
    }
    let ghost orig = *space;
    let mut k: usize = 0;
    while k < npages
        invariant
            space.wf(),
            orig == *old(space),
            base == start as usize / PAGE_SIZE,
            base + npages <= usize::MAX,
            k <= npages,
            forall|v: int| base <= v < base + npages ==> #[trigger] orig.mapped(v),
            forall|v: int|
                #[trigger] space.mapped(v) <==> orig.mapped(v) && !(base <= v < base + k),
            forall|v: int|
                orig.mapped(v) && !(base <= v < base + k) ==> #[trigger] space.page_perm(v)
                    == orig.page_perm(v),
            forall|v: int|
                orig.mapped(v) && !(base <= v < base + k) ==> #[trigger] space.page_bytes(v)
                    == orig.page_bytes(v),
        decreases npages - k,
    {
        space.unmap_page(base + k);
        k = k + 1;
    }
    proof {
        assert(npages as int == page_count(len as int));
        assert(base as int == start as int / (PAGE_SIZE as int));
        assert(munmap_valid(*old(space), start as int, len as int));
    }
    0
}

} // verus!

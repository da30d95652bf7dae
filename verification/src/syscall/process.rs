//! The system calls that concern processes and tasks.
//!
//! Every function takes the state it works on and the values that only the
//! platform can supply: the time, a loaded program, a copied address space.
//! What a system call writes to user memory it writes to a location that
//! the caller passes in.

use crate::config::{MAX_SYSCALL_NUM, PAGE_SIZE};
use crate::sync::deadlock_avoidance::{disable, DeadlockDetect};
use crate::task::context::TaskContext;
use crate::task::manager::{same_but_task, since_first_run, TaskManager};
use crate::task::priority::{Priority, PriorityImpl};
use crate::task::signal::{SignalAction, SignalFlags, MAX_SIG, SIGKILL, SIGSTOP};
use crate::task::task::{ProgramImage, TaskControlBlock, TaskStatus};
use crate::timer::MICRO_PER_SEC;
use vstd::prelude::*;

verus! {

/// A time in seconds and microseconds.
#[derive(Debug, Clone, Copy, PartialEq, Eq, Structural)]
pub struct TimeVal {
    /// The full seconds.
    pub sec: usize,
    /// The microseconds of the second that has begun.
    pub usec: usize,
}

/// What a task learns about itself.
#[derive(Debug, Clone, Copy)]
pub struct TaskInfo {
    /// The status of the task.
    pub status: TaskStatus,
    /// How often the task made each system call.
    pub syscall_times: [u32; MAX_SYSCALL_NUM],
    /// The time since the task was first dispatched, in milliseconds.
    pub time: usize,
}

/// The bits of the protection argument of `mmap` that have a meaning:
/// readable, writable, executable.
pub const PROT_MASK: usize = 0b111;

/// The running task exits with `exit_code` at time `now_us`, and the next
/// task is dispatched.  Its process becomes a zombie and leaves the
/// bookkeeping of the deadlock detection.  Returns the task that runs now, or
/// `None` when no task is ready.
pub fn sys_exit(
    manager: &mut TaskManager,
    detect: &mut DeadlockDetect,
    exit_code: i32,
    now_us: usize,
) -> (next: Option<usize>)
    requires
        old(manager).wf(),
        old(detect).wf(),
        old(manager).kernel_time_due(now_us),
        old(manager).processor().user_timer_us is None,
    ensures
        final(manager).wf(),
        final(detect).wf(),
        !final(detect).is_enabled(old(manager).current().unwrap()),
        final(detect).same_but(old(detect), old(manager).current().unwrap()),
        final(manager).current() == next,
        next is None <==> old(manager).ready().len() == 0,
        exists|mid: TaskManager|
            {
                &&& mid.wf()
                &&& #[trigger] mid.exited_from(old(manager), exit_code, now_us)
                &&& match next {
                    Some(pid) => final(manager).dispatched_from(&mid, pid, now_us),
                    None => final(manager).same_as(&mid),
                }
            },
        final(manager).follows(old(manager)),
{
    let pid = match manager.current_task() {
        Some(pid) => pid,
        None => 0,
    };
    disable(detect, pid);
    manager.exit_current_and_run_next(exit_code, now_us)
}

/// The running task gives up the processor at time `now_us`, and the task
/// that stride scheduling selects is dispatched; this may be the same task
/// again.  Returns 0.
pub fn sys_yield(manager: &mut TaskManager, now_us: usize) -> (r: isize)
    requires
        old(manager).wf(),
        old(manager).kernel_time_due(now_us),
        old(manager).processor().user_timer_us is None,
    ensures
        final(manager).wf(),
        r == 0,
        final(manager).current() is Some,
        exists|mid: TaskManager|
            {
                &&& mid.wf()
                &&& #[trigger] mid.left_from(old(manager), TaskStatus::Ready, now_us)
                &&& final(manager).dispatched_from(&mid, final(manager).current().unwrap(), now_us)
            },
        final(manager).follows(old(manager)),
{
    manager.suspend_current_and_run_next(now_us);
    0
}

/// The identifier of the process of the running task.
pub fn sys_getpid(manager: &TaskManager) -> (r: isize)
    requires
        manager.wf(),
        manager.current() is Some,
    ensures
        r == manager.current().unwrap(),
{
    match manager.current_task() {
        Some(pid) => {
            proof {
                assert(manager.procs().contains_key(pid));
            }
            pid as isize
        },
        None => -1,
    }
}

/// The running task forks: see [`TaskManager::fork`].  Returns the
/// identifier of the child, which itself finds 0 in register `a0`.
pub fn sys_fork(manager: &mut TaskManager, token: usize, task_cx: TaskContext) -> (r: isize)
    requires
        old(manager).wf(),
        old(manager).current() is Some,
        old(manager).next_pid() < isize::MAX,
    ensures
        final(manager).wf(),
        r == old(manager).next_pid(),
        final(manager).forked_from(old(manager), r as usize, token, task_cx),
        final(manager).follows(old(manager)),
{
    let child = manager.fork(token, task_cx);
    child as isize
}

/// The running task replaces its program by `image`, which the caller has
/// loaded from the path that the task named, and hands it the arguments
/// `args`, which the caller has put at `argv_base` in the new address space:
/// see [`TaskManager::exec_program`].  Returns the number of arguments, or
/// -1, with nothing changed, when there is no such program.
pub fn sys_exec(
    manager: &mut TaskManager,
    image: Option<&ProgramImage>,
    sstatus: usize,
    args: &Vec<String>,
    argv_base: usize,
) -> (r: isize)
    requires
        old(manager).wf(),
        old(manager).current() is Some,
        args@.len() <= isize::MAX,
    ensures
        final(manager).wf(),
        match image {
            None => r == -1 && final(manager).same_as(old(manager)),
            Some(program) => r == args@.len() && final(manager).executed_from(
                old(manager),
                *program,
                sstatus,
                args@.len() as usize,
                argv_base,
            ),
        },
        final(manager).follows(old(manager)),
{
    match image {
        Some(program) => {
            let argc = args.len();
            manager.exec_program(program, sstatus, argc, argv_base);
            argc as isize
        },
        None => -1,
    }
}

/// The running task waits for a child: see [`TaskManager::waitpid`].
/// Returns the identifier of the child that was collected, whose exit code
/// is written to `exit_code`; or -1 when there is no such child, or -2 when
/// no such child has exited yet, with `exit_code` as it was.
pub fn sys_waitpid(manager: &mut TaskManager, pid: isize, exit_code: &mut i32) -> (r: isize)
    requires
        old(manager).wf(),
        old(manager).current() is Some,
    ensures
        final(manager).wf(),
        r >= 0 ==> final(manager).waited_from(old(manager), pid, (r, Some(*final(exit_code)))),
        r < 0 ==> final(manager).waited_from(old(manager), pid, (r, None)) && *final(exit_code)
            == *old(exit_code),
        final(manager).follows(old(manager)),
{
    let (found, code) = manager.waitpid(pid);
    match code {
        Some(code) => {
            *exit_code = code;
        },
        None => {},
    }
    proof {
        let parent = old(manager).current().unwrap();
        let children = old(manager).children(parent);
        if code is Some {
            let k = choose|k: int|
                {
                    &&& #[trigger] old(manager).first_zombie_at(parent, pid, k)
                    &&& (found, code) == (
                        children[k] as isize,
                        Some(old(manager).procs()[children[k]].exit_code),
                    )
                };
            assert(old(manager).procs().contains_key(old(manager).children(parent)[k]));
        }
    }
    found
}

/// The running task moves the end of its heap by `size` bytes.  Returns the
/// old end, or -1, with nothing changed, when the new end would lie below
/// the start of the heap or beyond the address range.
pub fn sys_sbrk(manager: &mut TaskManager, size: i32) -> (r: isize)
    requires
        old(manager).wf(),
        old(manager).current() is Some,
    ensures
        final(manager).wf(),
        final(manager).current() == old(manager).current(),
        final(manager).ready() == old(manager).ready(),
        ({
            let pid = old(manager).current().unwrap();
            let before = old(manager).procs()[pid];
            let after = final(manager).procs()[pid];
            &&& final(manager).unchanged_except(old(manager), pid, pid)
            &&& final(manager).procs().contains_key(pid)
            &&& after.task == before.task
            &&& after.children == before.children
            &&& after.heap_bottom == before.heap_bottom
            &&& if before.heap_bottom <= before.program_brk + size <= usize::MAX {
                r == before.program_brk as isize && after.program_brk == before.program_brk + size
            } else {
                r == -1 && after.program_brk == before.program_brk
            }
        }),
{
    manager.change_program_brk(size)
}

/// The time `now_us` in seconds and microseconds, written to `ts`.  Returns 0.
pub fn sys_get_time(ts: &mut TimeVal, _tz: usize, now_us: usize) -> (r: isize)
    ensures
        r == 0,
        final(ts).sec == now_us / MICRO_PER_SEC,
        final(ts).usec == now_us % MICRO_PER_SEC,
{
    ts.sec = now_us / MICRO_PER_SEC;
    ts.usec = now_us % MICRO_PER_SEC;
    0
}

/// What the running task learns about itself at time `now_us`, written to
/// `ti`: its status, how often it made each system call, and the time since
/// it was first dispatched, in milliseconds.  Returns 0.
pub fn sys_task_info(manager: &TaskManager, ti: &mut TaskInfo, now_us: usize) -> (r: isize)
    requires
        manager.wf(),
        manager.current() is Some,
    ensures
        r == 0,
        ({
            let task = manager.procs()[manager.current().unwrap()].task;
            &&& final(ti).status == task.task_status
            &&& final(ti).syscall_times == task.infos.syscall_times
            &&& final(ti).time == since_first_run(task.infos.running_times.first_run_time_us, now_us)
                / 1000
        }),
{
    let (status, info) = manager.current_task_info(now_us);
    ti.status = status;
    ti.syscall_times = info.syscall_times;
    ti.time = info.running_times.real_time_us / 1000;
    0
}

/// The arguments of an `mmap` call are in order: the address is aligned to
/// a page, no bit outside the protection bits is set, and at least one
/// protection bit is.
pub open spec fn mmap_args_valid(addr: usize, prot: usize) -> bool {
    &&& addr % PAGE_SIZE == 0
    &&& prot & !PROT_MASK == 0
    &&& prot & PROT_MASK != 0
}

/// Looks at the arguments of an `mmap` call.  Returns 0 when they are in
/// order, for the caller to map `len` bytes at `addr` with the protection
/// `prot`, and -1 when the address is not aligned or the protection bits
/// are not valid.
pub fn sys_mmap(addr: usize, len: usize, prot: usize) -> (r: isize)
    ensures
        r == if mmap_args_valid(addr, prot) {
            0isize
        } else {
            -1isize
        },
{
    let addr_aligned = addr % PAGE_SIZE == 0;
    let valid_prot = (prot & !PROT_MASK) == 0;
    let prot_none = (prot & PROT_MASK) == 0;
    if addr_aligned && valid_prot && !prot_none {
        0
    } else {
        -1
    }
}

/// Looks at the arguments of a `munmap` call.  Returns 0 when the address
/// is aligned to a page, for the caller to unmap `len` bytes at `addr`, and
/// -1 when it is not.
pub fn sys_munmap(addr: usize, len: usize) -> (r: isize)
    ensures
        r == if addr % PAGE_SIZE == 0 {
            0isize
        } else {
            -1isize
        },
{
    if addr % PAGE_SIZE == 0 {
        0
    } else {
        -1
    }
}

/// The running task creates a process that runs `image`, which the caller
/// has loaded from the path that the task named: see [`TaskManager::spawn`].
/// Returns the identifier of the new process, or -1, with nothing changed,
/// when there is no such program.
pub fn sys_spawn(
    manager: &mut TaskManager,
    image: Option<&ProgramImage>,
    task_cx: TaskContext,
    sstatus: usize,
) -> (r: isize)
    requires
        old(manager).wf(),
        old(manager).current() is Some,
        old(manager).next_pid() < isize::MAX,
    ensures
        final(manager).wf(),
        match image {
            None => r == -1 && final(manager).same_as(old(manager)),
            Some(program) => r == old(manager).next_pid() && final(manager).spawned_from(
                old(manager),
                r as usize,
                *program,
                task_cx,
                sstatus,
            ),
        },
        final(manager).follows(old(manager)),
{
    match image {
        Some(program) => {
            let pid = manager.spawn(program, task_cx, sstatus);
            pid as isize
        },
        None => -1,
    }
}

/// The running task sets its priority to `pri`.  Returns `pri`, or -1, with
/// nothing changed, when `pri` is not a valid priority: less than 2 or more
/// than a priority can hold.
pub fn sys_set_priority(manager: &mut TaskManager, pri: isize) -> (r: isize)
    requires
        old(manager).wf(),
        old(manager).current() is Some,
    ensures
        final(manager).wf(),
        final(manager).current() == old(manager).current(),
        final(manager).ready() == old(manager).ready(),
        if 2 <= pri <= u32::MAX {
            let pid = old(manager).current().unwrap();
            &&& r == pri
            &&& final(manager).unchanged_except(old(manager), pid, pid)
            &&& final(manager).procs().contains_key(pid)
            &&& same_but_task(final(manager).procs()[pid], old(manager).procs()[pid])
            &&& final(manager).procs()[pid].task == (TaskControlBlock {
                priority: PriorityImpl(pri as u32),
                ..old(manager).procs()[pid].task
            })
        } else {
            r == -1 && final(manager).procs() == old(manager).procs()
        },
{
    match Priority::try_from(pri) {
        Ok(priority) => {
            manager.set_priority(priority);
            pri
        },
        Err(_) => -1,
    }
}


/// Signal `signum` is sent to the task of process `pid`.  Returns 0, or -1,
/// with nothing changed, when there is no such process, when `signum` is not
/// the number of a signal, or when the signal has been sent to the task and
/// not been handled yet.
pub fn sys_kill(manager: &mut TaskManager, pid: usize, signum: i32) -> (r: isize)
    requires
        old(manager).wf(),
    ensures
        final(manager).wf(),
        final(manager).current() == old(manager).current(),
        final(manager).ready() == old(manager).ready(),
        ({
            let flag = 1u32 << (signum as u32);
            if old(manager).procs().contains_key(pid) && 0 <= signum <= MAX_SIG && old(
                manager,
            ).procs()[pid].task.signals.bits & flag != flag {
                &&& r == 0
                &&& final(manager).unchanged_except(old(manager), pid, pid)
                &&& final(manager).procs().contains_key(pid)
                &&& same_but_task(final(manager).procs()[pid], old(manager).procs()[pid])
                &&& final(manager).procs()[pid].task == (TaskControlBlock {
                    signals: SignalFlags { bits: old(manager).procs()[pid].task.signals.bits | flag },
                    ..old(manager).procs()[pid].task
                })
            } else {
                r == -1 && final(manager).procs() == old(manager).procs()
            }
        }),
{
    let mut task = match manager.process(pid) {
        Some(pcb) => pcb.task,
        None => {
            return -1;
        },
    };
    match SignalFlags::of_signal(signum) {
        Some(flag) => {
            if task.signals.contains(flag) {
                return -1;
            }
            task.signals.insert(flag);
            manager.set_task(pid, task);
            0
        },
        None => -1,
    }
}

/// The running task holds back the signals in `mask` from now on.  Returns
/// the bits of the set of signals that it held back before.
pub fn sys_sigprocmask(manager: &mut TaskManager, mask: u32) -> (r: isize)
    requires
        old(manager).wf(),
        old(manager).current() is Some,
    ensures
        final(manager).wf(),
        final(manager).current() == old(manager).current(),
        final(manager).ready() == old(manager).ready(),
        ({
            let pid = old(manager).current().unwrap();
            &&& r == old(manager).procs()[pid].task.signal_mask.bits as isize
            &&& final(manager).unchanged_except(old(manager), pid, pid)
            &&& final(manager).procs().contains_key(pid)
            &&& same_but_task(final(manager).procs()[pid], old(manager).procs()[pid])
            &&& final(manager).procs()[pid].task == (TaskControlBlock {
                signal_mask: SignalFlags { bits: mask },
                ..old(manager).procs()[pid].task
            })
        }),
{
    let pid = match manager.current_task() {
        Some(pid) => pid,
        None => {
            return -1;
        },
    };
    let mut task = match manager.process(pid) {
        Some(pcb) => pcb.task,
        None => {
            return -1;
        },
    };
    let old_mask = task.signal_mask;
    match SignalFlags::from_bits(mask) {
        Some(flag) => {
            task.signal_mask = flag;
            manager.set_task(pid, task);
            #[verifier::truncate]
            (old_mask.bits() as isize)
        },
        None => -1,
    }
}

/// The running task returns from a signal handler: no handler runs any
/// more, and the task has the registers again that it had when the handler
/// was entered.  Returns the value of register `a0` among these, or -1, with
/// nothing changed, when no registers are kept.
pub fn sys_sigreturn(manager: &mut TaskManager) -> (r: isize)
    requires
        old(manager).wf(),
        old(manager).current() is Some,
    ensures
        final(manager).wf(),
        final(manager).current() == old(manager).current(),
        final(manager).ready() == old(manager).ready(),
        ({
            let pid = old(manager).current().unwrap();
            let before = old(manager).procs()[pid].task;
            match before.trap_ctx_backup {
                Some(backup) => {
                    &&& r == backup.x[10] as isize
                    &&& final(manager).unchanged_except(old(manager), pid, pid)
                    &&& final(manager).procs().contains_key(pid)
                    &&& same_but_task(final(manager).procs()[pid], old(manager).procs()[pid])
                    &&& final(manager).procs()[pid].task == (TaskControlBlock {
                        handling_sig: -1isize,
                        trap_cx: backup,
                        ..before
                    })
                },
                None => r == -1 && final(manager).procs() == old(manager).procs(),
            }
        }),
{
    let pid = match manager.current_task() {
        Some(pid) => pid,
        None => {
            return -1;
        },
    };
    let mut task = match manager.process(pid) {
        Some(pcb) => pcb.task,
        None => {
            return -1;
        },
    };
    match task.trap_ctx_backup {
        Some(backup) => {
            task.handling_sig = -1;
            task.trap_cx = backup;
            manager.set_task(pid, task);
            #[verifier::truncate]
            (backup.x[10] as isize)
        },
        None => -1,
    }
}

/// Whether an action cannot be set: the new action or the place for the
/// old one is missing, or the signal is one whose action cannot be changed.
pub fn check_sigaction_error(signal: SignalFlags, action: usize, old_action: usize) -> (error: bool)
    ensures
        error == (action == 0 || old_action == 0 || signal.bits == 1u32 << (SIGKILL as u32)
            || signal.bits == 1u32 << (SIGSTOP as u32)),
{
    action == 0 || old_action == 0 || signal.bits == 1u32 << 9 || signal.bits == 1u32 << 19
}

/// The running task sets its action for signal `signum` to `action` and
/// learns the action that it had, which is written to `old_action`.
/// `action_ptr` and `old_action_ptr` are the addresses at which the task
/// keeps the two.  Returns 0, or -1, with nothing changed, when `signum` is
/// not the number of a signal, when an address is null, or when the action
/// of the signal cannot be changed.
pub fn sys_sigaction(
    manager: &mut TaskManager,
    signum: i32,
    action_ptr: usize,
    action: &SignalAction,
    old_action_ptr: usize,
    old_action: &mut SignalAction,
) -> (r: isize)
    requires
        old(manager).wf(),
        old(manager).current() is Some,
    ensures
        final(manager).wf(),
        final(manager).current() == old(manager).current(),
        final(manager).ready() == old(manager).ready(),
        ({
            let pid = old(manager).current().unwrap();
            let before = old(manager).procs()[pid].task;
            if 0 <= signum <= MAX_SIG && action_ptr != 0 && old_action_ptr != 0 && signum != SIGKILL
                && signum != SIGSTOP {
                &&& r == 0
                &&& *final(old_action) == before.signal_actions.table[signum as int]
                &&& final(manager).unchanged_except(old(manager), pid, pid)
                &&& final(manager).procs().contains_key(pid)
                &&& same_but_task(final(manager).procs()[pid], old(manager).procs()[pid])
                &&& final(manager).procs()[pid].task.signal_actions.table@
                    == before.signal_actions.table@.update(signum as int, *action)
                &&& final(manager).procs()[pid].task.task_status == before.task_status
                &&& final(manager).procs()[pid].task.trap_cx == before.trap_cx
                &&& final(manager).procs()[pid].task.signals == before.signals
                &&& final(manager).procs()[pid].task.signal_mask == before.signal_mask
                &&& final(manager).procs()[pid].task.priority == before.priority
                &&& final(manager).procs()[pid].task.stride == before.stride
            } else {
                &&& r == -1
                &&& *final(old_action) == *old(old_action)
                &&& final(manager).procs() == old(manager).procs()
            }
        }),
{
    let pid = match manager.current_task() {
        Some(pid) => pid,
        None => {
            return -1;
        },
    };
    let mut task = match manager.process(pid) {
        Some(pcb) => pcb.task,
        None => {
            return -1;
        },
    };
    match SignalFlags::of_signal(signum) {
        Some(flag) => {
            proof {
                lemma_single_bits(signum as u32);
            }
            if check_sigaction_error(flag, action_ptr, old_action_ptr) {
                return -1;
            }
            let index = signum as usize;
            *old_action = task.signal_actions.table[index];
            task.signal_actions.table[index] = *action;
            manager.set_task(pid, task);
            0
        },
        None => -1,
    }
}

/// Sets of one signal are the same only for the same signal.
proof fn lemma_single_bits(n: u32)
    requires
        n <= 31,
    ensures
        (1u32 << n == 1u32 << 9u32) <==> n == 9,
        (1u32 << n == 1u32 << 19u32) <==> n == 19,
{
    assert((1u32 << n == 1u32 << 9u32) <==> n == 9) by (bit_vector)
        requires
            n <= 31,
    ;
    assert((1u32 << n == 1u32 << 19u32) <==> n == 19) by (bit_vector)
        requires
            n <= 31,
    ;
}

} // verus!

//! Task and process control blocks.

use super::context::TaskContext;
use super::priority::Priority;
use super::signal::{SignalActions, SignalFlags};
use super::stride::Stride;
use crate::config::MAX_SYSCALL_NUM;
use crate::trap::context::TrapContext;
use vstd::prelude::*;

verus! {

/// The status of a task in its life cycle.
#[derive(Copy, Clone, PartialEq, Eq, Debug, Structural)]
pub enum TaskStatus {
    /// Not yet set up.
    UnInit,
    /// Waiting for the processor.
    Ready,
    /// On the processor.
    Running,
    /// Waiting in the queue of a synchronization primitive.
    Blocked,
    /// Exited and not yet collected by its parent.
    Zombie,
}

impl TaskStatus {
    /// The steps of the life cycle: a task is set up, is dispatched, leaves
    /// the processor by yielding, blocking or exiting, and is woken; a task
    /// that is terminated while it is blocked has exited without being woken.
    pub open spec fn can_become(self, next: TaskStatus) -> bool {
        match (self, next) {
            (TaskStatus::UnInit, TaskStatus::Ready) => true,
            (TaskStatus::Ready, TaskStatus::Running) => true,
            (TaskStatus::Running, TaskStatus::Ready) => true,
            (TaskStatus::Running, TaskStatus::Blocked) => true,
            (TaskStatus::Running, TaskStatus::Zombie) => true,
            (TaskStatus::Blocked, TaskStatus::Ready) => true,
            (TaskStatus::Blocked, TaskStatus::Zombie) => true,
            _ => false,
        }
    }

    /// Whether a task in this status may take the step to `next`.
    pub fn may_become(self, next: TaskStatus) -> (b: bool)
        ensures
            b == self.can_become(next),
    {
        match (self, next) {
            (TaskStatus::UnInit, TaskStatus::Ready) => true,
            (TaskStatus::Ready, TaskStatus::Running) => true,
            (TaskStatus::Running, TaskStatus::Ready) => true,
            (TaskStatus::Running, TaskStatus::Blocked) => true,
            (TaskStatus::Running, TaskStatus::Zombie) => true,
            (TaskStatus::Blocked, TaskStatus::Ready) => true,
            (TaskStatus::Blocked, TaskStatus::Zombie) => true,
            _ => false,
        }
    }
}

/// The times that a task has run for, in microseconds.
#[derive(Debug, Clone, Copy, PartialEq, Eq, Structural)]
pub struct RunningTimeInfo {
    /// Time spent in user mode.
    pub user_time_us: usize,
    /// Time spent in the kernel on behalf of the task.
    pub kernel_time_us: usize,
    /// Time since the task was first dispatched, as of the last snapshot.
    pub real_time_us: usize,
    /// When the task was first dispatched, if it ever was.
    pub first_run_time_us: Option<usize>,
}

/// The accounting block of a task.
#[derive(Debug, Clone, Copy, PartialEq, Eq)]
pub struct TaskInfoBlock {
    /// How often the task made each system call, by system call identifier.
    pub syscall_times: [u32; MAX_SYSCALL_NUM],
    /// The times the task has run for.
    pub running_times: RunningTimeInfo,
}

impl TaskInfoBlock {
    /// The accounting block of a task that has not run yet.
    pub fn new() -> (info: Self)
        ensures
            forall|i: int| 0 <= i < MAX_SYSCALL_NUM ==> info.syscall_times[i] == 0,
            info.running_times == (RunningTimeInfo {
                user_time_us: 0,
                kernel_time_us: 0,
                real_time_us: 0,
                first_run_time_us: None,
            }),
    {
        TaskInfoBlock {
            syscall_times: [0;MAX_SYSCALL_NUM],
            running_times: RunningTimeInfo {
                user_time_us: 0,
                kernel_time_us: 0,
                real_time_us: 0,
                first_run_time_us: None,
            },
        }
    }

    /// Count one more call of system call `syscall_id`.  Identifiers from
    /// [`MAX_SYSCALL_NUM`] on are not counted.
    pub fn update_syscall_times(&mut self, syscall_id: usize)
        requires
            syscall_id < MAX_SYSCALL_NUM ==> old(self).syscall_times[syscall_id as int] < u32::MAX,
        ensures
            final(self).running_times == old(self).running_times,
            syscall_id < MAX_SYSCALL_NUM ==> final(self).syscall_times@ == old(
                self,
            ).syscall_times@.update(
                syscall_id as int,
                (old(self).syscall_times[syscall_id as int] + 1) as u32,
            ),
            syscall_id >= MAX_SYSCALL_NUM ==> final(self).syscall_times@ == old(self).syscall_times@,
    {
        if syscall_id < MAX_SYSCALL_NUM {
            let count = self.syscall_times[syscall_id];
            self.syscall_times[syscall_id] = count + 1;
        }
    }
}

impl Default for TaskInfoBlock {
    fn default() -> (info: Self)
        ensures
            forall|i: int| 0 <= i < MAX_SYSCALL_NUM ==> info.syscall_times[i] == 0,
            info.running_times == (RunningTimeInfo {
                user_time_us: 0,
                kernel_time_us: 0,
                real_time_us: 0,
                first_run_time_us: None,
            }),
    {
        Self::new()
    }
}

/// The task control block: what the kernel keeps of one schedulable flow of control.
#[derive(Debug, Clone, Copy)]
pub struct TaskControlBlock {
    /// The identifier of the task.
    pub tid: usize,
    /// The identifier of the process that the task belongs to.  The task
    /// does not own its process: it finds it in the process table.
    pub pid: usize,
    /// Where the task is in its life cycle.
    pub task_status: TaskStatus,
    /// The context of the task's flow of control in the kernel.  It is valid,
    /// that is safe to switch to, whenever the task is not running.
    pub task_cx: TaskContext,
    /// The registers of the task in user mode.
    pub trap_cx: TrapContext,
    /// The weight of the task in stride scheduling.
    pub priority: Priority,
    /// The stride of the task.
    pub stride: Stride,
    /// The accounting block of the task.
    pub infos: TaskInfoBlock,
    /// The signals that have been sent to the task and not yet handled.
    pub signals: SignalFlags,
    /// The signals that the task holds back.
    pub signal_mask: SignalFlags,
    /// The number of the signal whose handler runs, or -1.
    pub handling_sig: isize,
    /// What the task does when a signal arrives.
    pub signal_actions: SignalActions,
    /// The registers of the task as they were when the handler that runs
    /// was entered.
    pub trap_ctx_backup: Option<TrapContext>,
}

/// The process control block: what the kernel keeps of one address space
/// and of the task that runs in it.
#[derive(Debug)]
pub struct ProcessControlBlock {
    /// The identifier of the process, which also identifies its task.
    pub pid: usize,
    /// The processes that this process has created and not yet collected,
    /// oldest first.
    pub children: Vec<usize>,
    /// The exit code, once the process has exited.
    pub exit_code: i32,
    /// The token of the address space.
    pub token: usize,
    /// Where the heap of the process starts.
    pub heap_bottom: usize,
    /// Where the heap of the process ends.
    pub program_brk: usize,
    /// The task of the process.
    pub task: TaskControlBlock,
}

/// A program that has been loaded into an address space of its own, ready
/// to run.
#[derive(Debug, Clone, Copy)]
pub struct ProgramImage {
    /// The token of the address space that holds the program.
    pub token: usize,
    /// Where the program starts.
    pub entry_point: usize,
    /// The top of the program's stack in user space.
    pub user_sp: usize,
    /// Where the heap of the program starts.
    pub heap_bottom: usize,
}

impl ProcessControlBlock {
    /// The process has exited.
    pub open spec fn is_zombie(&self) -> bool {
        self.task.task_status == TaskStatus::Zombie
    }

    /// The identifier of the process.
    pub fn getpid(&self) -> (pid: usize)
        ensures
            pid == self.pid,
    {
        self.pid
    }

    /// Whether the process has exited.
    pub fn zombie(&self) -> (b: bool)
        ensures
            b == self.is_zombie(),
    {
        self.task.task_status == TaskStatus::Zombie
    }

    /// Move the end of the heap by `size` bytes.  Returns the old end, or
    /// `None`, with nothing changed, when the new end would lie below the
    /// start of the heap or beyond the address range.
    pub fn change_program_brk(&mut self, size: i32) -> (old_brk: Option<usize>)
        ensures
            final(self).pid == old(self).pid,
            final(self).children == old(self).children,
            final(self).exit_code == old(self).exit_code,
            final(self).token == old(self).token,
            final(self).heap_bottom == old(self).heap_bottom,
            final(self).task == old(self).task,
            old(self).heap_bottom <= old(self).program_brk + size <= usize::MAX ==> old_brk == Some(
                old(self).program_brk,
            ) && final(self).program_brk == old(self).program_brk + size,
            !(old(self).heap_bottom <= old(self).program_brk + size <= usize::MAX) ==> old_brk
                is None && final(self).program_brk == old(self).program_brk,
    {
        let old_break = self.program_brk;
        let new_break: usize = if size >= 0 {
            match old_break.checked_add(size as usize) {
                Some(brk) => brk,
                None => {
                    return None;
                },
            }
        } else {
            let back: usize = (-(size as i64)) as usize;
            if back > old_break {
                return None;
            }
            old_break - back
        };
        if new_break < self.heap_bottom {
            return None;
        }
        self.program_brk = new_break;
        Some(old_break)
    }
}

} // verus!

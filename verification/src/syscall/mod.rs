//! System calls.
//!
//! A task asks for a service of the kernel by a number and up to four
//! arguments.  [`syscall`] counts the call for the running task and says
//! which service is meant, with its arguments in their types; the services
//! that concern processes are the functions of [`process`].

pub mod checker;
pub mod process;

use crate::config::MAX_SYSCALL_NUM;
use crate::task::manager::TaskManager;
use vstd::prelude::*;

verus! {

/// Number of the `unlinkat` system call.
pub const SYSCALL_UNLINKAT: usize = 35;

/// Number of the `linkat` system call.
pub const SYSCALL_LINKAT: usize = 37;

/// Number of the `open` system call.
pub const SYSCALL_OPEN: usize = 56;

/// Number of the `close` system call.
pub const SYSCALL_CLOSE: usize = 57;

/// Number of the `read` system call.
pub const SYSCALL_READ: usize = 63;

/// Number of the `write` system call.
pub const SYSCALL_WRITE: usize = 64;

/// Number of the `fstat` system call.
pub const SYSCALL_FSTAT: usize = 80;

/// Number of the `exit` system call.
pub const SYSCALL_EXIT: usize = 93;

/// Number of the `yield` system call.
pub const SYSCALL_YIELD: usize = 124;

/// Number of the `set_priority` system call.
pub const SYSCALL_SET_PRIORITY: usize = 140;

/// Number of the `get_time` system call.
pub const SYSCALL_GET_TIME: usize = 169;

/// Number of the `getpid` system call.
pub const SYSCALL_GETPID: usize = 172;

/// Number of the `sbrk` system call.
pub const SYSCALL_SBRK: usize = 214;

/// Number of the `munmap` system call.
pub const SYSCALL_MUNMAP: usize = 215;

/// Number of the `fork` system call.
pub const SYSCALL_FORK: usize = 220;

/// Number of the `exec` system call.
pub const SYSCALL_EXEC: usize = 221;

/// Number of the `mmap` system call.
pub const SYSCALL_MMAP: usize = 222;

/// Number of the `waitpid` system call.
pub const SYSCALL_WAITPID: usize = 260;

/// Number of the `spawn` system call.
pub const SYSCALL_SPAWN: usize = 400;

/// Number of the `task_info` system call.
pub const SYSCALL_TASK_INFO: usize = 410;

/// A system call with its arguments.  Addresses are addresses in the
/// address space of the calling task.
#[derive(Debug, Clone, Copy, PartialEq, Eq, Structural)]
pub enum Syscall {
    /// Open the file whose path is at `path`.
    Open { path: usize, flags: u32 },
    /// Close the file `fd`.
    Close { fd: usize },
    /// Give the file whose path is at `old_path` the further path at `new_path`.
    Linkat { old_path: usize, new_path: usize },
    /// Take the path at `path` from its file.
    Unlinkat { path: usize },
    /// Read up to `len` bytes from the file `fd` to `buf`.
    Read { fd: usize, buf: usize, len: usize },
    /// Write `len` bytes from `buf` to the file `fd`.
    Write { fd: usize, buf: usize, len: usize },
    /// Write the status of the file `fd` to `stat`.
    Fstat { fd: usize, stat: usize },
    /// Exit with `exit_code`.
    Exit { exit_code: i32 },
    /// Give up the processor.
    Yield,
    /// Ask for the own process identifier.
    Getpid,
    /// Fork.
    Fork,
    /// Run the program whose path is at `path`.
    Exec { path: usize },
    /// Wait for the child `pid`, or for any child if `pid` is -1, and write
    /// its exit code to `exit_code_ptr`.
    Waitpid { pid: isize, exit_code_ptr: usize },
    /// Write the time to `ts`.
    GetTime { ts: usize, tz: usize },
    /// Write what the task learns about itself to `info`.
    TaskInfo { info: usize },
    /// Map `len` bytes at `addr` with the protection `prot`.
    Mmap { addr: usize, len: usize, prot: usize },
    /// Unmap `len` bytes at `addr`.
    Munmap { addr: usize, len: usize },
    /// Move the end of the heap by `size` bytes.
    Sbrk { size: i32 },
    /// Create a process that runs the program whose path is at `path`.
    Spawn { path: usize },
    /// Set the priority to `priority`.
    SetPriority { priority: isize },
}

/// The system call that the number `syscall_id` and the arguments `args`
/// stand for, if the number is that of a system call.
pub open spec fn decode(syscall_id: usize, args: [usize; 4]) -> Option<Syscall> {
    if syscall_id == SYSCALL_OPEN {
        Some(Syscall::Open { path: args[1], flags: args[2] as u32 })
    } else if syscall_id == SYSCALL_CLOSE {
        Some(Syscall::Close { fd: args[0] })
    } else if syscall_id == SYSCALL_LINKAT {
        Some(Syscall::Linkat { old_path: args[1], new_path: args[3] })
    } else if syscall_id == SYSCALL_UNLINKAT {
        Some(Syscall::Unlinkat { path: args[1] })
    } else if syscall_id == SYSCALL_READ {
        Some(Syscall::Read { fd: args[0], buf: args[1], len: args[2] })
    } else if syscall_id == SYSCALL_WRITE {
        Some(Syscall::Write { fd: args[0], buf: args[1], len: args[2] })
    } else if syscall_id == SYSCALL_FSTAT {
        Some(Syscall::Fstat { fd: args[0], stat: args[1] })
    } else if syscall_id == SYSCALL_EXIT {
        Some(Syscall::Exit { exit_code: args[0] as i32 })
    } else if syscall_id == SYSCALL_YIELD {
        Some(Syscall::Yield)
    } else if syscall_id == SYSCALL_GETPID {
        Some(Syscall::Getpid)
    } else if syscall_id == SYSCALL_FORK {
        Some(Syscall::Fork)
    } else if syscall_id == SYSCALL_EXEC {
        Some(Syscall::Exec { path: args[0] })
    } else if syscall_id == SYSCALL_WAITPID {
        Some(Syscall::Waitpid { pid: args[0] as isize, exit_code_ptr: args[1] })
    } else if syscall_id == SYSCALL_GET_TIME {
        Some(Syscall::GetTime { ts: args[0], tz: args[1] })
    } else if syscall_id == SYSCALL_TASK_INFO {
        Some(Syscall::TaskInfo { info: args[0] })
    } else if syscall_id == SYSCALL_MMAP {
        Some(Syscall::Mmap { addr: args[0], len: args[1], prot: args[2] })
    } else if syscall_id == SYSCALL_MUNMAP {
        Some(Syscall::Munmap { addr: args[0], len: args[1] })
    } else if syscall_id == SYSCALL_SBRK {
        Some(Syscall::Sbrk { size: args[0] as i32 })
    } else if syscall_id == SYSCALL_SPAWN {
        Some(Syscall::Spawn { path: args[0] })
    } else if syscall_id == SYSCALL_SET_PRIORITY {
        Some(Syscall::SetPriority { priority: args[0] as isize })
    } else {
        None
    }
}

/// The running task makes the system call with the number `syscall_id` and
/// the arguments `args`: the call is counted for the task, and the result
/// says which call it is.  A number that is not that of a system call gives
/// `None`; it is counted all the same.
pub fn syscall(manager: &mut TaskManager, syscall_id: usize, args: [usize; 4]) -> (call: Option<
    Syscall,
>)
    requires
        old(manager).wf(),
        old(manager).current() is Some,
        syscall_id < MAX_SYSCALL_NUM ==> old(manager).procs()[old(
            manager,
        ).current().unwrap()].task.infos.syscall_times[syscall_id as int] < u32::MAX,
    ensures
        final(manager).wf(),
        call == decode(syscall_id, args),
        final(manager).ready() == old(manager).ready(),
        final(manager).processor() == old(manager).processor(),
        final(manager).unchanged_except(
            old(manager),
            old(manager).current().unwrap(),
            old(manager).current().unwrap(),
        ),
        final(manager).procs().contains_key(old(manager).current().unwrap()),
        ({
            let before = old(manager).procs()[old(manager).current().unwrap()].task.infos;
            let after = final(manager).procs()[old(manager).current().unwrap()].task.infos;
            &&& after.running_times == before.running_times
            &&& syscall_id < MAX_SYSCALL_NUM ==> after.syscall_times@
                == before.syscall_times@.update(
                syscall_id as int,
                (before.syscall_times[syscall_id as int] + 1) as u32,
            )
            &&& syscall_id >= MAX_SYSCALL_NUM ==> after.syscall_times@ == before.syscall_times@
        }),
{
    manager.update_syscall_times(syscall_id);
    match syscall_id {
        SYSCALL_OPEN => Some(
            Syscall::Open {
                path: args[1],
                flags: #[verifier::truncate]
                (args[2] as u32),
            },
        ),
        SYSCALL_CLOSE => Some(Syscall::Close { fd: args[0] }),
        SYSCALL_LINKAT => Some(Syscall::Linkat { old_path: args[1], new_path: args[3] }),
        SYSCALL_UNLINKAT => Some(Syscall::Unlinkat { path: args[1] }),
        SYSCALL_READ => Some(Syscall::Read { fd: args[0], buf: args[1], len: args[2] }),
        SYSCALL_WRITE => Some(Syscall::Write { fd: args[0], buf: args[1], len: args[2] }),
        SYSCALL_FSTAT => Some(Syscall::Fstat { fd: args[0], stat: args[1] }),
        SYSCALL_EXIT => Some(
            Syscall::Exit {
                exit_code: #[verifier::truncate]
                (args[0] as i32),
            },
        ),
        SYSCALL_YIELD => Some(Syscall::Yield),
        SYSCALL_GETPID => Some(Syscall::Getpid),
        SYSCALL_FORK => Some(Syscall::Fork),
        SYSCALL_EXEC => Some(Syscall::Exec { path: args[0] }),
        SYSCALL_WAITPID => Some(
            Syscall::Waitpid {
                pid: #[verifier::truncate]
                (args[0] as isize),
                exit_code_ptr: args[1],
            },
        ),
        SYSCALL_GET_TIME => Some(Syscall::GetTime { ts: args[0], tz: args[1] }),
        SYSCALL_TASK_INFO => Some(Syscall::TaskInfo { info: args[0] }),
        SYSCALL_MMAP => Some(Syscall::Mmap { addr: args[0], len: args[1], prot: args[2] }),
        SYSCALL_MUNMAP => Some(Syscall::Munmap { addr: args[0], len: args[1] }),
        SYSCALL_SBRK => Some(
            Syscall::Sbrk {
                size: #[verifier::truncate]
                (args[0] as i32),
            },
        ),
        SYSCALL_SPAWN => Some(Syscall::Spawn { path: args[0] }),
        SYSCALL_SET_PRIORITY => Some(
            Syscall::SetPriority {
                priority: #[verifier::truncate]
                (args[0] as isize),
            },
        ),
        _ => None,
    }
}

} // verus!

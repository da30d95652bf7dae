//! The task manager: the process table, the ready queue and the processor.
//!
//! The manager is the one state object of the scheduler.  Its operations are
//! the steps of the kernel that concern tasks: a task is created, is
//! dispatched by stride scheduling, yields, blocks, is woken, exits and is
//! collected by its parent.  The manager keeps the context of every control
//! flow that is not on the processor; the switch between two of them is a
//! step of its own, taken on the registers that the caller hands in.

use super::context::{switch, TaskContext};
use super::priority::Priority;
use super::processor::{elapsed, stoppable, Processor};
use super::signal::{SignalActions, SignalFlags};
use super::stride::{Stride, StrideImpl};
use super::task::{
    ProcessControlBlock, ProgramImage, TaskControlBlock, TaskInfoBlock, TaskStatus,
};
use crate::trap::context::TrapContext;
use std::collections::BTreeMap;
use std::collections::VecDeque;
use vstd::prelude::*;

verus! {

broadcast use vstd::std_specs::btree::group_btree_axioms;

/// The task manager.
#[derive(Debug)]
pub struct TaskManager {
    table: BTreeMap<usize, ProcessControlBlock>,
    ready_queue: VecDeque<usize>,
    processor: Processor,
    next_pid: usize,
    initproc: Option<usize>,
}

impl TaskManager {
    /// The process table: the control block of every process that has been
    /// created and not yet collected, by process identifier.
    pub closed spec fn procs(&self) -> Map<usize, ProcessControlBlock> {
        self.table@
    }

    /// The tasks that are ready to run, in the order in which they became so.
    pub closed spec fn ready(&self) -> Seq<usize> {
        self.ready_queue@
    }

    /// The processor.
    pub closed spec fn processor(&self) -> Processor {
        self.processor
    }

    /// The task that runs on the processor, if any.
    pub open spec fn current(&self) -> Option<usize> {
        self.processor().current
    }

    /// The first process that was created, which adopts the children of the
    /// processes that exit.
    pub closed spec fn initproc(&self) -> Option<usize> {
        self.initproc
    }

    /// The identifier that the next process gets.
    pub closed spec fn next_pid(&self) -> usize {
        self.next_pid
    }

    /// The status of the task of process `pid`.
    pub open spec fn status(&self, pid: usize) -> TaskStatus {
        self.procs()[pid].task.task_status
    }

    /// The children of process `pid`.
    pub open spec fn children(&self, pid: usize) -> Seq<usize> {
        self.procs()[pid].children@
    }

    /// Every process is filed under its identifier, which is below the next
    /// one to be given out and is also the identifier of its task, and has a
    /// valid priority.  Identifiers fit the signed integers in which system
    /// calls return them.
    pub open spec fn table_wf(&self) -> bool {
        &&& self.next_pid() <= isize::MAX
        &&& forall|pid: usize| #[trigger]
            self.procs().contains_key(pid) ==> {
                &&& self.procs()[pid].pid == pid
                &&& self.procs()[pid].task.pid == pid
                &&& self.procs()[pid].task.tid == pid
                &&& pid < self.next_pid()
                &&& self.procs()[pid].task.priority.0 >= 2
            }
    }

    /// No timer runs while no task is on the processor.
    pub open spec fn idle_wf(&self) -> bool {
        self.current() is None ==> self.processor().kernel_timer_us is None
            && self.processor().user_timer_us is None
    }

    /// A task is running exactly when it is the one on the processor.
    pub open spec fn current_wf(&self) -> bool {
        &&& self.current() matches Some(pid) ==> self.procs().contains_key(pid)
        &&& forall|pid: usize| #[trigger]
            self.procs().contains_key(pid) ==> (self.status(pid) == TaskStatus::Running
                <==> self.current() == Some(pid))
    }

    /// A task is ready exactly when it is in the ready queue, where it is once.
    pub open spec fn ready_wf(&self) -> bool {
        &&& self.ready().no_duplicates()
        &&& forall|i: int|
            0 <= i < self.ready().len() ==> self.procs().contains_key(#[trigger] self.ready()[i])
                && self.status(self.ready()[i]) == TaskStatus::Ready
        &&& forall|pid: usize| #[trigger]
            self.procs().contains_key(pid) && self.status(pid) == TaskStatus::Ready
                ==> self.ready().contains(pid)
    }

    /// A child is a process in the table; it is the child of one process and
    /// listed once; the first process is nobody's child.
    pub open spec fn children_wf(&self) -> bool {
        &&& forall|pid: usize, k: int|
            self.procs().contains_key(pid) && 0 <= k < self.children(pid).len() ==> {
                &&& self.procs().contains_key(#[trigger] self.children(pid)[k])
                &&& self.initproc() != Some(self.children(pid)[k])
            }
        &&& forall|p: usize, q: usize, k: int, l: int|
            self.procs().contains_key(p) && self.procs().contains_key(q) && 0 <= k
                < self.children(p).len() && 0 <= l < self.children(q).len()
                && #[trigger] self.children(p)[k] == #[trigger] self.children(q)[l] ==> p == q
                && k == l
        &&& self.initproc() matches Some(root) ==> self.procs().contains_key(root)
        &&& self.initproc() is None ==> forall|pid: usize| !self.procs().contains_key(pid)
    }

    /// `self` and `before` have the same processes, with the same control
    /// blocks, but for the processes `a` and `b`.
    pub open spec fn unchanged_except(&self, before: &TaskManager, a: usize, b: usize) -> bool {
        forall|q: usize|
            q != a && q != b ==> (#[trigger] self.procs().contains_key(q)
                == before.procs().contains_key(q)) && (self.procs().contains_key(q)
                ==> self.procs()[q] == before.procs()[q])
    }

    /// The invariant of the task manager.
    pub open spec fn wf(&self) -> bool {
        &&& self.table_wf()
        &&& self.current_wf()
        &&& self.ready_wf()
        &&& self.children_wf()
        &&& self.idle_wf()
    }

    /// The invariant carries over to a state that differs in the timers only.
    pub proof fn lemma_wf_timers(&self, after: &TaskManager)
        requires
            self.wf(),
            after.procs() == self.procs(),
            after.ready() == self.ready(),
            after.initproc() == self.initproc(),
            after.next_pid() == self.next_pid(),
            after.current() == self.current(),
            after.idle_wf(),
        ensures
            after.wf(),
    {
        assert(after.table_wf()) by {
            assert forall|pid: usize| #[trigger] after.procs().contains_key(pid) implies {
                &&& after.procs()[pid].pid == pid
                &&& after.procs()[pid].task.pid == pid
                &&& after.procs()[pid].task.tid == pid
                &&& pid < after.next_pid()
                &&& after.procs()[pid].task.priority.0 >= 2
            } by {
                assert(self.procs().contains_key(pid));
            }
        }
        assert(after.current_wf()) by {
            assert forall|pid: usize| #[trigger] after.procs().contains_key(pid) implies (
            after.status(pid) == TaskStatus::Running <==> after.current() == Some(pid)) by {
                assert(self.procs().contains_key(pid));
            }
        }
        assert(after.ready_wf()) by {
            assert forall|i: int| 0 <= i < after.ready().len() implies after.procs().contains_key(
                #[trigger] after.ready()[i],
            ) && after.status(after.ready()[i]) == TaskStatus::Ready by {
                assert(self.procs().contains_key(self.ready()[i]));
            }
            assert forall|pid: usize| #[trigger]
                after.procs().contains_key(pid) && after.status(pid)
                    == TaskStatus::Ready implies after.ready().contains(pid) by {
                assert(self.procs().contains_key(pid));
            }
        }
        self.lemma_children_kept(after);
    }

    /// The children invariant carries over to a state with the same
    /// processes, the same children and the same first process.
    pub proof fn lemma_children_kept(&self, after: &TaskManager)
        requires
            self.children_wf(),
            after.initproc() == self.initproc(),
            forall|pid: usize|
                after.procs().contains_key(pid) == #[trigger] self.procs().contains_key(pid),
            forall|pid: usize| #[trigger]
                self.procs().contains_key(pid) ==> after.children(pid) == self.children(pid),
        ensures
            after.children_wf(),
    {
        assert forall|p: usize, k: int|
            after.procs().contains_key(p) && 0 <= k < after.children(p).len() implies {
            &&& after.procs().contains_key(#[trigger] after.children(p)[k])
            &&& after.initproc() != Some(after.children(p)[k])
        } by {
            assert(self.procs().contains_key(p));
            assert(self.procs().contains_key(self.children(p)[k]));
        }
        assert forall|p: usize, q: usize, k: int, l: int|
            after.procs().contains_key(p) && after.procs().contains_key(q) && 0 <= k
                < after.children(p).len() && 0 <= l < after.children(q).len()
                && #[trigger] after.children(p)[k] == #[trigger] after.children(
                q,
            )[l] implies p == q && k == l by {
            assert(self.procs().contains_key(p));
            assert(self.procs().contains_key(q));
            assert(self.children(p)[k] == self.children(q)[l]);
        }
        assert(after.initproc() is None ==> forall|pid: usize| !after.procs().contains_key(pid)) by {
            if after.initproc() is None {
                assert forall|pid: usize| !after.procs().contains_key(pid) by {
                    assert(!self.procs().contains_key(pid));
                }
            }
        }
    }

    /// A manager without processes.
    pub fn new() -> (m: Self)
        ensures
            m.wf(),
            m.procs() == Map::<usize, ProcessControlBlock>::empty(),
            m.ready().len() == 0,
            m.current() is None,
            m.initproc() is None,
            m.next_pid() == 0,
            m.processor().kernel_timer_us is None,
            m.processor().user_timer_us is None,
    {
        TaskManager {
            table: BTreeMap::new(),
            ready_queue: VecDeque::new(),
            processor: Processor::new(),
            next_pid: 0,
            initproc: None,
        }
    }

    /// The control block of process `pid`, if there is such a process.
    pub fn process(&self, pid: usize) -> (pcb: Option<&ProcessControlBlock>)
        ensures
            pcb is Some == self.procs().contains_key(pid),
            pcb matches Some(p) ==> *p == self.procs()[pid],
    {
        self.table.get(&pid)
    }

    /// The task that runs on the processor, if any.
    pub fn current_task(&self) -> (pid: Option<usize>)
        ensures
            pid == self.current(),
    {
        self.processor.current
    }

    /// The state of the processor.
    pub fn processor_state(&self) -> (p: Processor)
        ensures
            p == self.processor(),
    {
        self.processor
    }

    /// The number of tasks that are ready to run.
    pub fn ready_count(&self) -> (n: usize)
        ensures
            n == self.ready().len(),
    {
        self.ready_queue.len()
    }

    /// The identifier that the next process gets.
    pub fn next_process_id(&self) -> (pid: usize)
        ensures
            pid == self.next_pid(),
    {
        self.next_pid
    }

    /// The first process, if it has been created.
    pub fn init_process(&self) -> (pid: Option<usize>)
        ensures
            pid == self.initproc(),
    {
        self.initproc
    }

    /// The token of the address space of the running task.
    pub fn current_user_token(&self) -> (token: usize)
        requires
            self.wf(),
            self.current() is Some,
        ensures
            token == self.procs()[self.current().unwrap()].token,
    {
        match self.processor.current {
            Some(pid) => match self.table.get(&pid) {
                Some(pcb) => pcb.token,
                None => 0,
            },
            None => 0,
        }
    }

    /// The trap context of the running task.
    pub fn current_trap_cx(&self) -> (cx: Option<&TrapContext>)
        requires
            self.wf(),
        ensures
            cx is Some == self.current() is Some,
            cx matches Some(c) ==> *c == self.procs()[self.current().unwrap()].task.trap_cx,
    {
        match self.processor.current {
            Some(pid) => match self.table.get(&pid) {
                Some(pcb) => Some(&pcb.task.trap_cx),
                None => None,
            },
            None => None,
        }
    }
}


/// The control block `after` is `before` with other children.
pub open spec fn same_but_children(after: ProcessControlBlock, before: ProcessControlBlock) -> bool {
    &&& after.pid == before.pid
    &&& after.exit_code == before.exit_code
    &&& after.token == before.token
    &&& after.heap_bottom == before.heap_bottom
    &&& after.program_brk == before.program_brk
    &&& after.task == before.task
}

/// The control block `after` is `before` with another task control block.
pub open spec fn same_but_task(after: ProcessControlBlock, before: ProcessControlBlock) -> bool {
    &&& after.pid == before.pid
    &&& after.children == before.children
    &&& after.exit_code == before.exit_code
    &&& after.token == before.token
    &&& after.heap_bottom == before.heap_bottom
    &&& after.program_brk == before.program_brk
}

impl TaskManager {
    /// `pid` has joined the processes of `before` as a child of the
    /// running task, if there is one: it is the last of its children.
    pub open spec fn joined_by(&self, before: &TaskManager, pid: usize) -> bool {
        match before.current() {
            Some(parent) => {
                &&& self.unchanged_except(before, pid, parent)
                &&& self.procs().contains_key(parent)
                &&& same_but_children(self.procs()[parent], before.procs()[parent])
                &&& self.children(parent) == before.children(parent).push(pid)
            },
            None => self.unchanged_except(before, pid, pid),
        }
    }

    /// `self` is `before` with the new process `pid`, whose task is `task`
    /// and is ready to run: the process has the next identifier, no
    /// children and the given address space; it is a child of the running
    /// task and at the end of the ready queue; it is the first process if
    /// there was none.
    pub open spec fn adopted_from(
        &self,
        before: &TaskManager,
        pid: usize,
        task: TaskControlBlock,
        token: usize,
        heap_bottom: usize,
        program_brk: usize,
    ) -> bool {
        &&& pid == before.next_pid()
        &&& self.next_pid() == pid + 1
        &&& !before.procs().contains_key(pid)
        &&& self.procs().contains_key(pid)
        &&& self.procs()[pid].pid == pid
        &&& self.procs()[pid].children@.len() == 0
        &&& self.procs()[pid].exit_code == 0
        &&& self.procs()[pid].token == token
        &&& self.procs()[pid].heap_bottom == heap_bottom
        &&& self.procs()[pid].program_brk == program_brk
        &&& self.procs()[pid].task == task
        &&& task.tid == pid
        &&& task.pid == pid
        &&& self.ready() == before.ready().push(pid)
        &&& self.processor() == before.processor()
        &&& self.initproc() == if before.initproc() is None {
            Some(pid)
        } else {
            before.initproc()
        }
        &&& self.joined_by(before, pid)
    }

    /// `task` is a task that has not run: it is ready, starts in the kernel
    /// in the context `task_cx`, has counted no system call and no time, and
    /// has no signal pending and no handler running.
    pub open spec fn fresh_task(task: TaskControlBlock, task_cx: TaskContext) -> bool {
        &&& task.task_status == TaskStatus::Ready
        &&& task.task_cx == task_cx
        &&& forall|i: int| 0 <= i < crate::config::MAX_SYSCALL_NUM ==> task.infos.syscall_times[i] == 0
        &&& task.infos.running_times == (super::task::RunningTimeInfo {
            user_time_us: 0,
            kernel_time_us: 0,
            real_time_us: 0,
            first_run_time_us: None,
        })
        &&& task.signals.bits == 0
        &&& task.handling_sig == -1
        &&& task.trap_ctx_backup is None
    }

    /// `self` is `before` after process `pid` has been created to run
    /// `image`: see [`Self::spawn`].
    pub open spec fn spawned_from(
        &self,
        before: &TaskManager,
        pid: usize,
        image: ProgramImage,
        task_cx: TaskContext,
        sstatus: usize,
    ) -> bool {
        let task = self.procs()[pid].task;
        &&& self.adopted_from(before, pid, task, image.token, image.heap_bottom, image.heap_bottom)
        &&& Self::fresh_task(task, task_cx)
        &&& crate::trap::context::starts_program(
            task.trap_cx,
            image.entry_point,
            image.user_sp,
            sstatus,
        )
        &&& task.priority.0 == 16
        &&& task.stride.value() == match before.current() {
            Some(parent) => before.procs()[parent].task.stride.value(),
            None => 0,
        }
        &&& task.signal_mask.bits == 0
        &&& forall|i: int|
            0 <= i < super::signal::SIG_COUNT ==> task.signal_actions.table[i] == (
            super::signal::SignalAction {
                handler: 0,
                mask: SignalFlags { bits: super::signal::DEFAULT_ACTION_MASK },
            })
    }

    /// `self` is `before` after the running task has forked the process
    /// `child`: see [`Self::fork`].
    pub open spec fn forked_from(
        &self,
        before: &TaskManager,
        child: usize,
        token: usize,
        task_cx: TaskContext,
    ) -> bool {
        let parent = before.procs()[before.current().unwrap()];
        let task = self.procs()[child].task;
        &&& self.adopted_from(before, child, task, token, parent.heap_bottom, parent.program_brk)
        &&& Self::fresh_task(task, task_cx)
        &&& task.trap_cx.x@ == parent.task.trap_cx.x@.update(10, 0)
        &&& task.trap_cx.sstatus == parent.task.trap_cx.sstatus
        &&& task.trap_cx.sepc == parent.task.trap_cx.sepc
        &&& task.priority == parent.task.priority
        &&& task.stride == parent.task.stride
        &&& task.signal_mask == parent.task.signal_mask
        &&& task.signal_actions == parent.task.signal_actions
    }

    /// `self` is `before` after the running task has replaced its program
    /// by `image`: see [`Self::exec_program`].
    pub open spec fn executed_from(
        &self,
        before: &TaskManager,
        image: ProgramImage,
        sstatus: usize,
        argc: usize,
        argv_base: usize,
    ) -> bool {
        let pid = before.current().unwrap();
        let old_pcb = before.procs()[pid];
        let new_pcb = self.procs()[pid];
        &&& self.ready() == before.ready()
        &&& self.processor() == before.processor()
        &&& self.initproc() == before.initproc()
        &&& self.next_pid() == before.next_pid()
        &&& self.unchanged_except(before, pid, pid)
        &&& self.procs().contains_key(pid)
        &&& new_pcb.pid == old_pcb.pid
        &&& new_pcb.children == old_pcb.children
        &&& new_pcb.exit_code == old_pcb.exit_code
        &&& new_pcb.token == image.token
        &&& new_pcb.heap_bottom == image.heap_bottom
        &&& new_pcb.program_brk == image.heap_bottom
        &&& new_pcb.task.tid == old_pcb.task.tid
        &&& new_pcb.task.pid == old_pcb.task.pid
        &&& new_pcb.task.task_status == old_pcb.task.task_status
        &&& new_pcb.task.task_cx == old_pcb.task.task_cx
        &&& new_pcb.task.priority == old_pcb.task.priority
        &&& new_pcb.task.stride == old_pcb.task.stride
        &&& new_pcb.task.infos == old_pcb.task.infos
        &&& new_pcb.task.signals == old_pcb.task.signals
        &&& new_pcb.task.signal_mask == old_pcb.task.signal_mask
        &&& new_pcb.task.handling_sig == old_pcb.task.handling_sig
        &&& new_pcb.task.signal_actions == old_pcb.task.signal_actions
        &&& new_pcb.task.trap_ctx_backup == old_pcb.task.trap_ctx_backup
        &&& new_pcb.task.trap_cx.sepc == image.entry_point
        &&& new_pcb.task.trap_cx.x@[2] == image.user_sp
        &&& new_pcb.task.trap_cx.x@[10] == argc
        &&& new_pcb.task.trap_cx.x@[11] == argv_base
        &&& forall|i: int|
            0 <= i < 32 && i != 2 && i != 10 && i != 11 ==> new_pcb.task.trap_cx.x@[i] == 0
        &&& new_pcb.task.trap_cx.sstatus & crate::trap::context::SSTATUS_SPP == 0
        &&& usize::BITS == 64 ==> new_pcb.task.trap_cx.sstatus as u64 == (sstatus as u64)
            & crate::trap::context::SSTATUS_MASK & !(crate::trap::context::SSTATUS_SPP as u64)
    }
}

impl TaskManager {
    /// Files a new process with the given task, which is ready to run, as a
    /// child of the running task, and puts it at the end of the ready queue.
    fn adopt(
        &mut self,
        task: TaskControlBlock,
        token: usize,
        heap_bottom: usize,
        program_brk: usize,
    ) -> (pid: usize)
        requires
            old(self).wf(),
            old(self).next_pid() < isize::MAX,
            task.task_status == TaskStatus::Ready,
            task.priority.0 >= 2,
            task.pid == old(self).next_pid(),
            task.tid == old(self).next_pid(),
        ensures
            final(self).wf(),
            final(self).adopted_from(old(self), pid, task, token, heap_bottom, program_brk),
    {
        let pid = self.next_pid;
        self.next_pid = pid + 1;
        match self.processor.current {
            Some(parent) => {
                match self.table.remove(&parent) {
                    Some(pcb) => {
                        let mut pcb = pcb;
                        pcb.children.push(pid);
                        self.table.insert(parent, pcb);
                    },
                    None => {},
                }
            },
            None => {},
        }
        let pcb = ProcessControlBlock {
            pid,
            children: Vec::new(),
            exit_code: 0,
            token,
            heap_bottom,
            program_brk,
            task,
        };
        self.table.insert(pid, pcb);
        self.ready_queue.push_back(pid);
        if self.initproc.is_none() {
            self.initproc = Some(pid);
        }
        proof {
            assert(!old(self).procs().contains_key(pid));
            assert(!old(self).ready().contains(pid)) by {
                if old(self).ready().contains(pid) {
                    let i = choose|i: int|
                        0 <= i < old(self).ready().len() && old(self).ready()[i] == pid;
                    assert(old(self).procs().contains_key(old(self).ready()[i]));
                }
            }
            assert(self.table_wf());
            assert(self.current_wf());
            assert(self.ready_wf()) by {
                assert forall|q: usize| #[trigger]
                    self.procs().contains_key(q) && self.status(q)
                        == TaskStatus::Ready implies self.ready().contains(q) by {
                    if q == pid {
                        assert(self.ready()[old(self).ready().len() as int] == pid);
                    } else {
                        assert(old(self).procs().contains_key(q));
                        assert(old(self).status(q) == TaskStatus::Ready);
                        let i = choose|i: int|
                            0 <= i < old(self).ready().len() && old(self).ready()[i] == q;
                        assert(self.ready()[i] == q);
                    }
                }
            }
            assert(self.children_wf()) by {
                assert forall|p: usize, k: int|
                    self.procs().contains_key(p) && 0 <= k < self.children(p).len() implies {
                    &&& self.procs().contains_key(#[trigger] self.children(p)[k])
                    &&& self.initproc() != Some(self.children(p)[k])
                } by {
                    if p != pid {
                        assert(old(self).procs().contains_key(p));
                        if k < old(self).children(p).len() {
                            assert(old(self).procs().contains_key(old(self).children(p)[k]));
                        }
                    }
                }
                assert forall|p: usize, q: usize, k: int, l: int|
                    self.procs().contains_key(p) && self.procs().contains_key(q) && 0 <= k
                        < self.children(p).len() && 0 <= l < self.children(q).len()
                        && #[trigger] self.children(p)[k] == #[trigger] self.children(
                        q,
                    )[l] implies p == q && k == l by {
                    assert(old(self).procs().contains_key(p));
                    assert(old(self).procs().contains_key(q));
                    if k < old(self).children(p).len() {
                        assert(old(self).procs().contains_key(old(self).children(p)[k]));
                    }
                    if l < old(self).children(q).len() {
                        assert(old(self).procs().contains_key(old(self).children(q)[l]));
                    }
                }
            }
        }
        pid
    }

    /// Create a process that runs the program `image` in user mode, as a
    /// child of the running task if there is one.  Its task is ready to run,
    /// has the default priority and takes over the stride of the running
    /// task, so that it queues up behind neither more nor less than its parent.
    ///
    /// `task_cx` is the context in which the task starts in the kernel;
    /// `sstatus` is the current value of the supervisor status register.
    pub fn spawn(&mut self, image: &ProgramImage, task_cx: TaskContext, sstatus: usize) -> (pid:
        usize)
        requires
            old(self).wf(),
            old(self).next_pid() < isize::MAX,
        ensures
            final(self).wf(),
            final(self).spawned_from(old(self), pid, *image, task_cx, sstatus),
            final(self).follows(old(self)),
    {
        let stride: Stride = match self.processor.current {
            Some(parent) => match self.table.get(&parent) {
                Some(pcb) => pcb.task.stride,
                None => StrideImpl::new(0),
            },
            None => StrideImpl::new(0),
        };
        let task = TaskControlBlock {
            tid: self.next_pid,
            pid: self.next_pid,
            task_status: TaskStatus::Ready,
            task_cx,
            trap_cx: TrapContext::app_init_context(image.entry_point, image.user_sp, sstatus),
            priority: Priority::new(16),
            stride,
            infos: TaskInfoBlock::new(),
            signals: SignalFlags::empty(),
            signal_mask: SignalFlags::empty(),
            handling_sig: -1,
            signal_actions: SignalActions::new(),
            trap_ctx_backup: None,
        };
        self.adopt(task, image.token, image.heap_bottom, image.heap_bottom)
    }

    /// Create a copy of the process of the running task, as its child.  The
    /// task of the child is ready to run and is a copy of the running task,
    /// with the same registers, priority and stride, except that register
    /// `a0`, in which `fork` returns its result, is zero, and that its
    /// accounting starts afresh.
    ///
    /// `token` is the token of the copy of the address space; `task_cx` is
    /// the context in which the child starts in the kernel.
    pub fn fork(&mut self, token: usize, task_cx: TaskContext) -> (child: usize)
        requires
            old(self).wf(),
            old(self).current() is Some,
            old(self).next_pid() < isize::MAX,
        ensures
            final(self).wf(),
            final(self).forked_from(old(self), child, token, task_cx),
            final(self).follows(old(self)),
    {
        let parent = match self.processor.current {
            Some(parent) => parent,
            None => 0,
        };
        let (task, heap_bottom, program_brk) = match self.table.get(&parent) {
            Some(pcb) => {
                let mut trap_cx = pcb.task.trap_cx;
                trap_cx.x[10] = 0;
                (
                    TaskControlBlock {
                        tid: self.next_pid,
                        pid: self.next_pid,
                        task_status: TaskStatus::Ready,
                        task_cx,
                        trap_cx,
                        priority: pcb.task.priority,
                        stride: pcb.task.stride,
                        infos: TaskInfoBlock::new(),
                        signals: SignalFlags::empty(),
                        signal_mask: pcb.task.signal_mask,
                        handling_sig: -1,
                        signal_actions: pcb.task.signal_actions,
                        trap_ctx_backup: None,
                    },
                    pcb.heap_bottom,
                    pcb.program_brk,
                )
            },
            None => (
                TaskControlBlock {
                    tid: self.next_pid,
                    pid: self.next_pid,
                    task_status: TaskStatus::Ready,
                    task_cx,
                    trap_cx: TrapContext::app_init_context(0, 0, 0),
                    priority: Priority::new(16),
                    stride: StrideImpl::new(0),
                    infos: TaskInfoBlock::new(),
                    signals: SignalFlags::empty(),
                    signal_mask: SignalFlags::empty(),
                    handling_sig: -1,
                    signal_actions: SignalActions::new(),
                    trap_ctx_backup: None,
                },
                0,
                0,
            ),
        };
        self.adopt(task, token, heap_bottom, program_brk)
    }
}


impl TaskManager {
    /// Puts `task` in the place of the task control block of process `pid`.
    /// The status of the task stays as it is, and so does its priority's validity.
    pub(crate) fn set_task(&mut self, pid: usize, task: TaskControlBlock)
        requires
            old(self).wf(),
            old(self).procs().contains_key(pid),
            task.tid == pid,
            task.pid == pid,
            task.task_status == old(self).status(pid),
            task.priority.0 >= 2,
        ensures
            final(self).wf(),
            final(self).procs().contains_key(pid),
            same_but_task(final(self).procs()[pid], old(self).procs()[pid]),
            final(self).procs()[pid].task == task,
            final(self).unchanged_except(old(self), pid, pid),
            final(self).ready() == old(self).ready(),
            final(self).processor() == old(self).processor(),
            final(self).initproc() == old(self).initproc(),
            final(self).next_pid() == old(self).next_pid(),
    {
        match self.table.remove(&pid) {
            Some(pcb) => {
                let mut pcb = pcb;
                pcb.task = task;
                self.table.insert(pid, pcb);
            },
            None => {},
        }
        proof {
            assert(self.table_wf());
            assert(self.current_wf());
            assert(self.ready_wf()) by {
                assert forall|q: usize| #[trigger]
                    self.procs().contains_key(q) && self.status(q)
                        == TaskStatus::Ready implies self.ready().contains(q) by {
                    assert(old(self).procs().contains_key(q));
                }
            }
            assert(self.children_wf()) by {
                assert forall|p: usize, k: int|
                    self.procs().contains_key(p) && 0 <= k < self.children(p).len() implies {
                    &&& self.procs().contains_key(#[trigger] self.children(p)[k])
                    &&& self.initproc() != Some(self.children(p)[k])
                } by {
                    assert(old(self).procs().contains_key(p));
                    assert(old(self).procs().contains_key(old(self).children(p)[k]));
                }
                assert forall|p: usize, q: usize, k: int, l: int|
                    self.procs().contains_key(p) && self.procs().contains_key(q) && 0 <= k
                        < self.children(p).len() && 0 <= l < self.children(q).len()
                        && #[trigger] self.children(p)[k] == #[trigger] self.children(
                        q,
                    )[l] implies p == q && k == l by {
                    assert(old(self).procs().contains_key(p));
                    assert(old(self).procs().contains_key(q));
                    assert(old(self).children(p)[k] == old(self).children(q)[l]);
                }
            }
        }
    }

    /// Replace the program of the running task by `image`: the process gets
    /// the address space of the image, and its task starts the program anew
    /// in user mode with `argc` in register `a0` and `argv_base` in `a1`.
    /// Its identity, its children, its priority, its stride and its
    /// accounting stay.
    pub fn exec_program(&mut self, image: &ProgramImage, sstatus: usize, argc: usize, argv_base: usize)
        requires
            old(self).wf(),
            old(self).current() is Some,
        ensures
            final(self).wf(),
            final(self).executed_from(old(self), *image, sstatus, argc, argv_base),
            final(self).follows(old(self)),
    {
        let pid = match self.processor.current {
            Some(pid) => pid,
            None => 0,
        };
        match self.table.remove(&pid) {
            Some(pcb) => {
                let mut pcb = pcb;
                let mut trap_cx = TrapContext::app_init_context(
                    image.entry_point,
                    image.user_sp,
                    sstatus,
                );
                trap_cx.x[10] = argc;
                trap_cx.x[11] = argv_base;
                pcb.token = image.token;
                pcb.heap_bottom = image.heap_bottom;
                pcb.program_brk = image.heap_bottom;
                pcb.task.trap_cx = trap_cx;
                self.table.insert(pid, pcb);
            },
            None => {},
        }
        proof {
            assert(self.table_wf());
            assert(self.current_wf());
            assert(self.ready_wf()) by {
                assert forall|q: usize| #[trigger]
                    self.procs().contains_key(q) && self.status(q)
                        == TaskStatus::Ready implies self.ready().contains(q) by {
                    assert(old(self).procs().contains_key(q));
                }
            }
            assert(self.children_wf()) by {
                assert forall|p: usize, k: int|
                    self.procs().contains_key(p) && 0 <= k < self.children(p).len() implies {
                    &&& self.procs().contains_key(#[trigger] self.children(p)[k])
                    &&& self.initproc() != Some(self.children(p)[k])
                } by {
                    assert(old(self).procs().contains_key(p));
                    assert(old(self).procs().contains_key(old(self).children(p)[k]));
                }
                assert forall|p: usize, q: usize, k: int, l: int|
                    self.procs().contains_key(p) && self.procs().contains_key(q) && 0 <= k
                        < self.children(p).len() && 0 <= l < self.children(q).len()
                        && #[trigger] self.children(p)[k] == #[trigger] self.children(
                        q,
                    )[l] implies p == q && k == l by {
                    assert(old(self).procs().contains_key(p));
                    assert(old(self).procs().contains_key(q));
                    assert(old(self).children(p)[k] == old(self).children(q)[l]);
                }
            }
        }
    }

    /// Give the running task the priority `priority`.
    pub fn set_priority(&mut self, priority: Priority)
        requires
            old(self).wf(),
            old(self).current() is Some,
            priority.0 >= 2,
        ensures
            final(self).wf(),
            final(self).ready() == old(self).ready(),
            final(self).processor() == old(self).processor(),
            final(self).initproc() == old(self).initproc(),
            final(self).next_pid() == old(self).next_pid(),
            final(self).unchanged_except(
                old(self),
                old(self).current().unwrap(),
                old(self).current().unwrap(),
            ),
            final(self).procs().contains_key(old(self).current().unwrap()),
            same_but_task(
                final(self).procs()[old(self).current().unwrap()],
                old(self).procs()[old(self).current().unwrap()],
            ),
            final(self).procs()[old(self).current().unwrap()].task == (TaskControlBlock {
                priority,
                ..old(self).procs()[old(self).current().unwrap()].task
            }),
    {
        let pid = match self.processor.current {
            Some(pid) => pid,
            None => 0,
        };
        let task = match self.table.get(&pid) {
            Some(pcb) => pcb.task,
            None => {
                return ;
            },
        };
        self.set_task(pid, TaskControlBlock { priority, ..task });
    }
}


impl TaskManager {
    /// The time for which the running task has been in user mode can be
    /// booked at time `now_us`: the user timer runs, was not started later,
    /// and the sum fits.
    pub open spec fn user_time_due(&self, now_us: usize) -> bool {
        &&& self.current() is Some
        &&& stoppable(self.processor().user_timer_us, now_us)
        &&& self.procs()[self.current().unwrap()].task.infos.running_times.user_time_us + elapsed(
            self.processor().user_timer_us,
            now_us,
        ) <= usize::MAX
    }

    /// The time for which the running task has been in the kernel can be
    /// booked at time `now_us`: the kernel timer runs, was not started later,
    /// and the sum fits.
    pub open spec fn kernel_time_due(&self, now_us: usize) -> bool {
        &&& self.current() is Some
        &&& stoppable(self.processor().kernel_timer_us, now_us)
        &&& self.procs()[self.current().unwrap()].task.infos.running_times.kernel_time_us + elapsed(
            self.processor().kernel_timer_us,
            now_us,
        ) <= usize::MAX
    }

    /// Whether [`Self::user_time_due`] holds.
    pub fn is_user_time_due(&self, now_us: usize) -> (due: bool)
        requires
            self.wf(),
        ensures
            due == self.user_time_due(now_us),
    {
        match (self.processor.current, self.processor.user_timer_us) {
            (Some(pid), Some(started)) => match self.table.get(&pid) {
                Some(pcb) => started <= now_us && now_us - started <= usize::MAX
                    - pcb.task.infos.running_times.user_time_us,
                None => false,
            },
            _ => false,
        }
    }

    /// Whether [`Self::kernel_time_due`] holds.
    pub fn is_kernel_time_due(&self, now_us: usize) -> (due: bool)
        requires
            self.wf(),
        ensures
            due == self.kernel_time_due(now_us),
    {
        match (self.processor.current, self.processor.kernel_timer_us) {
            (Some(pid), Some(started)) => match self.table.get(&pid) {
                Some(pcb) => started <= now_us && now_us - started <= usize::MAX
                    - pcb.task.infos.running_times.kernel_time_us,
                None => false,
            },
            _ => false,
        }
    }

    /// The running task enters user mode at time `now_us`.
    pub fn user_timer_start(&mut self, now_us: usize)
        requires
            old(self).wf(),
            old(self).current() is Some,
            old(self).processor().user_timer_us is None,
        ensures
            final(self).wf(),
            final(self).procs() == old(self).procs(),
            final(self).ready() == old(self).ready(),
            final(self).initproc() == old(self).initproc(),
            final(self).next_pid() == old(self).next_pid(),
            final(self).processor() == (Processor {
                user_timer_us: Some(now_us),
                ..old(self).processor()
            }),
    {
        self.processor.user_timer_start(now_us);
        proof {
            old(self).lemma_wf_timers(self);
        }
    }

    /// The running task leaves user mode at time `now_us`: the time since it
    /// entered is added to its user time.
    pub fn user_timer_stop(&mut self, now_us: usize)
        requires
            old(self).wf(),
            old(self).user_time_due(now_us),
        ensures
            final(self).wf(),
            final(self).ready() == old(self).ready(),
            final(self).initproc() == old(self).initproc(),
            final(self).next_pid() == old(self).next_pid(),
            final(self).processor() == (Processor { user_timer_us: None, ..old(self).processor() }),
            final(self).unchanged_except(
                old(self),
                old(self).current().unwrap(),
                old(self).current().unwrap(),
            ),
            final(self).procs().contains_key(old(self).current().unwrap()),
            same_but_task(
                final(self).procs()[old(self).current().unwrap()],
                old(self).procs()[old(self).current().unwrap()],
            ),
            ({
                let before = old(self).procs()[old(self).current().unwrap()].task;
                let after = final(self).procs()[old(self).current().unwrap()].task;
                &&& after.tid == before.tid
                &&& after.pid == before.pid
                &&& after.task_status == before.task_status
                &&& after.task_cx == before.task_cx
                &&& after.trap_cx == before.trap_cx
                &&& after.priority == before.priority
                &&& after.stride == before.stride
                &&& after.signals == before.signals
                &&& after.signal_mask == before.signal_mask
                &&& after.handling_sig == before.handling_sig
                &&& after.signal_actions == before.signal_actions
                &&& after.trap_ctx_backup == before.trap_ctx_backup
                &&& after.infos.syscall_times == before.infos.syscall_times
                &&& after.infos.running_times == (super::task::RunningTimeInfo {
                    user_time_us: (before.infos.running_times.user_time_us + elapsed(
                        old(self).processor().user_timer_us,
                        now_us,
                    )) as usize,
                    ..before.infos.running_times
                })
            }),
    {
        let pid = match self.processor.current {
            Some(pid) => pid,
            None => 0,
        };
        let mut task = match self.table.get(&pid) {
            Some(pcb) => pcb.task,
            None => {
                return ;
            },
        };
        let elapsed_us = self.processor.user_timer_stop(now_us);
        task.infos.running_times.user_time_us = task.infos.running_times.user_time_us + elapsed_us;
        proof {
            old(self).lemma_wf_timers(self);
        }
        self.set_task(pid, task);
    }

    /// The running task enters the kernel at time `now_us`.
    pub fn kernel_timer_start(&mut self, now_us: usize)
        requires
            old(self).wf(),
            old(self).current() is Some,
            old(self).processor().kernel_timer_us is None,
        ensures
            final(self).wf(),
            final(self).procs() == old(self).procs(),
            final(self).ready() == old(self).ready(),
            final(self).initproc() == old(self).initproc(),
            final(self).next_pid() == old(self).next_pid(),
            final(self).processor() == (Processor {
                kernel_timer_us: Some(now_us),
                ..old(self).processor()
            }),
    {
        self.processor.kernel_timer_start(now_us);
        proof {
            old(self).lemma_wf_timers(self);
        }
    }

    /// The running task leaves the kernel at time `now_us`: the time since
    /// it entered is added to its kernel time.
    pub fn kernel_timer_stop(&mut self, now_us: usize)
        requires
            old(self).wf(),
            old(self).kernel_time_due(now_us),
        ensures
            final(self).wf(),
            final(self).ready() == old(self).ready(),
            final(self).initproc() == old(self).initproc(),
            final(self).next_pid() == old(self).next_pid(),
            final(self).processor() == (Processor {
                kernel_timer_us: None,
                ..old(self).processor()
            }),
            final(self).unchanged_except(
                old(self),
                old(self).current().unwrap(),
                old(self).current().unwrap(),
            ),
            final(self).procs().contains_key(old(self).current().unwrap()),
            same_but_task(
                final(self).procs()[old(self).current().unwrap()],
                old(self).procs()[old(self).current().unwrap()],
            ),
            ({
                let before = old(self).procs()[old(self).current().unwrap()].task;
                let after = final(self).procs()[old(self).current().unwrap()].task;
                &&& after.tid == before.tid
                &&& after.pid == before.pid
                &&& after.task_status == before.task_status
                &&& after.task_cx == before.task_cx
                &&& after.trap_cx == before.trap_cx
                &&& after.priority == before.priority
                &&& after.stride == before.stride
                &&& after.signals == before.signals
                &&& after.signal_mask == before.signal_mask
                &&& after.handling_sig == before.handling_sig
                &&& after.signal_actions == before.signal_actions
                &&& after.trap_ctx_backup == before.trap_ctx_backup
                &&& after.infos.syscall_times == before.infos.syscall_times
                &&& after.infos.running_times == (super::task::RunningTimeInfo {
                    kernel_time_us: (before.infos.running_times.kernel_time_us + elapsed(
                        old(self).processor().kernel_timer_us,
                        now_us,
                    )) as usize,
                    ..before.infos.running_times
                })
            }),
    {
        let pid = match self.processor.current {
            Some(pid) => pid,
            None => 0,
        };
        let mut task = match self.table.get(&pid) {
            Some(pcb) => pcb.task,
            None => {
                return ;
            },
        };
        let elapsed_us = self.processor.kernel_timer_stop(now_us);
        task.infos.running_times.kernel_time_us = task.infos.running_times.kernel_time_us
            + elapsed_us;
        proof {
            old(self).lemma_wf_timers(self);
        }
        self.set_task(pid, task);
    }

    /// Count one more call of system call `syscall_id` for the running task.
    pub fn update_syscall_times(&mut self, syscall_id: usize)
        requires
            old(self).wf(),
            old(self).current() is Some,
            syscall_id < crate::config::MAX_SYSCALL_NUM ==> old(self).procs()[old(
                self,
            ).current().unwrap()].task.infos.syscall_times[syscall_id as int] < u32::MAX,
        ensures
            final(self).wf(),
            final(self).ready() == old(self).ready(),
            final(self).initproc() == old(self).initproc(),
            final(self).next_pid() == old(self).next_pid(),
            final(self).processor() == old(self).processor(),
            final(self).unchanged_except(
                old(self),
                old(self).current().unwrap(),
                old(self).current().unwrap(),
            ),
            final(self).procs().contains_key(old(self).current().unwrap()),
            same_but_task(
                final(self).procs()[old(self).current().unwrap()],
                old(self).procs()[old(self).current().unwrap()],
            ),
            ({
                let before = old(self).procs()[old(self).current().unwrap()].task;
                let after = final(self).procs()[old(self).current().unwrap()].task;
                &&& after.tid == before.tid
                &&& after.pid == before.pid
                &&& after.task_status == before.task_status
                &&& after.task_cx == before.task_cx
                &&& after.trap_cx == before.trap_cx
                &&& after.priority == before.priority
                &&& after.stride == before.stride
                &&& after.signals == before.signals
                &&& after.signal_mask == before.signal_mask
                &&& after.handling_sig == before.handling_sig
                &&& after.signal_actions == before.signal_actions
                &&& after.trap_ctx_backup == before.trap_ctx_backup
                &&& after.infos.running_times == before.infos.running_times
                &&& syscall_id < crate::config::MAX_SYSCALL_NUM ==> after.infos.syscall_times@
                    == before.infos.syscall_times@.update(
                    syscall_id as int,
                    (before.infos.syscall_times[syscall_id as int] + 1) as u32,
                )
                &&& syscall_id >= crate::config::MAX_SYSCALL_NUM ==> after.infos.syscall_times@
                    == before.infos.syscall_times@
            }),
    {
        let pid = match self.processor.current {
            Some(pid) => pid,
            None => 0,
        };
        let mut task = match self.table.get(&pid) {
            Some(pcb) => pcb.task,
            None => {
                return ;
            },
        };
        task.infos.update_syscall_times(syscall_id);
        self.set_task(pid, task);
    }

    /// The status and the accounting block of the running task at time
    /// `now_us`, with the time since the task was first dispatched brought
    /// up to date.
    pub fn current_task_info(&self, now_us: usize) -> (info: (TaskStatus, TaskInfoBlock))
        requires
            self.wf(),
            self.current() is Some,
        ensures
            ({
                let task = self.procs()[self.current().unwrap()].task;
                &&& info.0 == task.task_status
                &&& info.1.syscall_times == task.infos.syscall_times
                &&& info.1.running_times == (super::task::RunningTimeInfo {
                    real_time_us: since_first_run(task.infos.running_times.first_run_time_us, now_us),
                    ..task.infos.running_times
                })
            }),
    {
        let pid = match self.processor.current {
            Some(pid) => pid,
            None => 0,
        };
        match self.table.get(&pid) {
            Some(pcb) => {
                let mut infos = pcb.task.infos;
                infos.running_times.real_time_us = match infos.running_times.first_run_time_us {
                    Some(first) => if first <= now_us {
                        now_us - first
                    } else {
                        0
                    },
                    None => 0,
                };
                (pcb.task.task_status, infos)
            },
            None => (TaskStatus::UnInit, TaskInfoBlock::new()),
        }
    }
}

/// The time from `first_run` to `now_us`; zero when there was no first run
/// or when it is not in the past.
pub open spec fn since_first_run(first_run: Option<usize>, now_us: usize) -> usize {
    match first_run {
        Some(first) => if first <= now_us {
            (now_us - first) as usize
        } else {
            0
        },
        None => 0,
    }
}


/// The task control block `before` after its task has left the processor
/// with the status `status`, having been in the kernel for `kernel_us`.
pub open spec fn left_processor(
    before: TaskControlBlock,
    status: TaskStatus,
    kernel_us: int,
) -> TaskControlBlock {
    TaskControlBlock {
        task_status: status,
        infos: TaskInfoBlock {
            running_times: super::task::RunningTimeInfo {
                kernel_time_us: (before.infos.running_times.kernel_time_us + kernel_us) as usize,
                ..before.infos.running_times
            },
            ..before.infos
        },
        ..before
    }
}

impl TaskManager {
    /// `self` is `before` after the running task has left the processor at
    /// time `now_us` with the status `status`: the time it has been in the
    /// kernel is booked, no task runs, and the task is at the end of the
    /// ready queue if it is ready.
    pub open spec fn left_from(&self, before: &TaskManager, status: TaskStatus, now_us: usize) -> bool {
        let pid = before.current().unwrap();
        &&& self.processor() == (Processor {
            current: None,
            kernel_timer_us: None,
            ..before.processor()
        })
        &&& self.initproc() == before.initproc()
        &&& self.next_pid() == before.next_pid()
        &&& self.ready() == if status == TaskStatus::Ready {
            before.ready().push(pid)
        } else {
            before.ready()
        }
        &&& self.unchanged_except(before, pid, pid)
        &&& self.procs().contains_key(pid)
        &&& same_but_task(self.procs()[pid], before.procs()[pid])
        &&& self.procs()[pid].task == left_processor(
            before.procs()[pid].task,
            status,
            elapsed(before.processor().kernel_timer_us, now_us),
        )
    }

    /// `self` is `before` after the blocked task `pid` has been woken: it is
    /// ready and at the end of the ready queue.
    pub open spec fn woken_from(&self, before: &TaskManager, pid: usize) -> bool {
        &&& self.processor() == before.processor()
        &&& self.initproc() == before.initproc()
        &&& self.next_pid() == before.next_pid()
        &&& self.ready() == before.ready().push(pid)
        &&& self.unchanged_except(before, pid, pid)
        &&& self.procs().contains_key(pid)
        &&& same_but_task(self.procs()[pid], before.procs()[pid])
        &&& self.procs()[pid].task == (TaskControlBlock {
            task_status: TaskStatus::Ready,
            ..before.procs()[pid].task
        })
    }

    /// Every task of `self` that `before` has too is in the status that it
    /// had or has taken a step of the life cycle.
    pub open spec fn follows(&self, before: &TaskManager) -> bool {
        forall|pid: usize|
            #![trigger self.procs().contains_key(pid)]
            #![trigger before.procs().contains_key(pid)]
            self.procs().contains_key(pid) && before.procs().contains_key(pid) ==> self.status(pid)
                == before.status(pid) || before.status(pid).can_become(self.status(pid))
    }

    /// `self` and `before` are the same in all that a caller can see.
    pub open spec fn same_as(&self, before: &TaskManager) -> bool {
        &&& self.procs() == before.procs()
        &&& self.ready() == before.ready()
        &&& self.processor() == before.processor()
        &&& self.initproc() == before.initproc()
        &&& self.next_pid() == before.next_pid()
    }

    /// Takes the running task off the processor at time `now_us` and gives
    /// it the status `status`; a task that is ready goes to the end of the
    /// ready queue.  The time the task has been in the kernel is booked.
    fn leave(&mut self, status: TaskStatus, now_us: usize) -> (pid: usize)
        requires
            old(self).wf(),
            old(self).kernel_time_due(now_us),
            old(self).processor().user_timer_us is None,
            status != TaskStatus::Running,
        ensures
            final(self).wf(),
            old(self).current() == Some(pid),
            final(self).left_from(old(self), status, now_us),
    {
        let pid = match self.processor.current {
            Some(pid) => pid,
            None => 0,
        };
        let elapsed_us = self.processor.kernel_timer_stop(now_us);
        self.processor.take_current();
        match self.table.remove(&pid) {
            Some(pcb) => {
                let mut pcb = pcb;
                pcb.task.task_status = status;
                pcb.task.infos.running_times.kernel_time_us =
                    pcb.task.infos.running_times.kernel_time_us + elapsed_us;
                self.table.insert(pid, pcb);
            },
            None => {},
        }
        if status == TaskStatus::Ready {
            self.ready_queue.push_back(pid);
        }
        proof {
            assert(!old(self).ready().contains(pid)) by {
                if old(self).ready().contains(pid) {
                    let i = choose|i: int|
                        0 <= i < old(self).ready().len() && old(self).ready()[i] == pid;
                    assert(old(self).status(old(self).ready()[i]) == TaskStatus::Ready);
                }
            }
            assert(self.table_wf());
            assert(self.current_wf()) by {
                assert forall|q: usize| #[trigger] self.procs().contains_key(q) implies (
                self.status(q) == TaskStatus::Running <==> self.current() == Some(q)) by {
                    assert(old(self).procs().contains_key(q));
                }
            }
            assert(self.ready_wf()) by {
                assert forall|i: int| 0 <= i < self.ready().len() implies self.procs().contains_key(
                    #[trigger] self.ready()[i],
                ) && self.status(self.ready()[i]) == TaskStatus::Ready by {
                    if i < old(self).ready().len() {
                        assert(old(self).procs().contains_key(old(self).ready()[i]));
                        assert(old(self).ready().contains(old(self).ready()[i]));
                    }
                }
                assert forall|q: usize| #[trigger]
                    self.procs().contains_key(q) && self.status(q)
                        == TaskStatus::Ready implies self.ready().contains(q) by {
                    if q == pid {
                        assert(self.ready()[old(self).ready().len() as int] == pid);
                    } else {
                        assert(old(self).procs().contains_key(q));
                        let i = choose|i: int|
                            0 <= i < old(self).ready().len() && old(self).ready()[i] == q;
                        assert(self.ready()[i] == q);
                    }
                }
            }
            old(self).lemma_children_kept(self);
        }
        pid
    }

    /// The running task gives up the processor at time `now_us` and is
    /// ready to run again: it goes to the end of the ready queue.
    pub fn suspend_current(&mut self, now_us: usize) -> (pid: usize)
        requires
            old(self).wf(),
            old(self).kernel_time_due(now_us),
            old(self).processor().user_timer_us is None,
        ensures
            final(self).wf(),
            old(self).current() == Some(pid),
            final(self).left_from(old(self), TaskStatus::Ready, now_us),
            final(self).follows(old(self)),
    {
        let pid = self.leave(TaskStatus::Ready, now_us);
        proof {
            assert(old(self).status(pid) == TaskStatus::Running);
        }
        pid
    }

    /// The running task gives up the processor at time `now_us` to wait in
    /// the queue of a synchronization primitive, into which the caller has
    /// put it.  It runs again only after it has been woken.
    pub fn block_current(&mut self, now_us: usize) -> (pid: usize)
        requires
            old(self).wf(),
            old(self).kernel_time_due(now_us),
            old(self).processor().user_timer_us is None,
        ensures
            final(self).wf(),
            old(self).current() == Some(pid),
            final(self).left_from(old(self), TaskStatus::Blocked, now_us),
            final(self).follows(old(self)),
    {
        let pid = self.leave(TaskStatus::Blocked, now_us);
        proof {
            assert(old(self).status(pid) == TaskStatus::Running);
        }
        pid
    }

    /// Wake the task of process `pid`: a blocked task becomes ready and goes
    /// to the end of the ready queue.  Returns whether the task was blocked;
    /// if it was not, nothing changes.
    pub fn wakeup_task(&mut self, pid: usize) -> (woken: bool)
        requires
            old(self).wf(),
        ensures
            final(self).wf(),
            woken == (old(self).procs().contains_key(pid) && old(self).status(pid)
                == TaskStatus::Blocked),
            !woken ==> final(self).same_as(old(self)),
            woken ==> final(self).woken_from(old(self), pid),
            final(self).follows(old(self)),
    {
        let blocked = match self.table.get(&pid) {
            Some(pcb) => pcb.task.task_status == TaskStatus::Blocked,
            None => false,
        };
        if !blocked {
            return false;
        }
        match self.table.remove(&pid) {
            Some(pcb) => {
                let mut pcb = pcb;
                pcb.task.task_status = TaskStatus::Ready;
                self.table.insert(pid, pcb);
            },
            None => {},
        }
        self.ready_queue.push_back(pid);
        proof {
            assert(!old(self).ready().contains(pid)) by {
                if old(self).ready().contains(pid) {
                    let i = choose|i: int|
                        0 <= i < old(self).ready().len() && old(self).ready()[i] == pid;
                    assert(old(self).status(old(self).ready()[i]) == TaskStatus::Ready);
                }
            }
            assert(self.table_wf());
            assert(self.current_wf()) by {
                assert forall|q: usize| #[trigger] self.procs().contains_key(q) implies (
                self.status(q) == TaskStatus::Running <==> self.current() == Some(q)) by {
                    assert(old(self).procs().contains_key(q));
                }
            }
            assert(self.ready_wf()) by {
                assert forall|i: int| 0 <= i < self.ready().len() implies self.procs().contains_key(
                    #[trigger] self.ready()[i],
                ) && self.status(self.ready()[i]) == TaskStatus::Ready by {
                    if i < old(self).ready().len() {
                        assert(old(self).procs().contains_key(old(self).ready()[i]));
                        assert(old(self).ready().contains(old(self).ready()[i]));
                    }
                }
                assert forall|q: usize| #[trigger]
                    self.procs().contains_key(q) && self.status(q)
                        == TaskStatus::Ready implies self.ready().contains(q) by {
                    if q == pid {
                        assert(self.ready()[old(self).ready().len() as int] == pid);
                    } else {
                        assert(old(self).procs().contains_key(q));
                        let i = choose|i: int|
                            0 <= i < old(self).ready().len() && old(self).ready()[i] == q;
                        assert(self.ready()[i] == q);
                    }
                }
            }
            old(self).lemma_children_kept(self);
        }
        true
    }
}


impl TaskManager {
    /// The process that adopts the children of process `pid` when it exits:
    /// the first process, unless `pid` is the first process itself.
    pub open spec fn adopter(&self, pid: usize) -> Option<usize> {
        match self.initproc() {
            Some(root) => if root != pid {
                Some(root)
            } else {
                None
            },
            None => None,
        }
    }

    /// `self` is `before` after the running task has exited with
    /// `exit_code` at time `now_us`: see [`Self::exit_current`].
    pub open spec fn exited_from(&self, before: &TaskManager, exit_code: i32, now_us: usize) -> bool {
        let pid = before.current().unwrap();
        &&& self.processor() == (Processor {
            current: None,
            kernel_timer_us: None,
            ..before.processor()
        })
        &&& self.initproc() == before.initproc()
        &&& self.next_pid() == before.next_pid()
        &&& self.ready() == before.ready()
        &&& self.procs().contains_key(pid)
        &&& self.procs()[pid].pid == pid
        &&& self.procs()[pid].exit_code == exit_code
        &&& self.procs()[pid].token == before.procs()[pid].token
        &&& self.procs()[pid].heap_bottom == before.procs()[pid].heap_bottom
        &&& self.procs()[pid].program_brk == before.procs()[pid].program_brk
        &&& self.procs()[pid].task == left_processor(
            before.procs()[pid].task,
            TaskStatus::Zombie,
            elapsed(before.processor().kernel_timer_us, now_us),
        )
        &&& match before.adopter(pid) {
            Some(root) => {
                &&& self.unchanged_except(before, pid, root)
                &&& self.children(pid).len() == 0
                &&& self.procs().contains_key(root)
                &&& same_but_children(self.procs()[root], before.procs()[root])
                &&& self.children(root) == before.children(root) + before.children(pid)
            },
            None => {
                &&& self.unchanged_except(before, pid, pid)
                &&& self.children(pid) == before.children(pid)
            },
        }
    }

    /// The running task exits with `exit_code` at time `now_us`.  Its
    /// process becomes a zombie that keeps the exit code until its parent
    /// collects it.  Its children go to the first process, behind the
    /// children that process has; the children of the first process itself
    /// stay with it.  Returns the identifier of the process, for the caller
    /// to release what the task held elsewhere.
    pub fn exit_current(&mut self, exit_code: i32, now_us: usize) -> (pid: usize)
        requires
            old(self).wf(),
            old(self).kernel_time_due(now_us),
            old(self).processor().user_timer_us is None,
        ensures
            final(self).wf(),
            old(self).current() == Some(pid),
            final(self).exited_from(old(self), exit_code, now_us),
            final(self).follows(old(self)),
    {
        let pid = self.leave(TaskStatus::Zombie, now_us);
        let ghost mid = *self;
        self.bury(pid, exit_code);
        proof {
            assert(old(self).status(pid) == TaskStatus::Running);
            assert(mid.procs().contains_key(pid));
            if let Some(root) = old(self).adopter(pid) {
                assert(old(self).procs().contains_key(root));
                assert(mid.procs()[root] == old(self).procs()[root]);
            }
            assert forall|q: usize|
                #![trigger self.procs().contains_key(q)]
                #![trigger old(self).procs().contains_key(q)]
                self.procs().contains_key(q) && old(self).procs().contains_key(q) implies self.status(
                q,
            ) == old(self).status(q) || old(self).status(q).can_become(self.status(q)) by {
                assert(mid.procs().contains_key(q));
                if q != pid {
                    assert(mid.procs()[q] == old(self).procs()[q]);
                }
            }
        }
        pid
    }

    /// `self` is `before` after the task of process `pid`, which did not
    /// run, has come to its end with `exit_code`: the process is a zombie
    /// that keeps the exit code, and its children have gone to the process
    /// that adopts them.
    pub open spec fn buried_from(&self, before: &TaskManager, pid: usize, exit_code: i32) -> bool {
        &&& self.processor() == before.processor()
        &&& self.initproc() == before.initproc()
        &&& self.next_pid() == before.next_pid()
        &&& self.ready() == before.ready()
        &&& self.procs().contains_key(pid)
        &&& self.procs()[pid].pid == pid
        &&& self.procs()[pid].exit_code == exit_code
        &&& self.procs()[pid].token == before.procs()[pid].token
        &&& self.procs()[pid].heap_bottom == before.procs()[pid].heap_bottom
        &&& self.procs()[pid].program_brk == before.procs()[pid].program_brk
        &&& self.procs()[pid].task == (TaskControlBlock {
            task_status: TaskStatus::Zombie,
            ..before.procs()[pid].task
        })
        &&& match before.adopter(pid) {
            Some(root) => {
                &&& self.unchanged_except(before, pid, root)
                &&& self.children(pid).len() == 0
                &&& self.procs().contains_key(root)
                &&& same_but_children(self.procs()[root], before.procs()[root])
                &&& self.children(root) == before.children(root) + before.children(pid)
            },
            None => {
                &&& self.unchanged_except(before, pid, pid)
                &&& self.children(pid) == before.children(pid)
            },
        }
    }

    /// Makes the process `pid`, whose task is not on the processor nor
    /// ready, a zombie with the exit code `exit_code`, and hands its
    /// children to the process that adopts them.
    fn bury(&mut self, pid: usize, exit_code: i32)
        requires
            old(self).wf(),
            old(self).procs().contains_key(pid),
            old(self).status(pid) == TaskStatus::Zombie || old(self).status(pid)
                == TaskStatus::Blocked,
        ensures
            final(self).wf(),
            final(self).buried_from(old(self), pid, exit_code),
    {
        let ghost mid = *self;
        let root = match self.initproc {
            Some(root) => if root != pid {
                Some(root)
            } else {
                None
            },
            None => None,
        };
        match self.table.remove(&pid) {
            Some(pcb) => {
                let mut pcb = pcb;
                pcb.exit_code = exit_code;
                pcb.task.task_status = TaskStatus::Zombie;
                match root {
                    Some(root) => match self.table.remove(&root) {
                        Some(heir) => {
                            let mut heir = heir;
                            heir.children.append(&mut pcb.children);
                            self.table.insert(root, heir);
                        },
                        None => {},
                    },
                    None => {},
                }
                self.table.insert(pid, pcb);
            },
            None => {},
        }
        proof {
            assert(self.table_wf()) by {
                assert forall|q: usize| #[trigger] self.procs().contains_key(q) implies {
                    &&& self.procs()[q].pid == q
                    &&& self.procs()[q].task.pid == q
                    &&& self.procs()[q].task.tid == q
                    &&& q < self.next_pid()
                    &&& self.procs()[q].task.priority.0 >= 2
                } by {
                    assert(mid.procs().contains_key(q));
                }
            }
            assert(self.current_wf()) by {
                assert forall|q: usize| #[trigger] self.procs().contains_key(q) implies (
                self.status(q) == TaskStatus::Running <==> self.current() == Some(q)) by {
                    assert(mid.procs().contains_key(q));
                }
            }
            assert(self.ready_wf()) by {
                assert forall|i: int| 0 <= i < self.ready().len() implies self.procs().contains_key(
                    #[trigger] self.ready()[i],
                ) && self.status(self.ready()[i]) == TaskStatus::Ready by {
                    assert(mid.procs().contains_key(mid.ready()[i]));
                }
                assert forall|q: usize| #[trigger]
                    self.procs().contains_key(q) && self.status(q)
                        == TaskStatus::Ready implies self.ready().contains(q) by {
                    assert(mid.procs().contains_key(q));
                }
            }
            match root {
                Some(root) => {
                    let mine = mid.children(pid);
                    let theirs = mid.children(root);
                    assert(mid.procs().contains_key(root));
                    assert(self.children(root) == theirs + mine);
                    assert(self.children(pid).len() == 0);
                    assert forall|p: usize, k: int|
                        self.procs().contains_key(p) && 0 <= k < self.children(p).len() implies {
                        &&& self.procs().contains_key(#[trigger] self.children(p)[k])
                        &&& self.initproc() != Some(self.children(p)[k])
                    } by {
                        assert(mid.procs().contains_key(p));
                        if p == root {
                            if k < theirs.len() {
                                assert(mid.procs().contains_key(mid.children(root)[k]));
                            } else {
                                assert(mid.procs().contains_key(
                                    mid.children(pid)[k - theirs.len()],
                                ));
                            }
                        } else {
                            assert(mid.procs().contains_key(mid.children(p)[k]));
                        }
                    }
                    assert forall|p: usize, q: usize, k: int, l: int|
                        self.procs().contains_key(p) && self.procs().contains_key(q) && 0 <= k
                            < self.children(p).len() && 0 <= l < self.children(q).len()
                            && #[trigger] self.children(p)[k] == #[trigger] self.children(
                            q,
                        )[l] implies p == q && k == l by {
                        assert(mid.procs().contains_key(p));
                        assert(mid.procs().contains_key(q));
                        // Where the two entries stood before the children moved.
                        let (p0, k0) = if p == root && k >= theirs.len() {
                            (pid, k - theirs.len())
                        } else {
                            (p, k)
                        };
                        let (q0, l0) = if q == root && l >= theirs.len() {
                            (pid, l - theirs.len())
                        } else {
                            (q, l)
                        };
                        assert(mid.children(p0)[k0] == self.children(p)[k]);
                        assert(mid.children(q0)[l0] == self.children(q)[l]);
                        assert(mid.children(p0)[k0] == mid.children(q0)[l0]);
                        assert(p0 == q0 && k0 == l0);
                    }
                    assert(self.children_wf());
                },
                None => {
                    mid.lemma_children_kept(self);
                },
            }
        }
    }

    /// The blocked task of process `pid` is terminated with `exit_code`,
    /// as when it is killed while it waits: it will not be woken.  Its
    /// process becomes a zombie as when the task exits.  The caller takes
    /// the task out of the wait queue that it is in.  Returns whether the
    /// task was blocked; if it was not, nothing changes.
    pub fn terminate(&mut self, pid: usize, exit_code: i32) -> (terminated: bool)
        requires
            old(self).wf(),
        ensures
            final(self).wf(),
            terminated == (old(self).procs().contains_key(pid) && old(self).status(pid)
                == TaskStatus::Blocked),
            terminated ==> final(self).buried_from(old(self), pid, exit_code),
            !terminated ==> final(self).same_as(old(self)),
            final(self).follows(old(self)),
    {
        let blocked = match self.table.get(&pid) {
            Some(pcb) => pcb.task.task_status == TaskStatus::Blocked,
            None => false,
        };
        if !blocked {
            return false;
        }
        self.bury(pid, exit_code);
        proof {
            assert forall|q: usize|
                #![trigger self.procs().contains_key(q)]
                #![trigger old(self).procs().contains_key(q)]
                self.procs().contains_key(q) && old(self).procs().contains_key(q) implies self.status(
                q,
            ) == old(self).status(q) || old(self).status(q).can_become(self.status(q)) by {
                if q != pid {
                    if let Some(root) = old(self).adopter(pid) {
                        if q == root {
                            assert(self.procs()[q].task == old(self).procs()[q].task);
                        }
                    }
                }
            }
        }
        true
    }
}


impl TaskManager {
    /// The stride of the task of process `pid`.
    pub open spec fn stride_of(&self, pid: usize) -> int {
        self.procs()[pid].task.stride.value()
    }

    /// `count` gives every ready task a counter that never wraps, such that
    /// the stride of the task is the wrapped value of its counter and no two
    /// counters are more than `BIG_STRIDE / 2` apart.
    pub open spec fn strides_unwrap_to(&self, count: spec_fn(usize) -> int) -> bool {
        &&& forall|i: int|
            0 <= i < self.ready().len() ==> count(#[trigger] self.ready()[i]) % Stride::modulus()
                == self.stride_of(self.ready()[i])
        &&& forall|i: int, j: int|
            0 <= i < self.ready().len() && 0 <= j < self.ready().len() ==> count(
                #[trigger] self.ready()[i],
            ) - count(#[trigger] self.ready()[j]) <= Stride::half()
    }

    /// Task `pid` is the choice of stride scheduling among the ready tasks:
    /// whenever the strides are the wrapped values of counters that never
    /// wrap and lie no more than `BIG_STRIDE / 2` apart, task `pid` has the
    /// smallest counter, and of the tasks with that counter the smallest
    /// identifier.
    pub open spec fn is_stride_choice(&self, pid: usize) -> bool {
        &&& self.ready().contains(pid)
        &&& forall|count: spec_fn(usize) -> int| #[trigger]
            self.strides_unwrap_to(count) ==> self.comes_first(count, pid, self.ready().len() as int)
    }

    /// By the counters `count`, task `pid` comes before each of the first
    /// `upto` ready tasks other than itself.
    pub open spec fn comes_first(&self, count: spec_fn(usize) -> int, pid: usize, upto: int) -> bool {
        forall|i: int|
            0 <= i < upto && i < self.ready().len() && self.ready()[i] != pid ==> count(pid) < count(
                #[trigger] self.ready()[i],
            ) || (count(pid) == count(self.ready()[i]) && pid < self.ready()[i])
    }

    /// The place in the ready queue and the identifier of the task that
    /// stride scheduling selects.
    fn pick(&self) -> (choice: Option<(usize, usize)>)
        requires
            self.wf(),
        ensures
            choice is None <==> self.ready().len() == 0,
            choice matches Some((at, pid)) ==> at < self.ready().len() && self.ready()[at as int]
                == pid && self.is_stride_choice(pid),
    {
        let n = self.ready_queue.len();
        if n == 0 {
            return None;
        }
        let mut best: usize = 0;
        let mut best_pid: usize = self.ready_queue[0];
        let mut best_stride: Stride = match self.table.get(&best_pid) {
            Some(pcb) => pcb.task.stride,
            None => StrideImpl::new(0),
        };
        let mut i: usize = 1;
        proof {
            assert(self.procs().contains_key(self.ready()[0]));
        }
        while i < n
            invariant
                self.wf(),
                n == self.ready().len(),
                1 <= i <= n,
                best < i,
                best_pid == self.ready()[best as int],
                best_stride == self.procs()[best_pid].task.stride,
                forall|count: spec_fn(usize) -> int| #[trigger]
                    self.strides_unwrap_to(count) ==> self.comes_first(count, best_pid, i as int),
            decreases n - i,
        {
            let pid = self.ready_queue[i];
            proof {
                assert(self.procs().contains_key(self.ready()[i as int]));
                assert(pid != best_pid) by {
                    assert(self.ready()[i as int] != self.ready()[best as int]);
                }
            }
            let stride: Stride = match self.table.get(&pid) {
                Some(pcb) => pcb.task.stride,
                None => best_stride,
            };
            let earlier = stride < best_stride || (*stride.get() == *best_stride.get() && pid
                < best_pid);
            proof {
                let winner = if earlier {
                    pid
                } else {
                    best_pid
                };
                assert forall|count: spec_fn(usize) -> int| #[trigger]
                    self.strides_unwrap_to(count) implies self.comes_first(
                    count,
                    winner,
                    i as int + 1,
                ) by {
                    assert(self.comes_first(count, best_pid, i as int));
                    assert(count(self.ready()[i as int]) - count(self.ready()[best as int])
                        <= Stride::half());
                    assert(count(self.ready()[best as int]) - count(self.ready()[i as int])
                        <= Stride::half());
                    assert(count(self.ready()[i as int]) % Stride::modulus() == self.stride_of(pid));
                    assert(count(self.ready()[best as int]) % Stride::modulus() == self.stride_of(
                        best_pid,
                    ));
                    super::stride::lemma_wrapped_order_agrees(
                        count(pid),
                        count(best_pid),
                        Stride::modulus(),
                        Stride::half(),
                    );
                    assert forall|j: int|
                        0 <= j < i + 1 && j < self.ready().len() && self.ready()[j]
                            != winner implies count(winner) < count(#[trigger] self.ready()[j]) || (
                    count(winner) == count(self.ready()[j]) && winner < self.ready()[j]) by {
                        if j < i && self.ready()[j] != best_pid {
                            assert(count(best_pid) < count(self.ready()[j]) || (count(best_pid)
                                == count(self.ready()[j]) && best_pid < self.ready()[j]));
                        }
                    }
                }
            }
            if earlier {
                best = i;
                best_pid = pid;
                best_stride = stride;
            }
            i += 1;
        }
        proof {
            assert(self.ready()[best as int] == best_pid);
        }
        Some((best, best_pid))
    }

    /// The task that stride scheduling would dispatch next, if any task is ready.
    pub fn select_next(&self) -> (next: Option<usize>)
        requires
            self.wf(),
        ensures
            next is None <==> self.ready().len() == 0,
            next matches Some(pid) ==> self.is_stride_choice(pid),
    {
        match self.pick() {
            Some((_, pid)) => Some(pid),
            None => None,
        }
    }
}


/// The task control block `after` is `before` after its task has been
/// dispatched at time `now_us`: the task is running, its stride has advanced
/// by `BIG_STRIDE / priority`, and the time of its first dispatch is
/// recorded if this is the first.
pub open spec fn dispatched(after: TaskControlBlock, before: TaskControlBlock, now_us: usize) -> bool {
    &&& after.tid == before.tid
    &&& after.pid == before.pid
    &&& after.task_status == TaskStatus::Running
    &&& after.task_cx == before.task_cx
    &&& after.trap_cx == before.trap_cx
    &&& after.priority == before.priority
    &&& after.stride.value() == super::stride::advanced(
        before.stride.value(),
        Stride::pass(before.priority),
        Stride::modulus(),
    )
    &&& after.signals == before.signals
    &&& after.signal_mask == before.signal_mask
    &&& after.handling_sig == before.handling_sig
    &&& after.signal_actions == before.signal_actions
    &&& after.trap_ctx_backup == before.trap_ctx_backup
    &&& after.infos.syscall_times == before.infos.syscall_times
    &&& after.infos.running_times == (super::task::RunningTimeInfo {
        first_run_time_us: match before.infos.running_times.first_run_time_us {
            Some(first) => Some(first),
            None => Some(now_us),
        },
        ..before.infos.running_times
    })
}

impl TaskManager {
    /// `self` is `before` after task `pid`, the choice of stride scheduling
    /// among the ready tasks, has been dispatched at time `now_us`: see
    /// [`Self::run_tasks`].
    pub open spec fn dispatched_from(&self, before: &TaskManager, pid: usize, now_us: usize) -> bool {
        &&& before.is_stride_choice(pid)
        &&& self.initproc() == before.initproc()
        &&& self.next_pid() == before.next_pid()
        &&& self.ready() == before.ready().remove(before.ready().index_of(pid))
        &&& self.unchanged_except(before, pid, pid)
        &&& self.procs().contains_key(pid)
        &&& same_but_task(self.procs()[pid], before.procs()[pid])
        &&& dispatched(self.procs()[pid].task, before.procs()[pid].task, now_us)
        &&& self.processor() == if before.procs()[pid].task.infos.running_times.first_run_time_us
            is None {
            Processor { current: Some(pid), user_timer_us: Some(now_us), ..before.processor() }
        } else {
            Processor { current: Some(pid), kernel_timer_us: Some(now_us), ..before.processor() }
        }
    }

    /// One round of the idle control flow at time `now_us`: the task that
    /// stride scheduling selects among the ready tasks is dispatched.
    ///
    /// The task leaves the ready queue and is the running task; its stride
    /// advances by `BIG_STRIDE / priority`.  A task that is dispatched for
    /// the first time has the time recorded and starts in user mode, so the
    /// user timer is started; any other task goes on in the kernel, where it
    /// left the processor, so the kernel timer is started.  Returns the task
    /// to switch to, or `None`, with nothing changed, when no task is ready.
    pub fn run_tasks(&mut self, now_us: usize) -> (next: Option<usize>)
        requires
            old(self).wf(),
            old(self).current() is None,
        ensures
            final(self).wf(),
            next is None <==> old(self).ready().len() == 0,
            next is None ==> final(self).same_as(old(self)),
            next matches Some(pid) ==> final(self).dispatched_from(old(self), pid, now_us),
            final(self).follows(old(self)),
    {
        let (at, pid) = match self.pick() {
            Some(choice) => choice,
            None => {
                return None;
            },
        };
        proof {
            assert(old(self).procs().contains_key(old(self).ready()[at as int]));
            let first = old(self).ready().index_of(pid);
            assert(old(self).ready().contains(pid));
            assert(0 <= first < old(self).ready().len() && old(self).ready()[first] == pid);
            assert(first == at);
        }
        self.ready_queue.remove(at);
        let mut first_run = false;
        match self.table.remove(&pid) {
            Some(pcb) => {
                let mut pcb = pcb;
                pcb.task.task_status = TaskStatus::Running;
                pcb.task.stride.step(pcb.task.priority);
                if pcb.task.infos.running_times.first_run_time_us.is_none() {
                    pcb.task.infos.running_times.first_run_time_us = Some(now_us);
                    first_run = true;
                }
                self.table.insert(pid, pcb);
            },
            None => {},
        }
        self.processor.current = Some(pid);
        if first_run {
            self.processor.user_timer_us = Some(now_us);
        } else {
            self.processor.kernel_timer_us = Some(now_us);
        }
        proof {
            assert(self.table_wf());
            assert(self.current_wf()) by {
                assert forall|q: usize| #[trigger] self.procs().contains_key(q) implies (
                self.status(q) == TaskStatus::Running <==> self.current() == Some(q)) by {
                    assert(old(self).procs().contains_key(q));
                }
            }
            assert(self.ready_wf()) by {
                assert forall|i: int| 0 <= i < self.ready().len() implies self.procs().contains_key(
                    #[trigger] self.ready()[i],
                ) && self.status(self.ready()[i]) == TaskStatus::Ready by {
                    if i < at {
                        assert(self.ready()[i] == old(self).ready()[i]);
                        assert(old(self).procs().contains_key(old(self).ready()[i]));
                    } else {
                        assert(self.ready()[i] == old(self).ready()[i + 1]);
                        assert(old(self).procs().contains_key(old(self).ready()[i + 1]));
                    }
                }
                assert forall|q: usize| #[trigger]
                    self.procs().contains_key(q) && self.status(q)
                        == TaskStatus::Ready implies self.ready().contains(q) by {
                    assert(old(self).procs().contains_key(q));
                    let i = choose|i: int|
                        0 <= i < old(self).ready().len() && old(self).ready()[i] == q;
                    if i < at {
                        assert(self.ready()[i] == q);
                    } else {
                        assert(self.ready()[i - 1] == q);
                    }
                }
            }
            old(self).lemma_children_kept(self);
        }
        Some(pid)
    }

    /// Whether `pid`, the argument of a wait, stands for the process `child`:
    /// `-1` stands for every process.
    pub open spec fn wait_matches(pid: isize, child: usize) -> bool {
        pid == -1 || (pid >= 0 && pid == child)
    }

    /// Entry `k` is the first child of process `parent` that `pid` stands
    /// for and that is a zombie.
    pub open spec fn first_zombie_at(&self, parent: usize, pid: isize, k: int) -> bool {
        &&& 0 <= k < self.children(parent).len()
        &&& Self::wait_matches(pid, self.children(parent)[k])
        &&& self.status(self.children(parent)[k]) == TaskStatus::Zombie
        &&& forall|j: int|
            0 <= j < k ==> !(Self::wait_matches(pid, #[trigger] self.children(parent)[j])
                && self.status(self.children(parent)[j]) == TaskStatus::Zombie)
    }

    /// `self` is `before` after the running task has waited for the child
    /// that `pid` stands for, with the result `found`: see [`Self::waitpid`].
    pub open spec fn waited_from(
        &self,
        before: &TaskManager,
        pid: isize,
        found: (isize, Option<i32>),
    ) -> bool {
        let parent = before.current().unwrap();
        let children = before.children(parent);
        &&& self.ready() == before.ready()
        &&& self.processor() == before.processor()
        &&& self.initproc() == before.initproc()
        &&& self.next_pid() == before.next_pid()
        &&& if forall|k: int|
            0 <= k < children.len() ==> !Self::wait_matches(pid, #[trigger] children[k]) {
            &&& found == (-1isize, None::<i32>)
            &&& self.procs() == before.procs()
        } else if forall|k: int|
            0 <= k < children.len() ==> !(Self::wait_matches(pid, #[trigger] children[k])
                && before.status(children[k]) == TaskStatus::Zombie) {
            &&& found == (-2isize, None::<i32>)
            &&& self.procs() == before.procs()
        } else {
            exists|k: int|
                {
                    &&& #[trigger] before.first_zombie_at(parent, pid, k)
                    &&& found == (children[k] as isize, Some(before.procs()[children[k]].exit_code))
                    &&& !self.procs().contains_key(children[k])
                    &&& self.unchanged_except(before, parent, children[k])
                    &&& self.procs().contains_key(parent)
                    &&& same_but_children(self.procs()[parent], before.procs()[parent])
                    &&& self.children(parent) == children.remove(k)
                }
        }
    }

    /// The running task waits for a child to exit; `pid` names the child, or
    /// is `-1` for any child.
    ///
    /// Returns `-1` when no child is meant by `pid`, and `-2` when there is
    /// such a child but none that has exited; nothing changes then.
    /// Otherwise the first child meant by `pid` that is a zombie, in the
    /// order of the list of children, is taken out of the list and out of
    /// the process table, and its identifier and exit code are returned.
    pub fn waitpid(&mut self, pid: isize) -> (found: (isize, Option<i32>))
        requires
            old(self).wf(),
            old(self).current() is Some,
        ensures
            final(self).wf(),
            final(self).waited_from(old(self), pid, found),
            final(self).follows(old(self)),
    {
        let parent = match self.processor.current {
            Some(parent) => parent,
            None => 0,
        };
        let ghost children = self.children(parent);
        let mut any = false;
        let mut zombie: Option<usize> = None;
        match self.table.get(&parent) {
            Some(pcb) => {
                let mut k: usize = 0;
                while k < pcb.children.len()
                    invariant_except_break
                        zombie is None,
                        any <==> exists|j: int|
                            0 <= j < k && Self::wait_matches(pid, #[trigger] children[j]),
                    invariant
                        self.wf(),
                        self.procs().contains_key(parent),
                        *pcb == self.procs()[parent],
                        children == pcb.children@,
                        k <= children.len(),
                        forall|j: int|
                            0 <= j < k ==> !(Self::wait_matches(pid, #[trigger] children[j])
                                && self.status(children[j]) == TaskStatus::Zombie),
                    ensures
                        self.wf(),
                        k <= children.len(),
                        match zombie {
                            Some(at) => at == k && self.first_zombie_at(parent, pid, at as int),
                            None => k == children.len() && (any <==> exists|j: int|
                                0 <= j < k && Self::wait_matches(pid, #[trigger] children[j]))
                                && forall|j: int|
                                0 <= j < k ==> !(Self::wait_matches(pid, #[trigger] children[j])
                                    && self.status(children[j]) == TaskStatus::Zombie),
                        },
                    decreases pcb.children.len() - k,
                {
                    let child = pcb.children[k];
                    let meant = pid == -1 || (pid >= 0 && pid as usize == child);
                    proof {
                        assert(self.procs().contains_key(self.children(parent)[k as int]));
                        assert(meant == Self::wait_matches(pid, children[k as int]));
                    }
                    if meant {
                        any = true;
                        let exited = match self.table.get(&child) {
                            Some(c) => c.task.task_status == TaskStatus::Zombie,
                            None => false,
                        };
                        if exited {
                            zombie = Some(k);
                            break ;
                        }
                    }
                    k += 1;
                }
            },
            None => {},
        }
        match zombie {
            Some(at) => {
                let mut child: usize = 0;
                match self.table.remove(&parent) {
                    Some(pcb) => {
                        let mut pcb = pcb;
                        child = pcb.children.remove(at);
                        self.table.insert(parent, pcb);
                    },
                    None => {},
                }
                proof {
                    assert(old(self).procs().contains_key(old(self).children(parent)[at as int]));
                    assert(child != parent) by {
                        assert(old(self).status(child) == TaskStatus::Zombie);
                        assert(old(self).status(parent) == TaskStatus::Running);
                    }
                }
                let exit_code = match self.table.remove(&child) {
                    Some(gone) => gone.exit_code,
                    None => 0,
                };
                proof {
                    assert(self.table_wf()) by {
                        assert forall|q: usize| #[trigger] self.procs().contains_key(q) implies {
                            &&& self.procs()[q].pid == q
                            &&& self.procs()[q].task.pid == q
                            &&& self.procs()[q].task.tid == q
                            &&& q < self.next_pid()
                            &&& self.procs()[q].task.priority.0 >= 2
                        } by {
                            assert(old(self).procs().contains_key(q));
                        }
                    }
                    assert(self.current_wf()) by {
                        assert forall|q: usize| #[trigger] self.procs().contains_key(q) implies (
                        self.status(q) == TaskStatus::Running <==> self.current() == Some(q)) by {
                            assert(old(self).procs().contains_key(q));
                        }
                    }
                    assert(self.ready_wf()) by {
                        assert forall|i: int|
                            0 <= i < self.ready().len() implies self.procs().contains_key(
                            #[trigger] self.ready()[i],
                        ) && self.status(self.ready()[i]) == TaskStatus::Ready by {
                            assert(old(self).procs().contains_key(old(self).ready()[i]));
                        }
                        assert forall|q: usize| #[trigger]
                            self.procs().contains_key(q) && self.status(q)
                                == TaskStatus::Ready implies self.ready().contains(q) by {
                            assert(old(self).procs().contains_key(q));
                        }
                    }
                    assert(self.children_wf()) by {
                        assert forall|p: usize, k: int|
                            self.procs().contains_key(p) && 0 <= k < self.children(
                                p,
                            ).len() implies {
                            &&& self.procs().contains_key(#[trigger] self.children(p)[k])
                            &&& self.initproc() != Some(self.children(p)[k])
                        } by {
                            assert(old(self).procs().contains_key(p));
                            let k0 = if p == parent && k >= at {
                                k + 1
                            } else {
                                k
                            };
                            assert(old(self).children(p)[k0] == self.children(p)[k]);
                            assert(old(self).procs().contains_key(old(self).children(p)[k0]));
                            assert(old(self).children(p)[k0] != child) by {
                                if old(self).children(p)[k0] == old(self).children(parent)[at as int] {
                                }
                            }
                        }
                        assert forall|p: usize, q: usize, k: int, l: int|
                            self.procs().contains_key(p) && self.procs().contains_key(q) && 0 <= k
                                < self.children(p).len() && 0 <= l < self.children(q).len()
                                && #[trigger] self.children(p)[k] == #[trigger] self.children(
                                q,
                            )[l] implies p == q && k == l by {
                            assert(old(self).procs().contains_key(p));
                            assert(old(self).procs().contains_key(q));
                            let k0 = if p == parent && k >= at {
                                k + 1
                            } else {
                                k
                            };
                            let l0 = if q == parent && l >= at {
                                l + 1
                            } else {
                                l
                            };
                            assert(old(self).children(p)[k0] == self.children(p)[k]);
                            assert(old(self).children(q)[l0] == self.children(q)[l]);
                            assert(old(self).children(p)[k0] == old(self).children(q)[l0]);
                        }
                        assert(self.initproc() matches Some(root) ==> self.procs().contains_key(
                            root,
                        )) by {
                            if let Some(root) = self.initproc() {
                                assert(old(self).procs().contains_key(root));
                                assert(old(self).initproc() != Some(
                                    old(self).children(parent)[at as int],
                                ));
                            }
                        }
                    }
                    assert(old(self).first_zombie_at(parent, pid, at as int));
                    assert(Self::wait_matches(pid, children[at as int]));
                }
                (child as isize, Some(exit_code))
            },
            None => {
                if any {
                    (-2, None)
                } else {
                    (-1, None)
                }
            },
        }
    }
}


impl TaskManager {
    /// Move the end of the heap of the running task by `size` bytes.
    /// Returns the old end, or -1, with nothing changed, when the new end
    /// would lie below the start of the heap or beyond the address range.
    pub fn change_program_brk(&mut self, size: i32) -> (r: isize)
        requires
            old(self).wf(),
            old(self).current() is Some,
        ensures
            final(self).wf(),
            final(self).ready() == old(self).ready(),
            final(self).processor() == old(self).processor(),
            final(self).initproc() == old(self).initproc(),
            final(self).next_pid() == old(self).next_pid(),
            ({
                let pid = old(self).current().unwrap();
                let before = old(self).procs()[pid];
                let after = final(self).procs()[pid];
                &&& final(self).unchanged_except(old(self), pid, pid)
                &&& final(self).procs().contains_key(pid)
                &&& after.pid == before.pid
                &&& after.task == before.task
                &&& after.children == before.children
                &&& after.exit_code == before.exit_code
                &&& after.token == before.token
                &&& after.heap_bottom == before.heap_bottom
                &&& if before.heap_bottom <= before.program_brk + size <= usize::MAX {
                    r == before.program_brk as isize && after.program_brk == before.program_brk
                        + size
                } else {
                    r == -1 && after.program_brk == before.program_brk
                }
            }),
    {
        let pid = match self.processor.current {
            Some(pid) => pid,
            None => 0,
        };
        let mut result: isize = -1;
        match self.table.remove(&pid) {
            Some(pcb) => {
                let mut pcb = pcb;
                match pcb.change_program_brk(size) {
                    Some(old_brk) => {
                        result = #[verifier::truncate]
                        (old_brk as isize);
                    },
                    None => {},
                }
                self.table.insert(pid, pcb);
            },
            None => {},
        }
        proof {
            assert(self.table_wf());
            assert(self.current_wf());
            assert(self.ready_wf()) by {
                assert forall|q: usize| #[trigger]
                    self.procs().contains_key(q) && self.status(q)
                        == TaskStatus::Ready implies self.ready().contains(q) by {
                    assert(old(self).procs().contains_key(q));
                }
            }
            old(self).lemma_children_kept(self);
        }
        result
    }
}


impl TaskManager {
    /// The switch from the idle control flow to the running task, which has
    /// just been dispatched: the registers of the processor are saved as the
    /// context of the idle control flow and loaded from the context of the
    /// task.
    pub fn switch_to_current(&mut self, registers: &mut TaskContext)
        requires
            old(self).wf(),
            old(self).current() is Some,
        ensures
            final(self).wf(),
            final(self).procs() == old(self).procs(),
            final(self).ready() == old(self).ready(),
            final(self).initproc() == old(self).initproc(),
            final(self).next_pid() == old(self).next_pid(),
            final(self).processor() == (Processor {
                idle_task_cx: *old(registers),
                ..old(self).processor()
            }),
            *final(registers) == old(self).procs()[old(self).current().unwrap()].task.task_cx,
    {
        let next = match self.processor.current {
            Some(pid) => match self.table.get(&pid) {
                Some(pcb) => pcb.task.task_cx,
                None => *registers,
            },
            None => *registers,
        };
        switch(registers, &mut self.processor.idle_task_cx, &next);
        proof {
            old(self).lemma_wf_timers(self);
        }
    }

    /// The switch from the task of process `pid`, which has left the
    /// processor, back to the idle control flow: the registers of the
    /// processor are saved as the context of the task, to be loaded when the
    /// task is dispatched again, and loaded from the context of the idle
    /// control flow.
    pub fn schedule(&mut self, pid: usize, registers: &mut TaskContext)
        requires
            old(self).wf(),
            old(self).procs().contains_key(pid),
            old(self).status(pid) != TaskStatus::Running,
        ensures
            final(self).wf(),
            final(self).ready() == old(self).ready(),
            final(self).processor() == old(self).processor(),
            final(self).initproc() == old(self).initproc(),
            final(self).next_pid() == old(self).next_pid(),
            final(self).unchanged_except(old(self), pid, pid),
            final(self).procs().contains_key(pid),
            same_but_task(final(self).procs()[pid], old(self).procs()[pid]),
            final(self).procs()[pid].task == (TaskControlBlock {
                task_cx: *old(registers),
                ..old(self).procs()[pid].task
            }),
            *final(registers) == old(self).processor().idle_task_cx,
    {
        let mut task = match self.table.get(&pid) {
            Some(pcb) => pcb.task,
            None => {
                return ;
            },
        };
        let idle = self.processor.idle_task_cx;
        switch(registers, &mut task.task_cx, &idle);
        self.set_task(pid, task);
    }
}


impl TaskManager {
    /// The counters of the ready tasks after the task of process `pid`,
    /// which had the counters `count`, has been dispatched once: its counter
    /// has advanced by its pass.
    pub open spec fn advanced_counters(
        &self,
        count: spec_fn(usize) -> int,
        pid: usize,
    ) -> spec_fn(usize) -> int {
        |t: usize|
            if t == pid {
                count(pid) + Stride::pass(self.procs()[pid].task.priority)
            } else {
                count(t)
            }
    }

    /// Stride scheduling keeps the strides comparable.  When the strides of
    /// the ready tasks are the wrapped values of counters that lie no more
    /// than `BIG_STRIDE / 2` apart, and a task is dispatched and later gives
    /// up the processor, then the strides of the ready tasks are again the
    /// wrapped values of such counters: those of before, with the counter of
    /// the task advanced by its pass.
    pub proof fn lemma_round_keeps_strides(
        before: &TaskManager,
        running: &TaskManager,
        after: &TaskManager,
        pid: usize,
        dispatched_at: usize,
        left_at: usize,
        count: spec_fn(usize) -> int,
    )
        requires
            before.wf(),
            running.wf(),
            running.dispatched_from(before, pid, dispatched_at),
            after.left_from(running, TaskStatus::Ready, left_at),
            before.strides_unwrap_to(count),
        ensures
            after.strides_unwrap_to(before.advanced_counters(count, pid)),
    {
        let next = before.advanced_counters(count, pid);
        let at = before.ready().index_of(pid);
        assert(before.ready().contains(pid));
        assert(0 <= at < before.ready().len() && before.ready()[at] == pid);
        assert(before.procs().contains_key(before.ready()[at]));
        assert(before.procs().contains_key(pid));
        let priority = before.procs()[pid].task.priority;
        let pass = Stride::pass(priority);
        assert(priority.0 >= 2);
        super::stride::lemma_pass_bound(isize::MAX as int, priority.0 as int);
        super::stride::lemma_big_stride();
        assert(pass == (isize::MAX as int) / (priority.0 as int));
        assert(0 <= pass <= Stride::half());
        assert(running.current() == Some(pid));
        super::stride::lemma_advance_wraps(count(pid), pass, Stride::modulus());
        assert(count(before.ready()[at]) % Stride::modulus() == before.stride_of(pid));
        assert(before.comes_first(count, pid, before.ready().len() as int));
        // Where the ready tasks of `after` stood in the ready queue of `before`.
        assert forall|i: int| 0 <= i < after.ready().len() implies {
            let j = if i == after.ready().len() - 1 {
                at
            } else if i < at {
                i
            } else {
                i + 1
            };
            &&& 0 <= j < before.ready().len()
            &&& #[trigger] after.ready()[i] == before.ready()[j]
            &&& (i < after.ready().len() - 1 ==> after.ready()[i] != pid)
        } by {
            if i < after.ready().len() - 1 {
                assert(after.ready()[i] == running.ready()[i]);
                if i < at {
                    assert(before.ready()[i] != before.ready()[at]);
                } else {
                    assert(before.ready()[at] != before.ready()[i + 1]);
                }
            }
        }
        assert forall|i: int| 0 <= i < after.ready().len() implies next(
            #[trigger] after.ready()[i],
        ) % Stride::modulus() == after.stride_of(after.ready()[i]) by {
            let t = after.ready()[i];
            if i < after.ready().len() - 1 {
                let j = if i < at {
                    i
                } else {
                    i + 1
                };
                assert(t == before.ready()[j]);
                assert(t != pid);
                assert(before.procs().contains_key(before.ready()[j]));
                assert(running.procs().contains_key(t) == before.procs().contains_key(t));
                assert(running.procs()[t] == before.procs()[t]);
                assert(after.procs().contains_key(t) == running.procs().contains_key(t));
                assert(after.procs()[t] == running.procs()[t]);
            }
        }
        assert forall|i: int, j: int|
            0 <= i < after.ready().len() && 0 <= j < after.ready().len() implies next(
            #[trigger] after.ready()[i],
        ) - next(#[trigger] after.ready()[j]) <= Stride::half() by {
            let t = after.ready()[i];
            let u = after.ready()[j];
            let ti = if i == after.ready().len() - 1 {
                at
            } else if i < at {
                i
            } else {
                i + 1
            };
            let uj = if j == after.ready().len() - 1 {
                at
            } else if j < at {
                j
            } else {
                j + 1
            };
            assert(t == before.ready()[ti]);
            assert(u == before.ready()[uj]);
            assert(count(before.ready()[ti]) - count(before.ready()[uj]) <= Stride::half());
            if u != pid {
                assert(count(pid) <= count(before.ready()[uj]));
            }
        }
    }
}


/// When the running task leaves the processor and a task is dispatched,
/// every task has kept its status or taken a step of the life cycle: a task
/// that left and is dispatched again at once runs as it did before.
proof fn lemma_follows_twice(before: &TaskManager, mid: &TaskManager, after: &TaskManager)
    requires
        mid.follows(before),
        after.follows(mid),
        before.wf(),
        mid.wf(),
        mid.current() is None,
        forall|q: usize|
            after.procs().contains_key(q) ==> #[trigger] mid.procs().contains_key(q),
        forall|q: usize|
            #![trigger after.procs().contains_key(q)]
            after.procs().contains_key(q) && after.status(q) != mid.status(q) ==> mid.status(q)
                == TaskStatus::Ready && after.status(q) == TaskStatus::Running,
        forall|q: usize|
            #![trigger mid.procs().contains_key(q)]
            mid.procs().contains_key(q) && before.procs().contains_key(q) && mid.status(q)
                != before.status(q) ==> before.status(q) == TaskStatus::Running,
    ensures
        after.follows(before),
{
    assert forall|q: usize|
        #![trigger after.procs().contains_key(q)]
        #![trigger before.procs().contains_key(q)]
        after.procs().contains_key(q) && before.procs().contains_key(q) implies after.status(q)
        == before.status(q) || before.status(q).can_become(after.status(q)) by {
        assert(mid.procs().contains_key(q));
    }
}


impl TaskManager {
    /// The running task gives up the processor at time `now_us`, and the
    /// task that stride scheduling selects is dispatched; this may be the
    /// same task again.  Returns the task that runs now.
    pub fn suspend_current_and_run_next(&mut self, now_us: usize) -> (next: usize)
        requires
            old(self).wf(),
            old(self).kernel_time_due(now_us),
            old(self).processor().user_timer_us is None,
        ensures
            final(self).wf(),
            final(self).current() == Some(next),
            exists|mid: TaskManager|
                {
                    &&& mid.wf()
                    &&& #[trigger] mid.left_from(old(self), TaskStatus::Ready, now_us)
                    &&& final(self).dispatched_from(&mid, next, now_us)
                },
            final(self).follows(old(self)),
    {
        let pid = self.suspend_current(now_us);
        let ghost mid = *self;
        proof {
            assert(mid.ready()[old(self).ready().len() as int] == pid);
        }
        let next = self.run_tasks(now_us);
        proof {
            assert(next is Some);
            assert(mid.left_from(old(self), TaskStatus::Ready, now_us));
            lemma_follows_twice(old(self), &mid, self);
        }
        match next {
            Some(next) => next,
            None => pid,
        }
    }

    /// The running task exits with `exit_code` at time `now_us`, and the
    /// task that stride scheduling selects is dispatched.  Returns the task
    /// that runs now, or `None` when no task is ready.
    pub fn exit_current_and_run_next(&mut self, exit_code: i32, now_us: usize) -> (next: Option<
        usize,
    >)
        requires
            old(self).wf(),
            old(self).kernel_time_due(now_us),
            old(self).processor().user_timer_us is None,
        ensures
            final(self).wf(),
            final(self).current() == next,
            next is None <==> old(self).ready().len() == 0,
            exists|mid: TaskManager|
                {
                    &&& mid.wf()
                    &&& #[trigger] mid.exited_from(old(self), exit_code, now_us)
                    &&& match next {
                        Some(pid) => final(self).dispatched_from(&mid, pid, now_us),
                        None => final(self).same_as(&mid),
                    }
                },
            final(self).follows(old(self)),
    {
        self.exit_current(exit_code, now_us);
        let ghost mid = *self;
        let next = self.run_tasks(now_us);
        proof {
            assert(mid.exited_from(old(self), exit_code, now_us));
            lemma_follows_twice(old(self), &mid, self);
        }
        next
    }
}

} // verus!

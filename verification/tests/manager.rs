use oskernel::sync::deadlock_avoidance::{enable, DeadlockDetect};
use oskernel::syscall::process::{
    sys_exec, sys_exit, sys_fork, sys_get_time, sys_getpid, sys_mmap, sys_munmap, sys_sbrk,
    sys_set_priority, sys_spawn, sys_task_info, sys_waitpid, sys_yield, TaskInfo, TimeVal,
};
use oskernel::syscall::{
    syscall, Syscall, SYSCALL_EXIT, SYSCALL_GETPID, SYSCALL_SBRK, SYSCALL_WAITPID, SYSCALL_WRITE,
    SYSCALL_YIELD,
};
use oskernel::task::context::TaskContext;
use oskernel::task::manager::TaskManager;
use oskernel::task::task::{ProgramImage, TaskStatus};

const SSTATUS: usize = 0x122;

fn image(n: usize) -> ProgramImage {
    ProgramImage {
        token: 0x8000 + n,
        entry_point: 0x10000 * (n + 1),
        user_sp: 0x7000_0000 + n,
        heap_bottom: 0x20000 * (n + 1),
    }
}

fn kernel_cx(n: usize) -> TaskContext {
    TaskContext::goto(0xffff_0000, 0xfff0_0000 - 0x2000 * n)
}

/// The running task traps into the kernel at `now`.
fn trap(m: &mut TaskManager, now: usize) {
    if m.processor_state().user_timer_us.is_some() {
        assert!(m.is_user_time_due(now));
        m.user_timer_stop(now);
    }
    if m.processor_state().kernel_timer_us.is_none() {
        m.kernel_timer_start(now);
    }
    assert!(m.is_kernel_time_due(now));
}

/// The running task, which is in user mode or in the kernel, yields at `now`.
fn yield_at(m: &mut TaskManager, now: usize) -> usize {
    trap(m, now);
    assert_eq!(sys_yield(m, now), 0);
    m.current_task().unwrap()
}

/// A manager whose first process runs and is in the kernel at time 10.
fn booted() -> TaskManager {
    let mut m = TaskManager::new();
    let pid = m.spawn(&image(0), kernel_cx(0), SSTATUS);
    assert_eq!(pid, 0);
    assert_eq!(m.run_tasks(5), Some(0));
    trap(&mut m, 10);
    m
}

#[test]
fn new_manager_is_empty() {
    let mut m = TaskManager::new();
    assert_eq!(m.current_task(), None);
    assert_eq!(m.ready_count(), 0);
    assert_eq!(m.init_process(), None);
    assert!(m.process(0).is_none());
    assert_eq!(m.select_next(), None);
    assert_eq!(m.run_tasks(1), None);
    assert_eq!(m.current_task(), None);
}

#[test]
fn spawn_creates_a_ready_process() {
    let mut m = TaskManager::new();
    let pid = m.spawn(&image(3), kernel_cx(3), SSTATUS | 0x100);
    assert_eq!(pid, 0);
    assert_eq!(m.init_process(), Some(0));
    assert_eq!(m.ready_count(), 1);
    let pcb = m.process(0).unwrap();
    assert_eq!(pcb.getpid(), 0);
    assert!(pcb.children.is_empty());
    assert_eq!(pcb.token, 0x8003);
    assert_eq!(pcb.heap_bottom, 0x80000);
    assert_eq!(pcb.program_brk, 0x80000);
    assert_eq!(pcb.task.task_status, TaskStatus::Ready);
    assert_eq!(pcb.task.task_cx, kernel_cx(3));
    assert_eq!(pcb.task.trap_cx.sepc, 0x40000);
    assert_eq!(pcb.task.trap_cx.x[2], 0x7000_0003);
    assert_eq!(pcb.task.trap_cx.x[10], 0);
    assert_eq!(pcb.task.trap_cx.sstatus, 0x22);
    assert_eq!(pcb.task.priority.0, 16);
    assert_eq!(*pcb.task.stride.get(), 0);
    assert_eq!(pcb.task.infos.running_times.first_run_time_us, None);
    assert!(!pcb.zombie());
}

#[test]
fn first_dispatch_records_the_time_once() {
    let mut m = TaskManager::new();
    m.spawn(&image(0), kernel_cx(0), SSTATUS);
    assert_eq!(m.select_next(), Some(0));
    assert_eq!(m.run_tasks(42), Some(0));
    assert_eq!(m.current_task(), Some(0));
    assert_eq!(m.ready_count(), 0);
    {
        let task = m.process(0).unwrap().task;
        assert_eq!(task.task_status, TaskStatus::Running);
        assert_eq!(task.infos.running_times.first_run_time_us, Some(42));
        assert_eq!(*task.stride.get(), isize::MAX as usize / 16);
    }
    assert_eq!(m.processor_state().user_timer_us, Some(42));
    assert_eq!(m.processor_state().kernel_timer_us, None);
    trap(&mut m, 50);
    assert_eq!(m.process(0).unwrap().task.infos.running_times.user_time_us, 8);
    assert_eq!(sys_yield(&mut m, 57), 0);
    assert_eq!(m.current_task(), Some(0));
    let task = m.process(0).unwrap().task;
    assert_eq!(task.infos.running_times.first_run_time_us, Some(42));
    assert_eq!(task.infos.running_times.kernel_time_us, 7);
    assert_eq!(*task.stride.get(), isize::MAX as usize / 16 * 2);
    assert_eq!(m.processor_state().kernel_timer_us, Some(57));
    assert_eq!(m.processor_state().user_timer_us, None);
}

#[test]
fn simple_scheduling_by_priority() {
    let mut m = booted();
    // Task 0 creates task 1 and takes priority 4.
    assert_eq!(sys_spawn(&mut m, Some(&image(1)), kernel_cx(1), SSTATUS), 1);
    assert_eq!(sys_set_priority(&mut m, 4), 4);
    let mut now = 20;
    // Task 1 takes priority 8 as soon as it runs.
    while yield_at(&mut m, now) != 1 {
        now += 1;
    }
    trap(&mut m, now);
    assert_eq!(sys_set_priority(&mut m, 8), 8);
    let mut runs = [0usize; 2];
    for _ in 0..3000 {
        now += 1;
        let pid = yield_at(&mut m, now);
        runs[pid] += 1;
        assert_eq!(m.ready_count(), 1);
    }
    // The stride of task 0 advances by BIG_STRIDE / 4 and that of task 1 by
    // BIG_STRIDE / 8 with every dispatch: task 1 is dispatched twice as often.
    assert_eq!(runs[0] + runs[1], 3000);
    assert!(runs[0] >= 995 && runs[0] <= 1005, "{:?}", runs);
    assert!(runs[1] >= 1995 && runs[1] <= 2005, "{:?}", runs);
}

#[test]
fn equal_strides_go_by_identifier() {
    let mut m = booted();
    sys_spawn(&mut m, Some(&image(1)), kernel_cx(1), SSTATUS);
    sys_spawn(&mut m, Some(&image(2)), kernel_cx(2), SSTATUS);
    // The children took over the stride of task 0, which has advanced once.
    let stride = *m.process(0).unwrap().task.stride.get();
    assert_eq!(*m.process(1).unwrap().task.stride.get(), stride);
    assert_eq!(*m.process(2).unwrap().task.stride.get(), stride);
    assert_eq!(yield_at(&mut m, 11), 0);
    assert_eq!(yield_at(&mut m, 13), 1);
    assert_eq!(yield_at(&mut m, 15), 2);
    assert_eq!(yield_at(&mut m, 17), 0);
    assert_eq!(yield_at(&mut m, 19), 1);
    assert_eq!(yield_at(&mut m, 21), 2);
}

#[test]
fn selection_survives_wraparound() {
    let mut m = booted();
    sys_spawn(&mut m, Some(&image(1)), kernel_cx(1), SSTATUS);
    sys_set_priority(&mut m, 2);
    let mut now = 20;
    while yield_at(&mut m, now) != 1 {
        now += 1;
    }
    trap(&mut m, now);
    sys_set_priority(&mut m, 2);
    // With priority 2 every dispatch advances the stride by a quarter of the
    // counter's range: the counters wrap around every fourth dispatch, and
    // the two tasks still take turns.
    let mut runs = [0usize; 2];
    let mut wraps = 0;
    let mut last = [0usize; 2];
    for _ in 0..64 {
        now += 1;
        let pid = yield_at(&mut m, now);
        runs[pid] += 1;
        let stride = *m.process(pid).unwrap().task.stride.get();
        if stride < last[pid] {
            wraps += 1;
        }
        last[pid] = stride;
    }
    assert!(wraps >= 14, "{}", wraps);
    assert!(runs[0] >= 31 && runs[0] <= 33, "{:?}", runs);
    assert!(runs[1] >= 31 && runs[1] <= 33, "{:?}", runs);
}

#[test]
fn wait_semantics() {
    let mut m = booted();
    let mut detect = DeadlockDetect::new();
    let mut code = -99;
    // No child yet.
    assert_eq!(sys_waitpid(&mut m, -1, &mut code), -1);
    let child = sys_fork(&mut m, 0x9000, kernel_cx(1));
    assert_eq!(child, 1);
    assert_eq!(m.process(0).unwrap().children, vec![1]);
    // The child has not exited.
    assert_eq!(sys_waitpid(&mut m, -1, &mut code), -2);
    assert_eq!(sys_waitpid(&mut m, 1, &mut code), -2);
    assert_eq!(sys_waitpid(&mut m, 5, &mut code), -1);
    assert_eq!(sys_waitpid(&mut m, -2, &mut code), -1);
    assert_eq!(code, -99);
    // The parent yields until the child runs; the child exits with 7.
    let mut now = 20;
    while yield_at(&mut m, now) != 1 {
        now += 1;
    }
    trap(&mut m, now);
    assert_eq!(sys_getpid(&m), 1);
    assert_eq!(sys_exit(&mut m, &mut detect, 7, now + 1), Some(0));
    assert!(m.process(1).unwrap().zombie());
    assert_eq!(m.process(1).unwrap().exit_code, 7);
    assert_eq!(m.current_task(), Some(0));
    // The parent collects the child.
    assert_eq!(sys_waitpid(&mut m, -1, &mut code), 1);
    assert_eq!(code, 7);
    assert!(m.process(1).is_none());
    assert!(m.process(0).unwrap().children.is_empty());
    assert_eq!(sys_waitpid(&mut m, -1, &mut code), -1);
}

#[test]
fn wait_takes_the_first_zombie_in_list_order() {
    let mut m = booted();
    let mut detect = DeadlockDetect::new();
    assert_eq!(sys_fork(&mut m, 1, kernel_cx(1)), 1);
    assert_eq!(sys_fork(&mut m, 2, kernel_cx(2)), 2);
    assert_eq!(sys_fork(&mut m, 3, kernel_cx(3)), 3);
    let mut now = 20;
    // Children 3 and 2 exit, in this order; child 1 lives on.
    let mut left = vec![(3usize, 33), (2usize, 22)];
    while !left.is_empty() {
        now += 1;
        trap(&mut m, now);
        let me = m.current_task().unwrap();
        if me == left[0].0 {
            sys_exit(&mut m, &mut detect, left[0].1, now);
            left.remove(0);
        } else {
            sys_yield(&mut m, now);
        }
    }
    trap(&mut m, now);
    while m.current_task() != Some(0) {
        now += 1;
        yield_at(&mut m, now);
    }
    trap(&mut m, now);
    let mut code = 0;
    assert_eq!(sys_waitpid(&mut m, 1, &mut code), -2);
    assert_eq!(sys_waitpid(&mut m, -1, &mut code), 2);
    assert_eq!(code, 22);
    assert_eq!(m.process(0).unwrap().children, vec![1, 3]);
    assert_eq!(sys_waitpid(&mut m, 3, &mut code), 3);
    assert_eq!(code, 33);
    assert_eq!(sys_waitpid(&mut m, -1, &mut code), -2);
}

#[test]
fn fork_copies_the_caller() {
    let mut m = booted();
    sys_set_priority(&mut m, 5);
    sys_sbrk(&mut m, 0x300);
    let child = sys_fork(&mut m, 0x9abc, kernel_cx(9)) as usize;
    let parent = m.process(0).unwrap();
    let copy = m.process(child).unwrap();
    assert_eq!(copy.token, 0x9abc);
    assert_eq!(copy.heap_bottom, parent.heap_bottom);
    assert_eq!(copy.program_brk, parent.program_brk);
    assert_eq!(copy.task.task_status, TaskStatus::Ready);
    assert_eq!(copy.task.task_cx, kernel_cx(9));
    assert_eq!(copy.task.trap_cx.sepc, parent.task.trap_cx.sepc);
    assert_eq!(copy.task.trap_cx.sstatus, parent.task.trap_cx.sstatus);
    assert_eq!(copy.task.trap_cx.x[2], parent.task.trap_cx.x[2]);
    assert_eq!(copy.task.trap_cx.x[10], 0);
    assert_eq!(copy.task.priority, parent.task.priority);
    assert_eq!(copy.task.stride, parent.task.stride);
    assert_eq!(copy.task.infos.running_times.first_run_time_us, None);
    assert_eq!(parent.task.task_status, TaskStatus::Running);
    assert_eq!(m.current_task(), Some(0));
}

#[test]
fn exec_replaces_the_program() {
    let mut m = booted();
    sys_fork(&mut m, 7, kernel_cx(1));
    let args = vec!["cat".to_string(), "a".to_string(), "b".to_string()];
    assert_eq!(sys_exec(&mut m, None, SSTATUS, &args, 0x100), -1);
    assert_eq!(m.process(0).unwrap().token, 0x8000);
    assert_eq!(sys_exec(&mut m, Some(&image(4)), SSTATUS | 0x100, &args, 0x7f00), 3);
    let pcb = m.process(0).unwrap();
    assert_eq!(pcb.token, 0x8004);
    assert_eq!(pcb.heap_bottom, 0xa0000);
    assert_eq!(pcb.program_brk, 0xa0000);
    assert_eq!(pcb.children, vec![1]);
    assert_eq!(pcb.task.task_status, TaskStatus::Running);
    assert_eq!(pcb.task.trap_cx.sepc, 0x50000);
    assert_eq!(pcb.task.trap_cx.x[2], 0x7000_0004);
    assert_eq!(pcb.task.trap_cx.x[10], 3);
    assert_eq!(pcb.task.trap_cx.x[11], 0x7f00);
    assert_eq!(pcb.task.trap_cx.x[1], 0);
    assert_eq!(pcb.task.trap_cx.sstatus & 0x100, 0);
    assert_eq!(m.current_user_token(), 0x8004);
    assert_eq!(m.current_trap_cx().unwrap().sepc, 0x50000);
}

#[test]
fn exit_hands_children_to_the_first_process() {
    let mut m = booted();
    let mut detect = DeadlockDetect::new();
    assert_eq!(sys_fork(&mut m, 1, kernel_cx(1)), 1);
    let mut now = 20;
    while yield_at(&mut m, now) != 1 {
        now += 1;
    }
    trap(&mut m, now);
    assert_eq!(sys_fork(&mut m, 2, kernel_cx(2)), 2);
    assert_eq!(sys_fork(&mut m, 3, kernel_cx(3)), 3);
    enable(&mut detect, 1);
    assert_eq!(m.process(1).unwrap().children, vec![2, 3]);
    let next = sys_exit(&mut m, &mut detect, -5, now + 1);
    assert!(next.is_some());
    assert!(!detect.enabled(1));
    assert_eq!(m.process(0).unwrap().children, vec![1, 2, 3]);
    assert!(m.process(1).unwrap().children.is_empty());
    assert_eq!(m.process(1).unwrap().task.task_status, TaskStatus::Zombie);
    assert_eq!(m.process(1).unwrap().exit_code, -5);
}

#[test]
fn exit_of_the_last_task_leaves_nothing_to_run() {
    let mut m = booted();
    let mut detect = DeadlockDetect::new();
    assert_eq!(sys_exit(&mut m, &mut detect, 0, 11), None);
    assert_eq!(m.current_task(), None);
    assert_eq!(m.ready_count(), 0);
    assert!(m.process(0).unwrap().zombie());
    assert_eq!(m.run_tasks(12), None);
}

#[test]
fn block_and_wake() {
    let mut m = booted();
    sys_fork(&mut m, 1, kernel_cx(1));
    assert_eq!(m.block_current(12), 0);
    assert_eq!(m.current_task(), None);
    assert_eq!(m.process(0).unwrap().task.task_status, TaskStatus::Blocked);
    assert_eq!(m.ready_count(), 1);
    assert_eq!(m.run_tasks(13), Some(1));
    trap(&mut m, 14);
    // Only a blocked task is woken.
    assert!(!m.wakeup_task(1));
    assert!(!m.wakeup_task(9));
    assert!(m.wakeup_task(0));
    assert!(!m.wakeup_task(0));
    assert_eq!(m.process(0).unwrap().task.task_status, TaskStatus::Ready);
    assert_eq!(m.ready_count(), 1);
    // A blocked task is not dispatched.
    assert_eq!(m.block_current(15), 1);
    assert_eq!(m.run_tasks(16), Some(0));
    assert_eq!(m.suspend_current(17), 0);
    assert_eq!(m.run_tasks(18), Some(0));
}

#[test]
fn set_priority_range() {
    let mut m = booted();
    assert_eq!(sys_set_priority(&mut m, 2), 2);
    assert_eq!(m.process(0).unwrap().task.priority.0, 2);
    assert_eq!(sys_set_priority(&mut m, 1), -1);
    assert_eq!(sys_set_priority(&mut m, 0), -1);
    assert_eq!(sys_set_priority(&mut m, -7), -1);
    assert_eq!(sys_set_priority(&mut m, u32::MAX as isize + 1), -1);
    assert_eq!(m.process(0).unwrap().task.priority.0, 2);
    assert_eq!(sys_set_priority(&mut m, 1000), 1000);
    assert_eq!(m.process(0).unwrap().task.priority.0, 1000);
}

#[test]
fn sbrk_moves_the_break() {
    let mut m = booted();
    let bottom = m.process(0).unwrap().heap_bottom;
    assert_eq!(sys_sbrk(&mut m, 0), bottom as isize);
    assert_eq!(sys_sbrk(&mut m, 0x1000), bottom as isize);
    assert_eq!(m.process(0).unwrap().program_brk, bottom + 0x1000);
    assert_eq!(sys_sbrk(&mut m, -0x800), (bottom + 0x1000) as isize);
    assert_eq!(m.process(0).unwrap().program_brk, bottom + 0x800);
    assert_eq!(sys_sbrk(&mut m, -0x801), -1);
    assert_eq!(sys_sbrk(&mut m, i32::MIN), -1);
    assert_eq!(m.process(0).unwrap().program_brk, bottom + 0x800);
    assert_eq!(sys_sbrk(&mut m, -0x800), (bottom + 0x800) as isize);
    assert_eq!(m.process(0).unwrap().program_brk, bottom);
}

#[test]
fn mmap_arguments() {
    assert_eq!(sys_mmap(0x1000_0000, 4096, 0b011), 0);
    assert_eq!(sys_mmap(0x1000_0000, 1, 0b111), 0);
    assert_eq!(sys_mmap(0, 4096, 0b001), 0);
    assert_eq!(sys_mmap(0x1000_0001, 4096, 0b011), -1);
    assert_eq!(sys_mmap(0x1000_0000, 4096, 0), -1);
    assert_eq!(sys_mmap(0x1000_0000, 4096, 0b1000), -1);
    assert_eq!(sys_mmap(0x1000_0000, 4096, 0b1011), -1);
    assert_eq!(sys_munmap(0x1000_0000, 4096), 0);
    assert_eq!(sys_munmap(0x1000_0800, 4096), -1);
}

#[test]
fn get_time_splits_microseconds() {
    let mut ts = TimeVal { sec: 0, usec: 0 };
    assert_eq!(sys_get_time(&mut ts, 0, 3_000_123), 0);
    assert_eq!(ts, TimeVal { sec: 3, usec: 123 });
    assert_eq!(sys_get_time(&mut ts, 9, 999_999), 0);
    assert_eq!(ts, TimeVal { sec: 0, usec: 999_999 });
}

#[test]
fn syscalls_are_counted_and_decoded() {
    let mut m = booted();
    assert_eq!(syscall(&mut m, SYSCALL_YIELD, [0; 4]), Some(Syscall::Yield));
    assert_eq!(syscall(&mut m, SYSCALL_GETPID, [0; 4]), Some(Syscall::Getpid));
    assert_eq!(syscall(&mut m, SYSCALL_GETPID, [1, 2, 3, 4]), Some(Syscall::Getpid));
    assert_eq!(
        syscall(&mut m, SYSCALL_WRITE, [1, 0x2000, 17, 0]),
        Some(Syscall::Write { fd: 1, buf: 0x2000, len: 17 })
    );
    assert_eq!(
        syscall(&mut m, SYSCALL_EXIT, [(-3i32) as u32 as usize, 0, 0, 0]),
        Some(Syscall::Exit { exit_code: -3 })
    );
    assert_eq!(
        syscall(&mut m, SYSCALL_WAITPID, [usize::MAX, 0x3000, 0, 0]),
        Some(Syscall::Waitpid { pid: -1, exit_code_ptr: 0x3000 })
    );
    assert_eq!(
        syscall(&mut m, SYSCALL_SBRK, [(-4096i32) as u32 as usize, 0, 0, 0]),
        Some(Syscall::Sbrk { size: -4096 })
    );
    assert_eq!(syscall(&mut m, 1, [0; 4]), None);
    assert_eq!(syscall(&mut m, 100_000, [0; 4]), None);

    let mut info = TaskInfo { status: TaskStatus::UnInit, syscall_times: [9; 500], time: 0 };
    assert_eq!(sys_task_info(&m, &mut info, 5 + 12_345), 0);
    assert_eq!(info.status, TaskStatus::Running);
    assert_eq!(info.time, 12);
    assert_eq!(info.syscall_times[SYSCALL_YIELD], 1);
    assert_eq!(info.syscall_times[SYSCALL_GETPID], 2);
    assert_eq!(info.syscall_times[SYSCALL_WRITE], 1);
    assert_eq!(info.syscall_times[1], 1);
    assert_eq!(info.syscall_times[0], 0);
    assert_eq!(info.syscall_times.iter().map(|&n| n as usize).sum::<usize>(), 8);

    let (status, block) = m.current_task_info(4);
    assert_eq!(status, TaskStatus::Running);
    assert_eq!(block.running_times.real_time_us, 0);
    assert_eq!(block.running_times.user_time_us, 5);
}

#[test]
fn task_status_life_cycle() {
    let all = [
        TaskStatus::UnInit,
        TaskStatus::Ready,
        TaskStatus::Running,
        TaskStatus::Blocked,
        TaskStatus::Zombie,
    ];
    let steps = [
        (TaskStatus::UnInit, TaskStatus::Ready),
        (TaskStatus::Ready, TaskStatus::Running),
        (TaskStatus::Running, TaskStatus::Ready),
        (TaskStatus::Running, TaskStatus::Blocked),
        (TaskStatus::Running, TaskStatus::Zombie),
        (TaskStatus::Blocked, TaskStatus::Ready),
        (TaskStatus::Blocked, TaskStatus::Zombie),
    ];
    for a in all {
        for b in all {
            assert_eq!(a.may_become(b), steps.contains(&(a, b)));
        }
    }
}

#[test]
fn contexts_are_saved_and_loaded() {
    let mut m = TaskManager::new();
    m.spawn(&image(0), kernel_cx(0), SSTATUS);
    // The processor runs the idle control flow.
    let idle = TaskContext { ra: 0x1111, sp: 0x2222, s: [7; 12] };
    let mut registers = idle;
    assert_eq!(m.run_tasks(5), Some(0));
    m.switch_to_current(&mut registers);
    assert_eq!(registers, kernel_cx(0));
    assert_eq!(m.processor_state().idle_task_cx, idle);
    // The task runs on, then yields: its registers are kept for its return.
    registers.ra = 0x3333;
    registers.s[4] = 44;
    let running = registers;
    trap(&mut m, 10);
    let pid = m.suspend_current(12);
    m.schedule(pid, &mut registers);
    assert_eq!(registers, idle);
    assert_eq!(m.process(0).unwrap().task.task_cx, running);
    assert_eq!(m.process(0).unwrap().task.task_status, TaskStatus::Ready);
    assert_eq!(m.run_tasks(13), Some(0));
    m.switch_to_current(&mut registers);
    assert_eq!(registers, running);
}

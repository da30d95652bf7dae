use oskernel::syscall::process::{
    check_sigaction_error, sys_fork, sys_kill, sys_sigaction, sys_sigprocmask, sys_sigreturn,
};
use oskernel::task::context::TaskContext;
use oskernel::task::manager::TaskManager;
use oskernel::task::signal::{SignalAction, SignalActions, SignalFlags};
use oskernel::task::task::{ProgramImage, TaskStatus};

fn image() -> ProgramImage {
    ProgramImage { token: 1, entry_point: 0x1000, user_sp: 0x8000, heap_bottom: 0x4000 }
}

fn cx() -> TaskContext {
    TaskContext::goto(0x40, 0x80)
}

/// A manager with `n` processes, of which process 0 runs and is in the kernel.
fn signalled(n: usize) -> TaskManager {
    let mut m = TaskManager::new();
    m.spawn(&image(), cx(), 0);
    assert_eq!(m.run_tasks(1), Some(0));
    m.user_timer_stop(1);
    m.kernel_timer_start(1);
    for i in 1..n {
        assert_eq!(sys_fork(&mut m, i, cx()), i as isize);
    }
    m
}

#[test]
fn kill_sets_a_pending_signal() {
    let mut m = signalled(2);
    assert_eq!(sys_kill(&mut m, 1, 2), 0);
    assert_eq!(m.process(1).unwrap().task.signals, SignalFlags { bits: 1 << 2 });
    assert_eq!(sys_kill(&mut m, 1, 2), -1);
    assert_eq!(sys_kill(&mut m, 1, 31), 0);
    assert_eq!(sys_kill(&mut m, 1, 0), 0);
    assert_eq!(m.process(1).unwrap().task.signals.bits(), (1 << 31) | (1 << 2) | 1);
    assert_eq!(sys_kill(&mut m, 1, 32), -1);
    assert_eq!(sys_kill(&mut m, 1, -1), -1);
    assert_eq!(sys_kill(&mut m, 7, 2), -1);
    assert_eq!(sys_kill(&mut m, 0, 9), 0);
    assert_eq!(m.process(0).unwrap().task.signals.bits(), 1 << 9);
    assert_eq!(m.process(0).unwrap().task.task_status, TaskStatus::Running);
}

#[test]
fn sigprocmask_returns_the_old_mask() {
    let mut m = signalled(1);
    assert_eq!(sys_sigprocmask(&mut m, 0b1010), 0);
    assert_eq!(sys_sigprocmask(&mut m, 0b0001), 0b1010);
    assert_eq!(m.process(0).unwrap().task.signal_mask.bits(), 1);
    // A child takes over the mask and the actions, not the pending signals.
    sys_kill(&mut m, 0, 4);
    let mut old = SignalAction::new();
    let action = SignalAction { handler: 0x5000, mask: SignalFlags { bits: 3 } };
    assert_eq!(sys_sigaction(&mut m, 4, 0x100, &action, 0x200, &mut old), 0);
    let child = sys_fork(&mut m, 2, cx()) as usize;
    let copy = m.process(child).unwrap().task;
    assert_eq!(copy.signal_mask.bits(), 1);
    assert_eq!(copy.signals.bits(), 0);
    assert_eq!(copy.signal_actions.table[4], action);
    assert_eq!(copy.handling_sig, -1);
}

#[test]
fn sigaction_swaps_actions() {
    let mut m = signalled(1);
    let first = SignalAction { handler: 0x5000, mask: SignalFlags { bits: 3 } };
    let second = SignalAction { handler: 0x6000, mask: SignalFlags { bits: 0 } };
    let mut old = first;
    assert_eq!(sys_sigaction(&mut m, 10, 0x100, &first, 0x200, &mut old), 0);
    assert_eq!(old, SignalAction::new());
    assert_eq!(old, SignalAction { handler: 0, mask: SignalFlags { bits: 40 } });
    assert_eq!(sys_sigaction(&mut m, 10, 0x100, &second, 0x200, &mut old), 0);
    assert_eq!(old, first);
    assert_eq!(m.process(0).unwrap().task.signal_actions.table[10], second);
    assert_eq!(m.process(0).unwrap().task.signal_actions.table[11], SignalAction::new());
    for (signum, action_ptr, old_ptr) in
        [(32, 1, 1), (-1, 1, 1), (9, 1, 1), (19, 1, 1), (10, 0, 1), (10, 1, 0), (i32::MAX, 1, 1)]
    {
        let mut kept = first;
        assert_eq!(sys_sigaction(&mut m, signum, action_ptr, &first, old_ptr, &mut kept), -1);
        assert_eq!(kept, first);
    }
    assert_eq!(m.process(0).unwrap().task.signal_actions.table[10], second);
    assert_eq!(sys_sigaction(&mut m, 0, 1, &first, 1, &mut old), 0);
    assert_eq!(sys_sigaction(&mut m, 31, 1, &first, 1, &mut old), 0);
    assert!(check_sigaction_error(SignalFlags { bits: 1 << 9 }, 1, 1));
    assert!(check_sigaction_error(SignalFlags { bits: 1 << 19 }, 1, 1));
    assert!(check_sigaction_error(SignalFlags { bits: 1 << 3 }, 0, 1));
    assert!(check_sigaction_error(SignalFlags { bits: 1 << 3 }, 1, 0));
    assert!(!check_sigaction_error(SignalFlags { bits: 1 << 3 }, 1, 1));
    assert_eq!(SignalActions::new().table[31], SignalAction::new());
    assert_eq!(SignalFlags::from_bits(u32::MAX), Some(SignalFlags { bits: u32::MAX }));
    assert_eq!(SignalFlags::of_signal(5), Some(SignalFlags { bits: 32 }));
    assert_eq!(SignalFlags::of_signal(32), None);
    assert_eq!(SignalFlags::empty().bits(), 0);
}

#[test]
fn sigreturn_needs_kept_registers() {
    let mut m = signalled(1);
    assert_eq!(sys_sigreturn(&mut m), -1);
    assert_eq!(m.process(0).unwrap().task.handling_sig, -1);
}


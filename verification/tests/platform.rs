use oskernel::config::{CLOCK_FREQ, MAX_SYSCALL_NUM, PAGE_SIZE};
use oskernel::fs::file_status::{FileStatus, Stat, StatMode};
use oskernel::task::context::{switch, TaskContext};
use oskernel::task::processor::Processor;
use oskernel::task::task::TaskInfoBlock;
use oskernel::timer::{get_time_ms, get_time_us, set_next_trigger};
use oskernel::syscall::checker::{SyscallChecker, SyscallCheckerState};
use oskernel::syscall::{SYSCALL_EXIT, SYSCALL_GETPID, SYSCALL_WRITE, SYSCALL_YIELD};
use oskernel::trap::context::{register_number, TrapContext};
use oskernel::util::UserSpacePtr;

#[test]
fn ticks_to_time() {
    assert_eq!(get_time_us(0), 0);
    assert_eq!(get_time_us(CLOCK_FREQ), 1_000_000);
    assert_eq!(get_time_us(25), 2);
    assert_eq!(get_time_us(24), 1);
    assert_eq!(get_time_ms(CLOCK_FREQ), 1000);
    assert_eq!(get_time_ms(12_499), 0);
    assert_eq!(get_time_ms(12_500), 1);
    assert_eq!(get_time_us(usize::MAX), (usize::MAX as u128 * 2 / 25) as usize);
    assert_eq!(get_time_ms(usize::MAX), usize::MAX / 12_500);
}

#[test]
fn next_trigger_is_ten_milliseconds_on() {
    assert_eq!(set_next_trigger(0), Some(125_000));
    assert_eq!(set_next_trigger(1_000), Some(126_000));
    assert_eq!(set_next_trigger(usize::MAX - 125_000), Some(usize::MAX));
    assert_eq!(set_next_trigger(usize::MAX - 124_999), None);
}

#[test]
fn constants() {
    assert_eq!(PAGE_SIZE, 4096);
    assert_eq!(MAX_SYSCALL_NUM, 500);
}

#[test]
fn app_init_context_is_for_user_mode() {
    let cx = TrapContext::app_init_context(0x1_0000, 0x8_0000, 0x8000_0003_000d_e762);
    assert_eq!(cx.sepc, 0x1_0000);
    assert_eq!(cx.x[2], 0x8_0000);
    for (i, &x) in cx.x.iter().enumerate() {
        if i != 2 {
            assert_eq!(x, 0);
        }
    }
    assert_eq!(cx.sstatus, 0x8000_0003_000d_e662);
    // Bits outside the register's mask are dropped, the others kept.
    let cx = TrapContext::app_init_context(0, 0, usize::MAX);
    assert_eq!(cx.sstatus, 0x8000_0003_000d_e662);
    let cx = TrapContext::app_init_context(0, 0, 0x100);
    assert_eq!(cx.sstatus, 0);
    let cx = TrapContext::app_init_context(0, 0, 0x22);
    assert_eq!(cx.sstatus, 0x22);
}

#[test]
fn set_sp_writes_x2() {
    let mut cx = TrapContext::app_init_context(1, 2, 0);
    cx.set_sp(77);
    assert_eq!(cx.x[2], 77);
    assert_eq!(cx.sepc, 1);
    assert_eq!(cx.x[1], 0);
}

#[test]
fn context_switch_saves_and_loads() {
    let mut registers = TaskContext { ra: 1, sp: 2, s: [3; 12] };
    let mut current = TaskContext::zero_init();
    let next = TaskContext::goto(0x40, 0x80);
    switch(&mut registers, &mut current, &next);
    assert_eq!(current, TaskContext { ra: 1, sp: 2, s: [3; 12] });
    assert_eq!(registers, next);
    assert_eq!(next, TaskContext { ra: 0x40, sp: 0x80, s: [0; 12] });
    // Switching back restores the first flow.
    let mut other = TaskContext::zero_init();
    let saved = current;
    switch(&mut registers, &mut other, &saved);
    assert_eq!(registers, TaskContext { ra: 1, sp: 2, s: [3; 12] });
    assert_eq!(other, next);
}

#[test]
fn processor_timers() {
    let mut p = Processor::new();
    assert_eq!(p.current(), None);
    p.user_timer_start(100);
    assert_eq!(p.user_timer_us, Some(100));
    assert_eq!(p.user_timer_stop(130), 30);
    assert_eq!(p.user_timer_us, None);
    p.kernel_timer_start(130);
    assert_eq!(p.kernel_timer_stop(130), 0);
    assert_eq!(p.kernel_timer_us, None);
    p.current = Some(4);
    assert_eq!(p.take_current(), Some(4));
    assert_eq!(p.take_current(), None);
}

#[test]
fn task_info_block_counts() {
    let mut info = TaskInfoBlock::new();
    assert!(info.syscall_times.iter().all(|&n| n == 0));
    info.update_syscall_times(64);
    info.update_syscall_times(64);
    info.update_syscall_times(499);
    info.update_syscall_times(500);
    info.update_syscall_times(usize::MAX);
    assert_eq!(info.syscall_times[64], 2);
    assert_eq!(info.syscall_times[499], 1);
    assert_eq!(info.syscall_times.iter().map(|&n| n as usize).sum::<usize>(), 3);
    assert_eq!(TaskInfoBlock::default(), TaskInfoBlock::new());
}

#[test]
fn stat_of_file_status() {
    let status = FileStatus { inumber: 12, mode: StatMode::file(), num_links: 3 };
    let stat = Stat::from(status);
    assert_eq!(stat.dev, 0);
    assert_eq!(stat.ino, 12);
    assert_eq!(stat.mode, StatMode { bits: 0o100000 });
    assert_eq!(stat.nlink, 3);
    assert_eq!(stat.pad, [0; 7]);
    assert!(StatMode::dir().contains(StatMode::null()));
    assert!(!StatMode::dir().contains(StatMode::file()));
    assert!(StatMode { bits: 0o140000 }.contains(StatMode::dir()));
}

#[test]
fn register_names() {
    let roles: [&[u8]; 32] = [
        b"zero", b"ra", b"sp", b"gp", b"tp", b"t0", b"t1", b"t2", b"s0", b"s1", b"a0", b"a1",
        b"a2", b"a3", b"a4", b"a5", b"a6", b"a7", b"s2", b"s3", b"s4", b"s5", b"s6", b"s7", b"s8",
        b"s9", b"s10", b"s11", b"t3", b"t4", b"t5", b"t6",
    ];
    let mut cx = TrapContext::app_init_context(0, 0, 0);
    for i in 0..32 {
        cx.x[i] = 1000 + i;
    }
    for (i, role) in roles.iter().enumerate() {
        assert_eq!(register_number(role), Some(i));
        assert_eq!(cx.gpr(role), 1000 + i);
        let numbered = format!("x{}", i);
        assert_eq!(register_number(numbered.as_bytes()), Some(i));
        assert_eq!(cx.gpr(numbered.as_bytes()), 1000 + i);
    }
    assert_eq!(register_number(b"fp"), Some(8));
    assert_eq!(cx.gpr(b"fp"), 1008);
    for bad in [
        &b""[..], b"x", b"x32", b"x00", b"x01", b"x100", b"t7", b"s12", b"a8", b"s", b"zer",
        b"zero0", b"X1", b"pc", b"t-1", b"a 1", b"x1 ", b"ra0", b"sp2", b"b0", b"x3a",
    ] {
        assert_eq!(register_number(bad), None, "{:?}", bad);
    }
}

#[test]
fn write_fills_the_buffers_in_order() {
    let val: Vec<u8> = (0..10).collect();
    let mut buffers = vec![vec![0u8; 3], vec![0u8; 0], vec![0u8; 5], vec![0u8; 2]];
    assert!(UserSpacePtr::fits(&val, &buffers));
    let ptr = UserSpacePtr::from(0x1ffd);
    assert_eq!(ptr.addr, 0x1ffd);
    ptr.write(&val, &mut buffers);
    assert_eq!(buffers, vec![vec![0, 1, 2], vec![], vec![3, 4, 5, 6, 7], vec![8, 9]]);
    assert!(!UserSpacePtr::fits(&val[..9], &buffers));
    assert!(!UserSpacePtr::fits(&val, &buffers[..3].to_vec()));
    let mut none: Vec<Vec<u8>> = Vec::new();
    assert!(UserSpacePtr::fits(&[], &none));
    ptr.write(&[], &mut none);
    assert!(none.is_empty());
}

#[test]
fn checker_counts_calls() {
    let mut state = SyscallCheckerState::new();
    assert!(state.is_quiet());
    let write = SyscallChecker::new(&mut state, SYSCALL_WRITE, [1, 2, 3, 0]);
    assert_eq!(write.syscall_id, SYSCALL_WRITE);
    assert_eq!(write.args, [1, 2, 3, 0]);
    assert_eq!(state.count(SYSCALL_WRITE), 1);
    assert!(!state.is_quiet());
    let getpid = SyscallChecker { syscall_id: SYSCALL_GETPID, args: [0; 4] };
    assert!(!getpid.can_finalize(&state));
    assert!(write.can_finalize(&state));
    write.finalize(&mut state);
    assert_eq!(state.count(SYSCALL_WRITE), 0);
    assert!(state.is_quiet());
    assert!(!write.can_finalize(&state));
    // A task yields; another task calls while the yield has not returned.
    let yielding = SyscallChecker::new(&mut state, SYSCALL_YIELD, [0; 4]);
    assert!(state.is_quiet());
    let other = SyscallChecker::new(&mut state, SYSCALL_GETPID, [0; 4]);
    assert!(!yielding.can_finalize(&state));
    other.finalize(&mut state);
    let exiting = SyscallChecker::new(&mut state, SYSCALL_EXIT, [0; 4]);
    assert_eq!(exiting.syscall_id, SYSCALL_EXIT);
    assert!(yielding.can_finalize(&state));
    yielding.finalize(&mut state);
    assert_eq!(state.count(SYSCALL_YIELD), 0);
    assert_eq!(state.count(SYSCALL_EXIT), 1);
    assert!(state.is_quiet());
}


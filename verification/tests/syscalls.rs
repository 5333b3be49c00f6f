use os_core::context::ExecutableImage;
use os_core::manager::TaskManager;
use os_core::syscall::{
    sys_exec, sys_exit, sys_fork, sys_getpid, sys_set_priority, sys_spawn, sys_waitpid,
    sys_yield, syscall, syscall_need, to_exit_code, to_register, to_signed, Need, Supplies,
    SyscallOutcome, FAILURE, STILL_RUNNING, SYSCALL_EXEC, SYSCALL_EXIT, SYSCALL_FORK,
    SYSCALL_GETPID, SYSCALL_SET_PRIORITY, SYSCALL_SPAWN, SYSCALL_WAITPID, SYSCALL_YIELD,
};
use os_core::task::TaskState;

const NOTHING: Supplies = Supplies { space: None, image: None };

fn kernel(pid_limit: usize) -> TaskManager {
    let image = ExecutableImage { address_space: 100, entry: 0x1_0000, user_sp: 0x8_0000 };
    let mut m = TaskManager::create_root(image, pid_limit);
    m.run_next();
    m
}

fn switch_to(m: &mut TaskManager, pid: usize) {
    for _ in 0..64 {
        if m.current() == Some(pid) {
            return;
        }
        m.run_next();
    }
    panic!("task {} never ran", pid);
}

#[test]
fn machine_words_convert_in_twos_complement() {
    assert_eq!(to_signed(0), 0);
    assert_eq!(to_signed(5), 5);
    assert_eq!(to_signed(isize::MAX as usize), isize::MAX);
    assert_eq!(to_signed(usize::MAX), -1);
    assert_eq!(to_signed(usize::MAX - 1), -2);
    assert_eq!(to_signed(isize::MAX as usize + 1), isize::MIN);
    assert_eq!(to_register(0), 0);
    assert_eq!(to_register(7), 7);
    assert_eq!(to_register(-1), usize::MAX);
    assert_eq!(to_register(-2), usize::MAX - 1);
    assert_eq!(to_register(isize::MIN), isize::MAX as usize + 1);
    assert_eq!(to_register(isize::MAX), isize::MAX as usize);
    for v in [-5isize, 0, 1, 99, isize::MIN, isize::MAX] {
        assert_eq!(to_signed(to_register(v)), v);
    }
}

#[test]
fn exit_codes_are_the_low_half_of_the_word() {
    assert_eq!(to_exit_code(0), 0);
    assert_eq!(to_exit_code(7), 7);
    assert_eq!(to_exit_code(0x7FFF_FFFF), i32::MAX);
    assert_eq!(to_exit_code(0x8000_0000), i32::MIN);
    assert_eq!(to_exit_code(0xFFFF_FFFF), -1);
    assert_eq!(to_exit_code(usize::MAX), -1);
    assert_eq!(to_exit_code(usize::MAX - 2), -3);
    assert_eq!(to_exit_code(0x1_0000_0009), 9);
}

#[test]
fn only_fork_exec_and_spawn_need_something() {
    assert_eq!(syscall_need(SYSCALL_FORK), Need::Space);
    assert_eq!(syscall_need(SYSCALL_EXEC), Need::Image);
    assert_eq!(syscall_need(SYSCALL_SPAWN), Need::SpaceAndImage);
    for id in [SYSCALL_EXIT, SYSCALL_YIELD, SYSCALL_GETPID, SYSCALL_WAITPID, SYSCALL_SET_PRIORITY, 0, 1, 9999]
    {
        assert_eq!(syscall_need(id), Need::Nothing);
    }
    assert_eq!(
        (SYSCALL_EXIT, SYSCALL_YIELD, SYSCALL_SET_PRIORITY, SYSCALL_GETPID),
        (93, 124, 140, 172)
    );
    assert_eq!((SYSCALL_FORK, SYSCALL_EXEC, SYSCALL_WAITPID, SYSCALL_SPAWN), (220, 221, 260, 400));
}

#[test]
fn getpid_returns_the_pid_of_the_caller() {
    let mut m = kernel(8);
    assert_eq!(sys_getpid(&m), 0);
    assert_eq!(sys_fork(&mut m, Some(201)), 1);
    assert_eq!(sys_fork(&mut m, Some(202)), 2);
    switch_to(&mut m, 2);
    assert_eq!(sys_getpid(&m), 2);
    switch_to(&mut m, 1);
    assert_eq!(sys_getpid(&m), 1);
}

#[test]
fn yield_returns_zero_and_lets_the_next_task_run() {
    let mut m = kernel(8);
    assert_eq!(sys_fork(&mut m, Some(201)), 1);
    assert_eq!(sys_yield(&mut m), 0);
    assert_eq!(m.current(), Some(1));
    assert_eq!(m.ready, vec![0]);
    assert_eq!(m.task(0).state, TaskState::Ready);
}

#[test]
fn fork_returns_the_pid_of_the_child_or_a_failure() {
    let mut m = kernel(3);
    assert_eq!(sys_fork(&mut m, Some(201)), 1);
    assert_eq!(sys_fork(&mut m, None), FAILURE);
    assert_eq!(sys_fork(&mut m, Some(202)), 2);
    assert_eq!(sys_fork(&mut m, Some(203)), -1);
    assert_eq!(m.retired, vec![203]);
    assert_eq!(m.tasks.len(), 3);
}

#[test]
fn exec_returns_zero_or_minus_one() {
    let mut m = kernel(8);
    let before = format!("{:?}", m);
    assert_eq!(sys_exec(&mut m, None), -1);
    assert_eq!(format!("{:?}", m), before);
    let img = ExecutableImage { address_space: 300, entry: 0x5000, user_sp: 0x6000 };
    assert_eq!(sys_exec(&mut m, Some(img)), 0);
    assert_eq!(m.task(0).address_space, 300);
    assert_eq!(m.task(0).context.sepc, 0x5000);
    assert_eq!(m.task(0).pid, 0);
}

#[test]
fn spawn_returns_the_pid_of_the_child_and_keeps_the_parent() {
    let mut m = kernel(8);
    let img = ExecutableImage { address_space: 300, entry: 0x5000, user_sp: 0x6000 };
    let parent_context = m.task(0).context;
    assert_eq!(sys_spawn(&mut m, Some(201), Some(img)), 1);
    assert_eq!(m.task(0).address_space, 100);
    assert_eq!(m.task(0).context, parent_context);
    assert_eq!(m.current(), Some(0));
    assert_eq!(m.task(1).context.sepc, 0x5000);
    assert_eq!(m.task(1).address_space, 300);
    assert_eq!(sys_spawn(&mut m, None, Some(img)), FAILURE);
    assert_eq!(sys_spawn(&mut m, Some(202), None), 2);
    assert_eq!(m.task(2).state, TaskState::Zombie(-1));
}

#[test]
fn waitpid_collects_two_children_in_the_order_they_ended() {
    let mut m = kernel(8);
    let first = sys_fork(&mut m, Some(201));
    let second = sys_fork(&mut m, Some(202));
    assert_eq!((first, second), (1, 2));
    switch_to(&mut m, 1);
    sys_exit(&mut m, 7);
    switch_to(&mut m, 2);
    sys_exit(&mut m, 9);
    assert_eq!(m.current(), Some(0));

    let mut code: i32 = 0;
    assert_eq!(sys_waitpid(&mut m, -1, &mut code), 1);
    assert_eq!(code, 7);
    assert_eq!(sys_waitpid(&mut m, -1, &mut code), 2);
    assert_eq!(code, 9);
    code = 55;
    assert_eq!(sys_waitpid(&mut m, -1, &mut code), -1);
    assert_eq!(code, 55);
    assert!(m.task(0).children.is_empty());
    assert_eq!(m.retired, vec![201, 202]);
}

#[test]
fn waitpid_on_a_live_child_is_still_running_and_changes_nothing() {
    let mut m = kernel(8);
    assert_eq!(sys_fork(&mut m, Some(201)), 1);
    let before = format!("{:?}", m);
    let mut code: i32 = 1234;
    assert_eq!(sys_waitpid(&mut m, 1, &mut code), STILL_RUNNING);
    assert_eq!(STILL_RUNNING, -2);
    assert_eq!(code, 1234);
    assert_eq!(format!("{:?}", m), before);
    assert_eq!(sys_waitpid(&mut m, -1, &mut code), -2);
    assert_eq!(sys_waitpid(&mut m, 5, &mut code), -1);
    assert_eq!(sys_waitpid(&mut m, -7, &mut code), -1);
    assert_eq!(code, 1234);
    assert_eq!(format!("{:?}", m), before);
}

#[test]
fn set_priority_returns_the_priority_or_minus_one() {
    let mut m = kernel(8);
    let stride = m.task(0).stride;
    assert_eq!(sys_set_priority(&mut m, 1), -1);
    assert_eq!(sys_set_priority(&mut m, isize::MAX as usize + 1), -1);
    assert_eq!(sys_set_priority(&mut m, 0), -1);
    assert_eq!(m.task(0).priority, 16);
    assert_eq!(m.task(0).stride, stride);
    assert_eq!(sys_set_priority(&mut m, 2), 2);
    assert_eq!(m.task(0).priority, 2);
    assert_eq!(m.task(0).stride, stride);
    assert_eq!(sys_set_priority(&mut m, isize::MAX as usize), isize::MAX);
    assert_eq!(m.task(0).priority, isize::MAX as usize);
}

#[test]
fn exit_makes_the_caller_a_zombie() {
    let mut m = kernel(8);
    assert_eq!(sys_fork(&mut m, Some(201)), 1);
    sys_exit(&mut m, -5);
    assert_eq!(m.task(0).state, TaskState::Zombie(-5));
    assert_eq!(m.current(), Some(1));
}

#[test]
fn the_table_leads_from_numbers_to_handlers() {
    let mut m = kernel(8);
    assert_eq!(syscall(&mut m, SYSCALL_GETPID, [0, 0, 0], NOTHING), SyscallOutcome::Returned(0));
    let with_space = Supplies { space: Some(201), image: None };
    assert_eq!(syscall(&mut m, SYSCALL_FORK, [0, 0, 0], with_space), SyscallOutcome::Returned(1));
    assert_eq!(syscall(&mut m, SYSCALL_FORK, [0, 0, 0], NOTHING), SyscallOutcome::Returned(-1));
    assert_eq!(
        syscall(&mut m, SYSCALL_SET_PRIORITY, [40, 0, 0], NOTHING),
        SyscallOutcome::Returned(40)
    );
    assert_eq!(
        syscall(&mut m, SYSCALL_SET_PRIORITY, [1, 0, 0], NOTHING),
        SyscallOutcome::Returned(-1)
    );
    assert_eq!(
        syscall(&mut m, SYSCALL_WAITPID, [1, 0x7000, 0], NOTHING),
        SyscallOutcome::Returned(-2)
    );
    assert_eq!(
        syscall(&mut m, SYSCALL_WAITPID, [usize::MAX, 0x7000, 0], NOTHING),
        SyscallOutcome::Returned(-2)
    );
    assert_eq!(
        syscall(&mut m, SYSCALL_WAITPID, [3, 0x7000, 0], NOTHING),
        SyscallOutcome::Returned(-1)
    );
    assert_eq!(syscall(&mut m, SYSCALL_EXEC, [0x7000, 0, 0], NOTHING), SyscallOutcome::Returned(-1));
    assert_eq!(syscall(&mut m, SYSCALL_YIELD, [0, 0, 0], NOTHING), SyscallOutcome::Returned(0));
    assert_eq!(m.current(), Some(1));
    assert_eq!(
        syscall(&mut m, SYSCALL_EXIT, [usize::MAX - 1, 0, 0], NOTHING),
        SyscallOutcome::Exited(-2)
    );
    assert_eq!(m.task(1).state, TaskState::Zombie(-2));
    assert_eq!(m.current(), Some(0));
    assert_eq!(
        syscall(&mut m, SYSCALL_WAITPID, [usize::MAX, 0x7000, 0], NOTHING),
        SyscallOutcome::Collected { pid: 1, exit_code: -2 }
    );
    let img = ExecutableImage { address_space: 300, entry: 0x5000, user_sp: 0x6000 };
    let both = Supplies { space: Some(202), image: Some(img) };
    assert_eq!(syscall(&mut m, SYSCALL_SPAWN, [0x7000, 0, 0], both), SyscallOutcome::Returned(2));
    assert_eq!(m.task(2).address_space, 300);
}

#[test]
fn an_unknown_call_number_fails() {
    let mut m = kernel(8);
    let before = format!("{:?}", m);
    assert_eq!(syscall(&mut m, 0, [1, 2, 3], NOTHING), SyscallOutcome::Returned(-1));
    assert_eq!(syscall(&mut m, 64, [1, 2, 3], NOTHING), SyscallOutcome::Returned(-1));
    assert_eq!(syscall(&mut m, usize::MAX, [1, 2, 3], NOTHING), SyscallOutcome::Returned(-1));
    assert_eq!(format!("{:?}", m), before);
}

#[test]
fn supplies_that_a_call_does_not_need_are_retired() {
    let mut m = kernel(8);
    let img = ExecutableImage { address_space: 300, entry: 0x5000, user_sp: 0x6000 };
    let both = Supplies { space: Some(201), image: Some(img) };
    assert_eq!(syscall(&mut m, SYSCALL_GETPID, [0, 0, 0], both), SyscallOutcome::Returned(0));
    assert_eq!(m.retired, vec![201, 300]);
    m.take_retired();
    assert_eq!(syscall(&mut m, SYSCALL_FORK, [0, 0, 0], both), SyscallOutcome::Returned(1));
    assert_eq!(m.retired, vec![300]);
    assert_eq!(m.task(1).address_space, 201);
    m.take_retired();
    assert_eq!(syscall(&mut m, SYSCALL_EXEC, [0, 0, 0], both), SyscallOutcome::Returned(0));
    assert_eq!(m.retired, vec![201, 100]);
    assert_eq!(m.task(0).address_space, 300);
}

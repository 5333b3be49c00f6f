use os_core::context::{ExecutableImage, TrapContext, RETURN_REG, STACK_REG};
use os_core::manager::TaskManager;
use os_core::process::{ExecError, ForkError, ReapOutcome, ANY_CHILD, EXEC_FAILED};
use os_core::task::{Task, TaskState, DEFAULT_PRIORITY, ROOT_PID};

fn image(space: usize) -> ExecutableImage {
    ExecutableImage { address_space: space, entry: 0x1_0000, user_sp: 0x8_0000 }
}

/// A table whose root task runs.
fn running_root(pid_limit: usize) -> TaskManager {
    let mut m = TaskManager::create_root(image(100), pid_limit);
    m.run_next();
    assert_eq!(m.current(), Some(ROOT_PID));
    m
}

fn state_of(m: &TaskManager, pid: usize) -> TaskState {
    m.task(pid).state
}

#[test]
fn root_task_is_ready_with_default_priority() {
    let m = TaskManager::create_root(image(11), 64);
    assert_eq!(m.tasks.len(), 1);
    let root: &Task = m.task(ROOT_PID);
    assert_eq!(root.getpid(), 0);
    assert_eq!(root.state, TaskState::Ready);
    assert_eq!(root.priority, DEFAULT_PRIORITY);
    assert_eq!(root.priority, 16);
    assert_eq!(root.stride, 0);
    assert_eq!(root.remainder, 0);
    assert_eq!(root.address_space, 11);
    assert_eq!(root.parent, None);
    assert!(root.children.is_empty());
    assert_eq!(root.context.sepc, 0x1_0000);
    assert_eq!(root.context.x[STACK_REG], 0x8_0000);
    assert_eq!(root.context.sstatus, 0);
    assert_eq!(m.ready, vec![0]);
    assert_eq!(m.current(), None);
    assert!(m.retired.is_empty());
    assert!(m.is_live(0));
    assert!(!m.is_live(1));
}

#[test]
fn initial_context_is_zero_but_for_stack_and_entry() {
    let cx = TrapContext::app_init_context(0x4000, 0x9000);
    for (i, reg) in cx.x.iter().enumerate() {
        if i == STACK_REG {
            assert_eq!(*reg, 0x9000);
        } else {
            assert_eq!(*reg, 0);
        }
    }
    assert_eq!(cx.sepc, 0x4000);
    assert_eq!(cx.sstatus, 0);
}

#[test]
fn skip_call_moves_the_program_counter_by_four_and_wraps() {
    let mut cx = TrapContext::app_init_context(0x4000, 0x9000);
    cx.skip_call();
    assert_eq!(cx.sepc, 0x4004);
    cx.sepc = usize::MAX - 1;
    cx.skip_call();
    assert_eq!(cx.sepc, 2);
}

#[test]
fn fork_duplicates_the_parent_and_zeroes_the_child_return_register() {
    let mut m = running_root(64);
    let mut cx = m.task(0).context;
    cx.set_reg(RETURN_REG, 77);
    cx.set_reg(5, 1234);
    cx.sepc = 0x2222;
    m.save_context(cx);

    let r = m.fork(Some(200));
    assert_eq!(r, Ok(1));
    assert_eq!(m.tasks.len(), 2);
    let child = m.task(1);
    assert_eq!(child.pid, 1);
    assert_eq!(child.state, TaskState::Ready);
    assert_eq!(child.priority, DEFAULT_PRIORITY);
    assert_eq!(child.stride, 0);
    assert_eq!(child.remainder, 0);
    assert_eq!(child.address_space, 200);
    assert_eq!(child.parent, Some(0));
    assert!(child.children.is_empty());
    assert_eq!(child.context.x[RETURN_REG], 0);
    assert_eq!(child.context.x[5], 1234);
    assert_eq!(child.context.sepc, 0x2222);
    let parent = m.task(0);
    assert_eq!(parent.children, vec![1]);
    assert_eq!(parent.context.x[RETURN_REG], 77);
    assert_eq!(parent.address_space, 100);
    assert_eq!(parent.state, TaskState::Running);
    assert_eq!(m.ready, vec![1]);
    assert_eq!(m.current(), Some(0));
}

#[test]
fn forks_issue_pairwise_distinct_pids() {
    let mut m = running_root(64);
    let mut pids = vec![0usize];
    for i in 0..20 {
        let pid = m.fork(Some(1000 + i)).unwrap();
        assert!(!pids.contains(&pid));
        pids.push(pid);
    }
    assert_eq!(pids, (0..=20).collect::<Vec<usize>>());
    for (slot, task) in m.tasks.iter().enumerate() {
        assert_eq!(task.as_ref().unwrap().pid, slot);
    }
}

#[test]
fn pids_are_not_issued_again_after_a_reap() {
    let mut m = running_root(64);
    assert_eq!(m.fork(Some(201)), Ok(1));
    m.run_next();
    assert_eq!(m.current(), Some(1));
    m.exit(3);
    assert_eq!(m.current(), Some(0));
    assert_eq!(m.reap(1), ReapOutcome::Reaped { pid: 1, exit_code: 3 });
    assert!(!m.is_live(1));
    assert_eq!(m.fork(Some(202)), Ok(2));
}

#[test]
fn fork_fails_when_no_pid_is_left_and_retires_the_space() {
    let mut m = running_root(2);
    assert_eq!(m.fork(Some(201)), Ok(1));
    assert_eq!(m.fork(Some(202)), Err(ForkError::PidsExhausted));
    assert_eq!(m.tasks.len(), 2);
    assert_eq!(m.retired, vec![202]);
    assert_eq!(m.fork(None), Err(ForkError::PidsExhausted));
    assert_eq!(m.retired, vec![202]);
    assert_eq!(m.task(0).children, vec![1]);
}

#[test]
fn fork_fails_when_no_address_space_is_left() {
    let mut m = running_root(8);
    assert_eq!(m.fork(None), Err(ForkError::SpaceExhausted));
    assert_eq!(m.tasks.len(), 1);
    assert!(m.retired.is_empty());
    assert!(m.task(0).children.is_empty());
    assert!(m.ready.is_empty());
}

#[test]
fn exec_replaces_space_and_context_and_keeps_pid_and_priority() {
    let mut m = running_root(8);
    assert!(m.set_priority(5));
    assert_eq!(m.fork(Some(201)), Ok(1));
    let stride = m.task(0).stride;
    let img = ExecutableImage { address_space: 300, entry: 0xABC0, user_sp: 0xF000 };
    assert_eq!(m.exec(Some(img)), Ok(()));
    let t = m.task(0);
    assert_eq!(t.pid, 0);
    assert_eq!(t.priority, 5);
    assert_eq!(t.stride, stride);
    assert_eq!(t.state, TaskState::Running);
    assert_eq!(t.address_space, 300);
    assert_eq!(t.context, TrapContext::app_init_context(0xABC0, 0xF000));
    assert_eq!(t.children, vec![1]);
    assert_eq!(t.parent, None);
    assert_eq!(m.retired, vec![100]);
    assert_eq!(m.take_retired(), vec![100]);
    assert!(m.retired.is_empty());
}

#[test]
fn exec_of_an_unknown_program_changes_nothing() {
    let mut m = running_root(8);
    assert!(m.set_priority(9));
    let before = format!("{:?}", m);
    assert_eq!(m.exec(None), Err(ExecError::NotFound));
    assert_eq!(format!("{:?}", m), before);
    assert_eq!(m.task(0).address_space, 100);
    assert_eq!(m.task(0).pid, 0);
    assert_eq!(m.task(0).priority, 9);
}

#[test]
fn exit_leaves_a_zombie_and_runs_the_next_task() {
    let mut m = running_root(8);
    assert_eq!(m.fork(Some(201)), Ok(1));
    m.run_next();
    assert_eq!(m.current(), Some(1));
    assert_eq!(m.ready, vec![0]);
    m.exit(42);
    assert_eq!(state_of(&m, 1), TaskState::Zombie(42));
    assert!(m.task(1).is_zombie());
    assert_eq!(m.task(1).exit_code(), Some(42));
    assert_eq!(m.task(0).exit_code(), None);
    assert_eq!(m.current(), Some(0));
    assert!(m.ready.is_empty());
    assert!(!m.ready.contains(&1));
    assert_eq!(m.task(0).children, vec![1]);
}

#[test]
fn exit_of_the_last_task_leaves_the_processor_idle() {
    let mut m = running_root(8);
    m.exit(0);
    assert_eq!(m.current(), None);
    assert!(m.ready.is_empty());
    assert_eq!(state_of(&m, 0), TaskState::Zombie(0));
    m.run_next();
    assert_eq!(m.current(), None);
    assert_eq!(m.select_next(), None);
}

#[test]
fn reap_without_children_finds_no_such_child() {
    let mut m = running_root(8);
    assert_eq!(m.reap(ANY_CHILD), ReapOutcome::NoSuchChild);
    assert_eq!(m.reap(1), ReapOutcome::NoSuchChild);
    assert_eq!(m.reap(0), ReapOutcome::NoSuchChild);
}

#[test]
fn reap_names_only_children_of_the_caller() {
    let mut m = running_root(8);
    assert_eq!(m.fork(Some(201)), Ok(1));
    assert_eq!(m.reap(2), ReapOutcome::NoSuchChild);
    assert_eq!(m.reap(0), ReapOutcome::NoSuchChild);
    assert_eq!(m.reap(-2), ReapOutcome::NoSuchChild);
    assert_eq!(m.reap(isize::MIN), ReapOutcome::NoSuchChild);
    assert_eq!(m.reap(1), ReapOutcome::Pending);
    assert_eq!(m.reap(ANY_CHILD), ReapOutcome::Pending);
    // The child has no child of its own.
    m.run_next();
    assert_eq!(m.current(), Some(1));
    assert_eq!(m.reap(ANY_CHILD), ReapOutcome::NoSuchChild);
    assert_eq!(m.reap(0), ReapOutcome::NoSuchChild);
}

#[test]
fn reap_of_a_live_child_is_pending_and_changes_nothing() {
    let mut m = running_root(8);
    assert_eq!(m.fork(Some(201)), Ok(1));
    assert_eq!(m.fork(Some(202)), Ok(2));
    let before = format!("{:?}", m);
    assert_eq!(m.reap(2), ReapOutcome::Pending);
    assert_eq!(m.reap(ANY_CHILD), ReapOutcome::Pending);
    assert_eq!(format!("{:?}", m), before);
}

#[test]
fn reap_any_takes_zombies_in_list_order() {
    let mut m = running_root(8);
    assert_eq!(m.fork(Some(201)), Ok(1));
    assert_eq!(m.fork(Some(202)), Ok(2));
    assert_eq!(m.fork(Some(203)), Ok(3));
    // Tasks 3 and 2 terminate, in this order; task 1 stays alive.
    m.run_next();
    assert_eq!(m.current(), Some(1));
    m.run_next();
    assert_eq!(m.current(), Some(2));
    m.run_next();
    assert_eq!(m.current(), Some(3));
    m.exit(33);
    assert_eq!(m.current(), Some(0));
    m.run_next();
    assert_eq!(m.current(), Some(1));
    m.run_next();
    assert_eq!(m.current(), Some(2));
    m.exit(22);
    assert_eq!(m.current(), Some(0));
    // The earlier entry of the list goes first, though it ended later.
    assert_eq!(m.reap(ANY_CHILD), ReapOutcome::Reaped { pid: 2, exit_code: 22 });
    assert_eq!(m.task(0).children, vec![1, 3]);
    assert_eq!(m.reap(ANY_CHILD), ReapOutcome::Reaped { pid: 3, exit_code: 33 });
    assert_eq!(m.task(0).children, vec![1]);
    assert_eq!(m.reap(ANY_CHILD), ReapOutcome::Pending);
    assert_eq!(m.retired, vec![202, 203]);
    assert!(!m.is_live(2));
    assert!(!m.is_live(3));
    assert!(m.is_live(1));
}

#[test]
fn reap_by_pid_skips_other_zombies() {
    let mut m = running_root(8);
    assert_eq!(m.fork(Some(201)), Ok(1));
    assert_eq!(m.fork(Some(202)), Ok(2));
    m.run_next();
    m.exit(11);
    assert_eq!(m.current(), Some(2));
    m.exit(12);
    assert_eq!(m.current(), Some(0));
    assert_eq!(m.reap(2), ReapOutcome::Reaped { pid: 2, exit_code: 12 });
    assert_eq!(m.task(0).children, vec![1]);
    assert_eq!(m.reap(2), ReapOutcome::NoSuchChild);
    assert_eq!(m.reap(1), ReapOutcome::Reaped { pid: 1, exit_code: 11 });
    assert!(m.task(0).children.is_empty());
    assert_eq!(m.retired, vec![202, 201]);
}

#[test]
fn reap_hands_the_children_of_the_zombie_to_the_root() {
    let mut m = running_root(16);
    // 0 forks 1; 1 forks 2; 2 forks 3 and 4.
    assert_eq!(m.fork(Some(201)), Ok(1));
    m.run_next();
    assert_eq!(m.current(), Some(1));
    assert_eq!(m.fork(Some(202)), Ok(2));
    // The new task has the least stride and runs next.
    m.run_next();
    assert_eq!(m.current(), Some(2));
    assert_eq!(m.fork(Some(203)), Ok(3));
    assert_eq!(m.fork(Some(204)), Ok(4));
    assert_eq!(m.task(2).children, vec![3, 4]);
    // 2 terminates; its parent 1 reaps it.
    m.exit(5);
    while m.current() != Some(1) {
        m.run_next();
    }
    assert_eq!(m.reap(ANY_CHILD), ReapOutcome::Reaped { pid: 2, exit_code: 5 });
    assert!(!m.is_live(2));
    assert!(m.task(1).children.is_empty());
    assert_eq!(m.task(0).children, vec![1, 3, 4]);
    assert_eq!(m.task(3).parent, Some(0));
    assert_eq!(m.task(4).parent, Some(0));
    assert_eq!(m.task(1).parent, Some(0));
    assert_eq!(m.retired, vec![202]);
    // The root can now reap them.
    while m.current() != Some(3) {
        m.run_next();
    }
    m.exit(6);
    while m.current() != Some(0) {
        m.run_next();
    }
    assert_eq!(m.reap(3), ReapOutcome::Reaped { pid: 3, exit_code: 6 });
    assert_eq!(m.task(0).children, vec![1, 4]);
}

#[test]
fn spawn_starts_the_child_at_the_program_and_leaves_the_parent() {
    let mut m = running_root(8);
    let parent_context = m.task(0).context;
    let img = ExecutableImage { address_space: 300, entry: 0x5000, user_sp: 0x6000 };
    assert_eq!(m.spawn(Some(201), Some(img)), Ok(1));
    let child = m.task(1);
    assert_eq!(child.state, TaskState::Ready);
    assert_eq!(child.address_space, 300);
    assert_eq!(child.context, TrapContext::app_init_context(0x5000, 0x6000));
    assert_eq!(child.parent, Some(0));
    assert_eq!(child.priority, DEFAULT_PRIORITY);
    let parent = m.task(0);
    assert_eq!(parent.address_space, 100);
    assert_eq!(parent.context, parent_context);
    assert_eq!(parent.children, vec![1]);
    assert_eq!(parent.state, TaskState::Running);
    assert_eq!(m.current(), Some(0));
    assert_eq!(m.ready, vec![1]);
    assert_eq!(m.retired, vec![201]);
}

#[test]
fn spawn_of_an_unknown_program_leaves_a_failed_zombie() {
    let mut m = running_root(8);
    assert_eq!(m.spawn(Some(201), None), Ok(1));
    assert_eq!(state_of(&m, 1), TaskState::Zombie(EXEC_FAILED));
    assert_eq!(EXEC_FAILED, -1);
    assert_eq!(m.task(1).address_space, 201);
    assert!(m.ready.is_empty());
    assert!(m.retired.is_empty());
    assert_eq!(m.task(0).children, vec![1]);
    assert_eq!(m.reap(1), ReapOutcome::Reaped { pid: 1, exit_code: -1 });
    assert_eq!(m.retired, vec![201]);
}

#[test]
fn spawn_fails_as_fork_does_and_retires_what_it_got() {
    let mut m = running_root(1);
    let img = ExecutableImage { address_space: 300, entry: 0x5000, user_sp: 0x6000 };
    assert_eq!(m.spawn(Some(201), Some(img)), Err(ForkError::PidsExhausted));
    assert_eq!(m.retired, vec![201, 300]);
    assert_eq!(m.tasks.len(), 1);

    let mut m = running_root(4);
    assert_eq!(m.spawn(None, Some(img)), Err(ForkError::SpaceExhausted));
    assert_eq!(m.retired, vec![300]);
    assert_eq!(m.tasks.len(), 1);
    assert_eq!(m.spawn(None, None), Err(ForkError::SpaceExhausted));
    assert_eq!(m.retired, vec![300]);
}

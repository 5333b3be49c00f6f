use os_core::context::ExecutableImage;
use os_core::manager::TaskManager;
use os_core::task::{
    charge, is_valid_priority, max_priority, pass_for, TaskState, BIG_STRIDE, DEFAULT_PRIORITY,
    MAX_PASS, MAX_STRIDE, MIN_PRIORITY,
};

fn booted(pid_limit: usize) -> TaskManager {
    let image = ExecutableImage { address_space: 100, entry: 0x1_0000, user_sp: 0x8_0000 };
    let mut m = TaskManager::create_root(image, pid_limit);
    m.run_next();
    m
}

/// Takes `turns` scheduling decisions and counts how often each task got the
/// processor.
fn count_turns(m: &mut TaskManager, turns: usize) -> Vec<usize> {
    let mut counts = vec![0usize; m.tasks.len()];
    for _ in 0..turns {
        m.run_next();
        counts[m.current().unwrap()] += 1;
    }
    counts
}

#[test]
fn pass_is_the_big_stride_divided_by_the_priority() {
    assert_eq!(BIG_STRIDE, u64::MAX);
    assert_eq!(MAX_PASS, u64::MAX / 2);
    assert_eq!(pass_for(2), 0x7FFF_FFFF_FFFF_FFFF);
    assert_eq!(pass_for(3), 0x5555_5555_5555_5555);
    assert_eq!(pass_for(16), 0x0FFF_FFFF_FFFF_FFFF);
    assert_eq!(pass_for(isize::MAX as usize), 2);
    assert_eq!(pass_for(DEFAULT_PRIORITY), u64::MAX / 16);
}

#[test]
fn a_turn_costs_the_big_stride_divided_by_the_priority_exactly() {
    assert_eq!(MAX_STRIDE, MAX_PASS + 1);
    let q = u64::MAX / 16;
    // The division leaves 15 over: the second turn carries.
    assert_eq!(charge(16, 0), (q, 15));
    assert_eq!(charge(16, 15), (q + 1, 14));
    assert_eq!(charge(16, 1), (q + 1, 0));
    assert_eq!(charge(16, 0).0, pass_for(16));
    assert_eq!(charge(2, 0), (MAX_PASS, 1));
    assert_eq!(charge(2, 1), (MAX_STRIDE, 0));
    assert_eq!(charge(3, 0), (0x5555_5555_5555_5555, 0));
    assert_eq!(charge(3, 2), (0x5555_5555_5555_5555, 2));
    assert_eq!(charge(isize::MAX as usize, 0), (2, 1));
    assert_eq!(charge(isize::MAX as usize, isize::MAX as usize - 1), (3, 0));
    assert_eq!(charge(1 << 62, 0), (3, (1 << 62) - 1));
    assert_eq!(charge(1 << 62, (1 << 62) - 1), (4, (1 << 62) - 2));
    // Sixteen turns at priority 16 cost the big stride, exactly.
    let mut paid: u128 = 0;
    let mut rest = 0;
    for _ in 0..16 {
        let (stride, left) = charge(16, rest);
        paid += stride as u128;
        rest = left;
    }
    assert_eq!(paid, u64::MAX as u128);
    assert_eq!(rest, 0);
}

#[test]
fn priorities_from_two_to_the_largest_signed_value_are_valid() {
    assert_eq!(MIN_PRIORITY, 2);
    assert_eq!(max_priority(), isize::MAX as usize);
    assert!(!is_valid_priority(0));
    assert!(!is_valid_priority(1));
    assert!(is_valid_priority(2));
    assert!(is_valid_priority(16));
    assert!(is_valid_priority(isize::MAX as usize));
    assert!(!is_valid_priority(isize::MAX as usize + 1));
    assert!(!is_valid_priority(usize::MAX));
}

#[test]
fn first_decision_runs_the_root_and_charges_one_turn() {
    let image = ExecutableImage { address_space: 100, entry: 0x1_0000, user_sp: 0x8_0000 };
    let mut m = TaskManager::create_root(image, 8);
    assert_eq!(m.select_next(), Some(0));
    m.run_next();
    assert_eq!(m.current(), Some(0));
    assert!(m.ready.is_empty());
    assert_eq!(m.task(0).state, TaskState::Running);
    assert_eq!(m.task(0).stride, pass_for(16));
    assert_eq!(m.task(0).remainder, 15);
    assert_eq!(m.select_next(), None);
}

#[test]
fn a_lone_task_is_chosen_again() {
    let mut m = booted(8);
    m.run_next();
    assert_eq!(m.current(), Some(0));
    assert_eq!(m.task(0).state, TaskState::Running);
    // The second turn carries what the first left over.
    assert_eq!(m.task(0).stride, pass_for(16) + 1);
    assert_eq!(m.task(0).remainder, 14);
    assert!(m.ready.is_empty());
}

#[test]
fn suspend_puts_the_running_task_at_the_tail() {
    let mut m = booted(8);
    m.fork(Some(201)).unwrap();
    m.fork(Some(202)).unwrap();
    assert_eq!(m.ready, vec![1, 2]);
    m.suspend();
    assert_eq!(m.current(), None);
    assert_eq!(m.ready, vec![1, 2, 0]);
    assert_eq!(m.task(0).state, TaskState::Ready);
    m.suspend();
    assert_eq!(m.ready, vec![1, 2, 0]);
}

#[test]
fn the_least_stride_runs_next_and_the_others_are_rebased() {
    let mut m = booted(8);
    m.fork(Some(201)).unwrap();
    m.fork(Some(202)).unwrap();
    let pass = pass_for(16);
    // Ready: 1 and 2 at stride zero; the running root has paid one turn.
    assert_eq!(m.select_next(), Some(1));
    m.run_next();
    assert_eq!(m.current(), Some(1));
    assert_eq!(m.ready, vec![2, 0]);
    assert_eq!(m.task(1).stride, pass);
    assert_eq!(m.task(2).stride, 0);
    assert_eq!(m.task(0).stride, pass);
    assert_eq!(m.task(0).state, TaskState::Ready);
    m.run_next();
    assert_eq!(m.current(), Some(2));
    assert_eq!(m.ready, vec![0, 1]);
    // All three are level now; the longest wait wins and the rest is rebased.
    m.run_next();
    assert_eq!(m.current(), Some(0));
    assert_eq!(m.ready, vec![1, 2]);
    assert_eq!(m.task(0).stride, pass + 1);
    assert_eq!(m.task(0).remainder, 14);
    assert_eq!(m.task(1).stride, 0);
    assert_eq!(m.task(1).remainder, 15);
    assert_eq!(m.task(2).stride, 0);
}

#[test]
fn equal_priorities_share_the_processor_equally() {
    let mut m = booted(16);
    for i in 0..4 {
        m.fork(Some(200 + i)).unwrap();
    }
    let counts = count_turns(&mut m, 1000);
    assert_eq!(counts.iter().sum::<usize>(), 1000);
    for c in counts.iter() {
        assert!(*c >= 198 && *c <= 202, "count {} is not within two of 200", c);
    }
    for a in counts.iter() {
        for b in counts.iter() {
            assert!(a.abs_diff(*b) <= 2);
        }
    }
}

#[test]
fn equal_priorities_take_turns_in_a_fixed_order() {
    let mut m = booted(16);
    m.fork(Some(201)).unwrap();
    m.fork(Some(202)).unwrap();
    let mut order = Vec::new();
    for _ in 0..9 {
        m.run_next();
        order.push(m.current().unwrap());
    }
    assert_eq!(order, vec![1, 2, 0, 1, 2, 0, 1, 2, 0]);
}

#[test]
fn a_task_of_twice_the_priority_gets_twice_the_turns() {
    let mut m = booted(8);
    m.fork(Some(201)).unwrap();
    assert!(m.set_priority(32));
    let counts = count_turns(&mut m, 3000);
    assert_eq!(counts[0] + counts[1], 3000);
    assert!(counts[0].abs_diff(2000) <= 2, "root had {} turns", counts[0]);
    assert!(counts[1].abs_diff(1000) <= 2, "child had {} turns", counts[1]);
}

#[test]
fn shares_follow_the_priorities_of_three_tasks() {
    let mut m = booted(8);
    m.fork(Some(201)).unwrap();
    m.fork(Some(202)).unwrap();
    // Priorities 2, 4 and 6 for the tasks 0, 1 and 2.
    assert!(m.set_priority(2));
    while m.current() != Some(1) {
        m.run_next();
    }
    assert!(m.set_priority(4));
    while m.current() != Some(2) {
        m.run_next();
    }
    assert!(m.set_priority(6));
    let counts = count_turns(&mut m, 12000);
    assert!(counts[0].abs_diff(2000) <= 3, "task 0 had {} turns", counts[0]);
    assert!(counts[1].abs_diff(4000) <= 3, "task 1 had {} turns", counts[1]);
    assert!(counts[2].abs_diff(6000) <= 3, "task 2 had {} turns", counts[2]);
}

#[test]
fn large_priorities_share_in_their_ratio() {
    let mut m = booted(8);
    m.fork(Some(201)).unwrap();
    // The root gets the highest priority, the child half of it, rounded up.
    assert!(m.set_priority(isize::MAX as usize));
    while m.current() != Some(1) {
        m.run_next();
    }
    assert!(m.set_priority(1 << 62));
    let counts = count_turns(&mut m, 3000);
    assert_eq!(counts[0] + counts[1], 3000);
    assert!(counts[0].abs_diff(2000) <= 3, "root had {} turns", counts[0]);
    assert!(counts[1].abs_diff(1000) <= 3, "child had {} turns", counts[1]);
}

#[test]
fn shares_are_exact_where_the_priority_does_not_divide_the_big_stride() {
    let mut m = booted(8);
    m.fork(Some(201)).unwrap();
    // Priorities 7 and 3.
    assert!(m.set_priority(7));
    while m.current() != Some(1) {
        m.run_next();
    }
    assert!(m.set_priority(3));
    let counts = count_turns(&mut m, 100_000);
    assert!(counts[0].abs_diff(70_000) <= 8, "root had {} turns", counts[0]);
    assert!(counts[1].abs_diff(30_000) <= 8, "child had {} turns", counts[1]);
}

#[test]
fn no_ready_task_starves() {
    let mut m = booted(8);
    m.fork(Some(201)).unwrap();
    assert!(m.set_priority(isize::MAX as usize));
    // The child has the default priority, the root the highest there is.
    let mut child_ran = false;
    for _ in 0..10 {
        m.run_next();
        if m.current() == Some(1) {
            child_ran = true;
        }
    }
    assert!(child_ran);
}

#[test]
fn set_priority_refuses_values_out_of_range() {
    let mut m = booted(8);
    let before = format!("{:?}", m);
    assert!(!m.set_priority(0));
    assert!(!m.set_priority(1));
    assert!(!m.set_priority(isize::MAX as usize + 1));
    assert!(!m.set_priority(usize::MAX));
    assert_eq!(format!("{:?}", m), before);
    assert_eq!(m.task(0).priority, 16);
}

#[test]
fn set_priority_weighs_on_later_turns_only() {
    let mut m = booted(8);
    let stride = m.task(0).stride;
    assert_eq!(stride, pass_for(16));
    assert!(m.set_priority(2));
    assert_eq!(m.task(0).priority, 2);
    assert_eq!(m.task(0).stride, stride);
    assert_eq!(m.task(0).remainder, 0);
    m.run_next();
    assert_eq!(m.current(), Some(0));
    assert_eq!(m.task(0).stride, pass_for(2));
}

#[test]
fn zombies_are_never_chosen() {
    let mut m = booted(8);
    m.fork(Some(201)).unwrap();
    m.fork(Some(202)).unwrap();
    m.run_next();
    assert_eq!(m.current(), Some(1));
    m.exit(1);
    for _ in 0..20 {
        assert_ne!(m.current(), Some(1));
        m.run_next();
    }
    assert_eq!(m.task(1).state, TaskState::Zombie(1));
}

#[test]
fn strides_stay_within_the_largest_pass() {
    let mut m = booted(16);
    for i in 0..5 {
        m.fork(Some(200 + i)).unwrap();
    }
    assert!(m.set_priority(2));
    for turn in 0..500 {
        m.run_next();
        if turn % 7 == 0 {
            assert!(m.set_priority(2 + turn % 11));
        }
        for slot in m.tasks.iter() {
            let task = slot.as_ref().unwrap();
            assert!(task.stride <= MAX_STRIDE);
            assert!(task.remainder < task.priority);
        }
        let running = m.tasks.iter().filter(|t| t.as_ref().unwrap().state == TaskState::Running);
        assert_eq!(running.count(), 1);
    }
}

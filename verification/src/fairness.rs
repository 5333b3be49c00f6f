//! What the scheduler owes the tasks over a run of decisions.
//!
//! Each turn costs a task `BIG_STRIDE` divided by its priority, exactly, and
//! the task that has paid least runs next. So over any run the turns of two
//! tasks stand in the ratio of their priorities, up to a bound that does not
//! grow with the run; each task gets its share of the whole; and no task
//! waits forever. Tasks of one priority take turns within their priority
//! plus one of each other, and within two if they start together.

use vstd::prelude::*;
use crate::model::ManagerView;
use crate::scheduler::{first_min, lemma_pick_effect, lemma_pick_wf, lemma_suspend_wf};
use crate::task::{
    lemma_charge, lemma_pass_bounds, pass_of, TaskState, TaskView, BIG_STRIDE, MAX_STRIDE,
};

verus! {

impl TaskView {
    /// What the task has paid for its turns and not yet been rebased by, in
    /// units of one over its priority.
    pub open spec fn paid(self) -> int {
        self.priority * self.stride + self.remainder
    }
}

impl ManagerView {
    /// Whether the task `p` exists and has not terminated.
    pub open spec fn runnable(self, p: int) -> bool {
        self.live(p) && !self.task(p).is_zombie()
    }

    /// Whether every runnable task has the priority `priority`.
    pub open spec fn uniform(self, priority: usize) -> bool {
        forall|p: int| #[trigger] self.runnable(p) ==> self.task(p).priority == priority
    }

    /// Whether every runnable task has the priority `priority` and no
    /// runnable task is ahead of another by more than the whole part of the
    /// cost of one turn, as when the tasks start together.
    pub open spec fn level(self, priority: usize) -> bool {
        &&& self.uniform(priority)
        &&& forall|a: int, b: int|
            #![trigger self.runnable(a), self.runnable(b)]
            self.runnable(a) && self.runnable(b) ==> self.task(a).stride <= self.task(b).stride
                + pass_of(priority)
    }

    /// Whether every runnable task has the priority `priority` and no
    /// runnable task has paid more than another by more than one turn and
    /// what a task can carry.
    pub open spec fn balanced(self, priority: usize) -> bool {
        &&& self.uniform(priority)
        &&& forall|a: int, b: int|
            #![trigger self.runnable(a), self.runnable(b)]
            self.runnable(a) && self.runnable(b) ==> self.task(a).paid() <= self.task(b).paid()
                + BIG_STRIDE + priority - 1
    }

    /// The sum of the priorities of the runnable tasks in the slots below
    /// `n`.
    pub open spec fn priority_below(self, n: int) -> int
        decreases n,
    {
        if n <= 0 {
            0
        } else {
            self.priority_below(n - 1) + (if self.runnable(n - 1) {
                self.task(n - 1).priority as int
            } else {
                0int
            })
        }
    }

    /// The sum of the priorities of the runnable tasks.
    pub open spec fn priority_sum(self) -> int {
        self.priority_below(self.tasks.len() as int)
    }

    /// One if the task `p` holds the processor, zero if not.
    pub open spec fn holds(self, p: int) -> int {
        if self.current is Some && self.current->0 == p {
            1
        } else {
            0
        }
    }

    /// The stride on which the next scheduling decision rebases the runnable
    /// tasks: the least stride among them.
    pub open spec fn turn_base(self) -> int {
        let s = self.suspend();
        if s.ready.len() == 0 {
            0
        } else {
            s.task(s.ready[first_min(s.strides())] as int).stride as int
        }
    }

    /// This state after `k` scheduling decisions in a row.
    pub open spec fn after_turns(self, k: nat) -> ManagerView
        decreases k,
    {
        if k == 0 {
            self
        } else {
            self.after_turns((k - 1) as nat).run_next()
        }
    }

    /// The number of those `k` decisions that gave the processor to the
    /// task `p`.
    pub open spec fn turns_of(self, k: nat, p: int) -> int
        decreases k,
    {
        if k == 0 {
            0
        } else {
            self.turns_of((k - 1) as nat, p) + self.after_turns(k).holds(p)
        }
    }

    /// The number of runnable tasks among the slots below `n`.
    pub open spec fn runnable_below(self, n: int) -> int
        decreases n,
    {
        if n <= 0 {
            0
        } else {
            self.runnable_below(n - 1) + (if self.runnable(n - 1) {
                1int
            } else {
                0int
            })
        }
    }

    /// The number of runnable tasks.
    pub open spec fn runnable_count(self) -> int {
        self.runnable_below(self.tasks.len() as int)
    }

    /// One if a task in a slot below `n` holds the processor, zero if not.
    pub open spec fn holders_below(self, n: int) -> int
        decreases n,
    {
        if n <= 0 {
            0
        } else {
            self.holders_below(n - 1) + self.holds(n - 1)
        }
    }

    /// The number of turns that `k` decisions gave to the tasks in the slots
    /// below `n`, all together.
    pub open spec fn turns_below(self, k: nat, n: int) -> int
        decreases n,
    {
        if n <= 0 {
            0
        } else {
            self.turns_below(k, n - 1) + self.turns_of(k, n - 1)
        }
    }

    /// The sum of the strides on which those `k` decisions rebased.
    pub open spec fn rebased_by(self, k: nat) -> int
        decreases k,
    {
        if k == 0 {
            0
        } else {
            self.rebased_by((k - 1) as nat) + self.after_turns((k - 1) as nat).turn_base()
        }
    }
}

/// What one scheduling decision does to a runnable task: the task stays
/// runnable at its priority, some task runs, and what the task has paid is
/// rebased on the least stride and, if the task was chosen, grows by
/// `BIG_STRIDE`. The task that is chosen has the least stride.
pub proof fn lemma_turn_task(m: ManagerView, p: int)
    requires
        m.wf(),
        m.runnable(p),
    ensures
        m.run_next().wf(),
        m.run_next().runnable(p),
        m.run_next().current is Some,
        m.run_next().current->0 < m.tasks.len(),
        m.run_next().task(p).priority == m.task(p).priority,
        0 <= m.turn_base() <= m.task(p).stride,
        m.run_next().task(p).paid() == m.task(p).paid() - m.task(p).priority * m.turn_base()
            + BIG_STRIDE * m.run_next().holds(p),
        m.run_next().holds(p) == 1 ==> m.task(p).stride == m.turn_base(),
{
    let s1 = m.suspend();
    lemma_suspend_wf(m);
    assert(m.tasks[p] is Some);
    assert(s1.tasks[p] is Some);
    assert(s1.task(p).state == TaskState::Ready) by {
        if m.task(p).state == TaskState::Running {
            assert(m.current == Some(p as usize));
        }
    }
    assert(s1.ready.contains(p as usize));
    lemma_pick_wf(s1);
    lemma_pick_effect(s1);
    let t = m.task(p);
    let pr = t.priority as int;
    let st = t.stride as int;
    let base = m.turn_base();
    lemma_charge(t.priority, t.remainder);
    if m.run_next().holds(p) != 1 {
        assert(pr * (st - base) == pr * st - pr * base) by (nonlinear_arith);
    }
}

/// One scheduling decision keeps the table well formed and makes no task
/// runnable that was not.
pub proof fn lemma_turn_keeps(m: ManagerView)
    requires
        m.wf(),
    ensures
        m.run_next().wf(),
        m.run_next().tasks.len() == m.tasks.len(),
        forall|p: int| #[trigger] m.run_next().runnable(p) ==> m.runnable(p),
{
    let s1 = m.suspend();
    let s = m.run_next();
    lemma_suspend_wf(m);
    if s1.ready.len() > 0 {
        lemma_pick_wf(s1);
        lemma_pick_effect(s1);
    }
    assert forall|p: int| #[trigger] s.runnable(p) implies m.runnable(p) by {
        assert(s.tasks[p] is Some);
        assert(s1.tasks[p] is Some);
        assert(m.tasks[p] is Some);
    }
}

/// One scheduling decision keeps the priorities of a table of one priority.
pub proof fn lemma_turn_uniform(m: ManagerView, priority: usize)
    requires
        m.wf(),
        m.uniform(priority),
    ensures
        m.run_next().uniform(priority),
{
    let s = m.run_next();
    lemma_turn_keeps(m);
    assert forall|p: int| #[trigger] s.runnable(p) implies s.task(p).priority == priority by {
        lemma_turn_task(m, p);
    }
}

/// One scheduling decision keeps a balanced table balanced.
pub proof fn lemma_turn_balanced(m: ManagerView, priority: usize)
    requires
        m.wf(),
        m.balanced(priority),
    ensures
        m.run_next().balanced(priority),
{
    let s = m.run_next();
    lemma_turn_keeps(m);
    lemma_turn_uniform(m, priority);
    assert forall|a: int, b: int|
        #![trigger s.runnable(a), s.runnable(b)]
        s.runnable(a) && s.runnable(b) implies s.task(a).paid() <= s.task(b).paid() + BIG_STRIDE
        + priority - 1 by {
        lemma_turn_task(m, a);
        lemma_turn_task(m, b);
        assert(m.runnable(a) && m.runnable(b));
        assert(m.tasks[a] is Some && m.tasks[b] is Some);
        let pr = priority as int;
        let sa = m.task(a).stride as int;
        let sb = m.task(b).stride as int;
        if s.holds(a) == 1 && s.holds(b) != 1 {
            assert(pr * sa <= pr * sb) by (nonlinear_arith)
                requires
                    pr >= 0,
                    sa <= sb,
            ;
        }
    }
}

/// Any number of decisions keep the table well formed and make no task
/// runnable that was not.
pub proof fn lemma_turns_keep(m: ManagerView, k: nat)
    requires
        m.wf(),
    ensures
        m.after_turns(k).wf(),
        m.after_turns(k).tasks.len() == m.tasks.len(),
        forall|p: int| #[trigger] m.after_turns(k).runnable(p) ==> m.runnable(p),
    decreases k,
{
    if k > 0 {
        let j = (k - 1) as nat;
        lemma_turns_keep(m, j);
        let mid = m.after_turns(j);
        lemma_turn_keeps(mid);
        assert forall|p: int| #[trigger] m.after_turns(k).runnable(p) implies m.runnable(p) by {
            assert(mid.runnable(p));
        }
    }
}

/// Any number of decisions keep a balanced table balanced.
pub proof fn lemma_turns_balanced(m: ManagerView, priority: usize, k: nat)
    requires
        m.wf(),
        m.balanced(priority),
    ensures
        m.after_turns(k).balanced(priority),
    decreases k,
{
    if k > 0 {
        let j = (k - 1) as nat;
        lemma_turns_balanced(m, priority, j);
        lemma_turns_keep(m, j);
        lemma_turn_balanced(m.after_turns(j), priority);
    }
}

/// After any number of decisions a task that was runnable still is, at its
/// priority, and what it has paid has grown by `BIG_STRIDE` for each turn it
/// had, less its priority times what the decisions rebased.
pub proof fn lemma_turns_task(m: ManagerView, k: nat, p: int)
    requires
        m.wf(),
        m.runnable(p),
    ensures
        m.after_turns(k).wf(),
        m.after_turns(k).runnable(p),
        m.after_turns(k).task(p).priority == m.task(p).priority,
        m.after_turns(k).task(p).paid() == m.task(p).paid() - m.task(p).priority * m.rebased_by(k)
            + BIG_STRIDE * m.turns_of(k, p),
        m.rebased_by(k) >= 0,
        k > 0 ==> m.after_turns(k).current is Some && m.after_turns(k).current->0 < m.tasks.len(),
    decreases k,
{
    let pr = m.task(p).priority as int;
    if k > 0 {
        let j = (k - 1) as nat;
        lemma_turns_task(m, j, p);
        lemma_turns_keep(m, j);
        let mid = m.after_turns(j);
        lemma_turn_task(mid, p);
        let r = m.rebased_by(j);
        let base = mid.turn_base();
        assert(pr * (r + base) == pr * r + pr * base) by (nonlinear_arith);
    } else {
        assert(pr * 0 == 0) by (nonlinear_arith);
    }
}

/// What a live task has paid lies between nothing and its priority times
/// one more than the largest stride.
pub proof fn lemma_paid_bounds(m: ManagerView, p: int)
    requires
        m.wf(),
        m.live(p),
    ensures
        0 <= m.task(p).paid() < m.task(p).priority * (MAX_STRIDE + 1),
        2 <= m.task(p).priority <= isize::MAX,
{
    assert(m.tasks[p] is Some);
    let pr = m.task(p).priority as int;
    let st = m.task(p).stride as int;
    assert(0 <= pr * st <= pr * MAX_STRIDE && pr * (MAX_STRIDE + 1) == pr * MAX_STRIDE + pr)
        by (nonlinear_arith)
        requires
            pr >= 0,
            0 <= st <= MAX_STRIDE,
    ;
}

/// A task that is not runnable gets no turn.
pub proof fn lemma_no_turn_for_the_dead(m: ManagerView, k: nat, p: int)
    requires
        m.wf(),
        !m.runnable(p),
    ensures
        m.turns_of(k, p) == 0,
    decreases k,
{
    if k > 0 {
        lemma_no_turn_for_the_dead(m, (k - 1) as nat, p);
        lemma_turns_keep(m, k);
        let s = m.after_turns(k);
        if s.holds(p) == 1 {
            assert(s.tasks[p] is Some);
            assert(s.runnable(p));
        }
    }
}

/// A task has had no more turns than there were decisions, and not less
/// than none.
pub proof fn lemma_turns_bounds(m: ManagerView, k: nat, p: int)
    ensures
        0 <= m.turns_of(k, p) <= k,
    decreases k,
{
    if k > 0 {
        lemma_turns_bounds(m, (k - 1) as nat, p);
    }
}

/// At most one task holds the processor.
pub proof fn lemma_one_holder(s: ManagerView, n: int)
    requires
        0 <= n,
    ensures
        s.holders_below(n) == (if s.current is Some && s.current->0 < n {
            1int
        } else {
            0int
        }),
    decreases n,
{
    if n > 0 {
        lemma_one_holder(s, n - 1);
    }
}

/// The turns of the tasks below slot `n` grow with each decision by one if
/// the task chosen lies below `n`.
pub proof fn lemma_turns_below_step(m: ManagerView, k: nat, n: int)
    requires
        k > 0,
    ensures
        m.turns_below(k, n) == m.turns_below((k - 1) as nat, n) + m.after_turns(k).holders_below(n),
    decreases n,
{
    if n > 0 {
        lemma_turns_below_step(m, k, n - 1);
    }
}

/// Before any decision no task has had a turn.
pub proof fn lemma_no_turns_yet(m: ManagerView, n: int)
    ensures
        m.turns_below(0, n) == 0,
    decreases n,
{
    if n > 0 {
        lemma_no_turns_yet(m, n - 1);
    }
}

/// While a task is runnable, `k` decisions give `k` turns in all.
pub proof fn lemma_turns_total(m: ManagerView, k: nat, p: int)
    requires
        m.wf(),
        m.runnable(p),
    ensures
        m.turns_below(k, m.tasks.len() as int) == k,
    decreases k,
{
    let n = m.tasks.len() as int;
    if k == 0 {
        lemma_no_turns_yet(m, n);
    } else {
        let j = (k - 1) as nat;
        lemma_turns_total(m, j, p);
        lemma_turns_task(m, k, p);
        lemma_turns_below_step(m, k, n);
        lemma_one_holder(m.after_turns(k), n);
    }
}

/// A count is not negative, and neither is a sum of priorities.
pub proof fn lemma_below_nonneg(m: ManagerView, n: int)
    ensures
        m.runnable_below(n) >= 0,
        m.priority_below(n) >= 0,
    decreases n,
{
    if n > 0 {
        lemma_below_nonneg(m, n - 1);
    }
}

/// A runnable task in a slot below `n` is counted among the runnable tasks
/// below `n`, and its priority in the sum of their priorities.
pub proof fn lemma_runnable_counted(m: ManagerView, a: int, n: int)
    requires
        m.runnable(a),
        a < n,
    ensures
        m.runnable_below(n) >= 1,
        m.priority_below(n) >= m.task(a).priority,
    decreases n,
{
    lemma_below_nonneg(m, n - 1);
    if a < n - 1 {
        lemma_runnable_counted(m, a, n - 1);
    }
}

/// Shares follow priorities. Over any run of scheduling decisions the turns
/// of two runnable tasks stand in the ratio of their priorities: the turns
/// of each, multiplied by the priority of the other, differ by no more than
/// a bound that depends on the two priorities and not on the length of the
/// run. Divided by both priorities the bound is
/// `2 * (MAX_STRIDE + 1) / BIG_STRIDE`, a little over one.
pub proof fn law_share_follows_priority(m: ManagerView, k: nat, a: int, b: int)
    requires
        m.wf(),
        m.runnable(a),
        m.runnable(b),
    ensures
        BIG_STRIDE * (m.task(b).priority * m.turns_of(k, a) - m.task(a).priority * m.turns_of(k, b))
            <= 2 * (m.task(a).priority * m.task(b).priority) * (MAX_STRIDE + 1),
        BIG_STRIDE * (m.task(a).priority * m.turns_of(k, b) - m.task(b).priority * m.turns_of(k, a))
            <= 2 * (m.task(a).priority * m.task(b).priority) * (MAX_STRIDE + 1),
{
    lemma_turns_task(m, k, a);
    lemma_turns_task(m, k, b);
    let s = m.after_turns(k);
    lemma_paid_bounds(m, a);
    lemma_paid_bounds(m, b);
    lemma_paid_bounds(s, a);
    lemma_paid_bounds(s, b);
    let pa = m.task(a).priority as int;
    let pb = m.task(b).priority as int;
    let ta = m.turns_of(k, a);
    let tb = m.turns_of(k, b);
    let r = m.rebased_by(k);
    let va0 = m.task(a).paid();
    let vb0 = m.task(b).paid();
    let va = s.task(a).paid();
    let vb = s.task(b).paid();
    let big = BIG_STRIDE as int;
    let top = MAX_STRIDE as int + 1;
    lemma_weighed_difference(pa, pb, ta, tb, r, va0, vb0, va, vb, big, top);
    lemma_weighed_difference(pb, pa, tb, ta, r, vb0, va0, vb, va, big, top);
    assert(pb * pa == pa * pb) by (nonlinear_arith);
}

/// The arithmetic of `law_share_follows_priority`.
proof fn lemma_weighed_difference(
    pa: int,
    pb: int,
    ta: int,
    tb: int,
    r: int,
    va0: int,
    vb0: int,
    va: int,
    vb: int,
    big: int,
    top: int,
)
    requires
        pa >= 0,
        pb >= 0,
        va == va0 - pa * r + big * ta,
        vb == vb0 - pb * r + big * tb,
        0 <= va0 <= pa * top,
        0 <= vb0 <= pb * top,
        0 <= va <= pa * top,
        0 <= vb <= pb * top,
    ensures
        big * (pb * ta - pa * tb) <= 2 * (pa * pb) * top,
{
    let x = pb * va;
    let y = pa * vb;
    let x0 = pb * va0;
    let y0 = pa * vb0;
    let c = pb * (pa * r);
    let d = big * (pb * ta - pa * tb);
    let most = (pa * pb) * top;
    assert(x == x0 - c + pb * (big * ta)) by (nonlinear_arith)
        requires
            x == pb * va,
            x0 == pb * va0,
            c == pb * (pa * r),
            va == va0 - pa * r + big * ta,
    ;
    assert(y == y0 - c + pa * (big * tb)) by (nonlinear_arith)
        requires
            y == pa * vb,
            y0 == pa * vb0,
            c == pb * (pa * r),
            vb == vb0 - pb * r + big * tb,
    ;
    assert(pb * (big * ta) - pa * (big * tb) == d) by (nonlinear_arith)
        requires
            d == big * (pb * ta - pa * tb),
    ;
    assert(x <= most) by (nonlinear_arith)
        requires
            x == pb * va,
            most == (pa * pb) * top,
            pb >= 0,
            va <= pa * top,
    ;
    assert(y0 <= most) by (nonlinear_arith)
        requires
            y0 == pa * vb0,
            most == (pa * pb) * top,
            pa >= 0,
            vb0 <= pb * top,
    ;
    assert(y >= 0 && x0 >= 0) by (nonlinear_arith)
        requires
            y == pa * vb,
            x0 == pb * va0,
            pa >= 0,
            pb >= 0,
            vb >= 0,
            va0 >= 0,
    ;
    assert(d == x - y - x0 + y0);
    assert(2 * (pa * pb) * top == 2 * most) by (nonlinear_arith)
        requires
            most == (pa * pb) * top,
    ;
}

/// The turns of the tasks below slot `n`, all together, stand to the turns
/// of one runnable task as the sum of their priorities stands to its
/// priority, up to the bound of `law_share_follows_priority` for each.
pub proof fn lemma_turns_near_share(m: ManagerView, k: nat, a: int, n: int)
    requires
        m.wf(),
        m.runnable(a),
    ensures
        m.priority_below(n) >= 0,
        BIG_STRIDE * (m.priority_below(n) * m.turns_of(k, a) - m.task(a).priority * m.turns_below(
            k,
            n,
        )) <= 2 * (m.task(a).priority * m.priority_below(n)) * (MAX_STRIDE + 1),
        BIG_STRIDE * (m.task(a).priority * m.turns_below(k, n) - m.priority_below(n) * m.turns_of(
            k,
            a,
        )) <= 2 * (m.task(a).priority * m.priority_below(n)) * (MAX_STRIDE + 1),
    decreases n,
{
    let t = m.turns_of(k, a);
    let pa = m.task(a).priority as int;
    let big = BIG_STRIDE as int;
    let top = MAX_STRIDE as int + 1;
    if n > 0 {
        lemma_turns_near_share(m, k, a, n - 1);
        let q = n - 1;
        let sum = m.priority_below(q);
        let all = m.turns_below(k, q);
        if m.runnable(q) {
            law_share_follows_priority(m, k, a, q);
            let pq = m.task(q).priority as int;
            let tq = m.turns_of(k, q);
            assert(big * ((sum + pq) * t - pa * (all + tq)) == big * (sum * t - pa * all) + big * (pq
                * t - pa * tq)) by (nonlinear_arith);
            assert(big * (pa * (all + tq) - (sum + pq) * t) == big * (pa * all - sum * t) + big * (pa
                * tq - pq * t)) by (nonlinear_arith);
            assert(2 * (pa * (sum + pq)) * top == 2 * (pa * sum) * top + 2 * (pa * pq) * top)
                by (nonlinear_arith);
        } else {
            lemma_no_turn_for_the_dead(m, k, q);
        }
    } else {
        assert(big * (0 * t - pa * 0) == 0 && big * (pa * 0 - 0 * t) == 0 && 2 * (pa * 0) * top == 0)
            by (nonlinear_arith);
    }
}

/// Each gets its share of the whole. Over any run of `k` scheduling
/// decisions a runnable task of priority `p` is given the processor
/// `k * p / s` times, `s` being the sum of the priorities of the runnable
/// tasks, up to a bound that does not grow with the run: its turns times
/// `s` differ from `k * p` by no more than `p * s` times
/// `2 * (MAX_STRIDE + 1) / BIG_STRIDE`, a little over one.
pub proof fn law_share_of_the_whole(m: ManagerView, k: nat, a: int)
    requires
        m.wf(),
        m.runnable(a),
    ensures
        m.priority_sum() >= m.task(a).priority,
        BIG_STRIDE * (m.priority_sum() * m.turns_of(k, a) - m.task(a).priority * k) <= 2 * (m.task(
            a,
        ).priority * m.priority_sum()) * (MAX_STRIDE + 1),
        BIG_STRIDE * (m.task(a).priority * k - m.priority_sum() * m.turns_of(k, a)) <= 2 * (m.task(
            a,
        ).priority * m.priority_sum()) * (MAX_STRIDE + 1),
{
    let n = m.tasks.len() as int;
    lemma_turns_total(m, k, a);
    lemma_turns_near_share(m, k, a, n);
    lemma_runnable_counted(m, a, n);
}

/// Fairness among equals. With runnable tasks of one priority, over any run
/// of scheduling decisions no task is given the processor more often than
/// any other by more than that priority plus one, however far apart their
/// strides were at the start.
pub proof fn law_equal_priority_is_fair(m: ManagerView, priority: usize, k: nat, a: int, b: int)
    requires
        m.wf(),
        m.uniform(priority),
        m.runnable(a),
        m.runnable(b),
    ensures
        m.turns_of(k, a) - m.turns_of(k, b) <= priority + 1,
        m.turns_of(k, b) - m.turns_of(k, a) <= priority + 1,
{
    lemma_turns_task(m, k, a);
    lemma_turns_task(m, k, b);
    let s = m.after_turns(k);
    lemma_paid_bounds(m, a);
    lemma_paid_bounds(m, b);
    lemma_paid_bounds(s, a);
    lemma_paid_bounds(s, b);
    let pr = priority as int;
    let ta = m.turns_of(k, a);
    let tb = m.turns_of(k, b);
    let now = s.task(a).paid() - s.task(b).paid();
    let then = m.task(a).paid() - m.task(b).paid();
    let span = pr * (MAX_STRIDE + 1);
    assert(now == then + BIG_STRIDE * ta - BIG_STRIDE * tb);
    assert(-span < now < span);
    assert(-span < then < span);
    assert(span == pr * 0x8000_0000_0000_0001) by (nonlinear_arith)
        requires
            span == pr * (MAX_STRIDE + 1),
    ;
}

/// Each of the equals gets its share. With `n` runnable tasks of one
/// priority, over any run of `k` scheduling decisions each task is given
/// the processor `k / n` times, that priority plus one more or less: `n`
/// times its turns differ from `k` by at most `n` times the priority plus
/// one.
pub proof fn law_equal_priority_share(m: ManagerView, priority: usize, k: nat, a: int)
    requires
        m.wf(),
        m.uniform(priority),
        m.runnable(a),
    ensures
        m.runnable_count() >= 1,
        m.runnable_count() * m.turns_of(k, a) - m.runnable_count() * (priority + 1) <= k,
        k <= m.runnable_count() * m.turns_of(k, a) + m.runnable_count() * (priority + 1),
{
    let n = m.tasks.len() as int;
    lemma_turns_total(m, k, a);
    lemma_equal_turns_near_share(m, priority, k, a, n);
    lemma_runnable_counted(m, a, n);
}

/// The turns of the tasks of one priority below slot `n`, all together,
/// differ from the turns of one of them, taken once for each runnable task
/// below `n`, by at most the priority plus one for each of these.
pub proof fn lemma_equal_turns_near_share(m: ManagerView, priority: usize, k: nat, a: int, n: int)
    requires
        m.wf(),
        m.uniform(priority),
        m.runnable(a),
    ensures
        m.runnable_below(n) >= 0,
        m.runnable_below(n) * m.turns_of(k, a) - m.runnable_below(n) * (priority + 1)
            <= m.turns_below(k, n),
        m.turns_below(k, n) <= m.runnable_below(n) * m.turns_of(k, a) + m.runnable_below(n) * (
        priority + 1),
    decreases n,
{
    let t = m.turns_of(k, a);
    let w = priority as int + 1;
    if n > 0 {
        lemma_equal_turns_near_share(m, priority, k, a, n - 1);
        let c = m.runnable_below(n - 1);
        if m.runnable(n - 1) {
            law_equal_priority_is_fair(m, priority, k, a, n - 1);
            assert((c + 1) * t == c * t + t && (c + 1) * w == c * w + w) by (nonlinear_arith);
        } else {
            lemma_no_turn_for_the_dead(m, k, n - 1);
        }
    } else {
        assert(0 * t == 0 && 0 * w == 0) by (nonlinear_arith);
    }
}

/// A level table is balanced.
pub proof fn lemma_level_is_balanced(m: ManagerView, priority: usize)
    requires
        m.wf(),
        m.level(priority),
    ensures
        m.balanced(priority),
{
    assert forall|a: int, b: int|
        #![trigger m.runnable(a), m.runnable(b)]
        m.runnable(a) && m.runnable(b) implies m.task(a).paid() <= m.task(b).paid() + BIG_STRIDE
        + priority - 1 by {
        assert(m.tasks[a] is Some && m.tasks[b] is Some);
        lemma_pass_bounds(priority);
        let pr = priority as int;
        let sa = m.task(a).stride as int;
        let sb = m.task(b).stride as int;
        let q = pass_of(priority) as int;
        assert(pr * sa <= pr * sb + pr * q) by (nonlinear_arith)
            requires
                pr >= 0,
                sa <= sb + q,
        ;
    }
}

/// Fairness among equals that start together. With runnable tasks of one
/// priority that start within one turn of each other, over any run of
/// scheduling decisions no task is given the processor more than two times
/// more often than any other.
pub proof fn law_level_start_is_fair(m: ManagerView, priority: usize, k: nat, a: int, b: int)
    requires
        m.wf(),
        m.level(priority),
        m.runnable(a),
        m.runnable(b),
    ensures
        m.turns_of(k, a) - m.turns_of(k, b) <= 2,
        m.turns_of(k, b) - m.turns_of(k, a) <= 2,
{
    lemma_level_is_balanced(m, priority);
    lemma_turns_balanced(m, priority, k);
    lemma_turns_task(m, k, a);
    lemma_turns_task(m, k, b);
    let s = m.after_turns(k);
    assert(m.tasks[a] is Some);
    let ta = m.turns_of(k, a);
    let tb = m.turns_of(k, b);
    let now = s.task(a).paid() - s.task(b).paid();
    let then = m.task(a).paid() - m.task(b).paid();
    let slack = BIG_STRIDE + priority - 1;
    assert(now == then + BIG_STRIDE * ta - BIG_STRIDE * tb);
    assert(s.runnable(a) && s.runnable(b));
    assert(m.runnable(a) && m.runnable(b));
    assert(-slack <= now <= slack);
    assert(-slack <= then <= slack);
}

/// The turns of the tasks below slot `n`, all together, differ from the
/// turns of one runnable task, taken once for each runnable task below `n`,
/// by at most two for each of these.
pub proof fn lemma_level_turns_near_share(m: ManagerView, priority: usize, k: nat, a: int, n: int)
    requires
        m.wf(),
        m.level(priority),
        m.runnable(a),
    ensures
        m.runnable_below(n) >= 0,
        m.runnable_below(n) * m.turns_of(k, a) - 2 * m.runnable_below(n) <= m.turns_below(k, n),
        m.turns_below(k, n) <= m.runnable_below(n) * m.turns_of(k, a) + 2 * m.runnable_below(n),
    decreases n,
{
    let t = m.turns_of(k, a);
    if n > 0 {
        lemma_level_turns_near_share(m, priority, k, a, n - 1);
        let c = m.runnable_below(n - 1);
        if m.runnable(n - 1) {
            law_level_start_is_fair(m, priority, k, a, n - 1);
            assert((c + 1) * t == c * t + t) by (nonlinear_arith);
        } else {
            lemma_no_turn_for_the_dead(m, k, n - 1);
        }
    } else {
        assert(0 * t == 0) by (nonlinear_arith);
    }
}

/// Each of the equals that start together gets its share. With `n` runnable
/// tasks of one priority that start within one turn of each other, over any
/// run of `k` scheduling decisions each task is given the processor `k / n`
/// times, two more or less: `n` times its turns differ from `k` by at most
/// `2 n`.
pub proof fn law_level_start_share(m: ManagerView, priority: usize, k: nat, a: int)
    requires
        m.wf(),
        m.level(priority),
        m.runnable(a),
    ensures
        m.runnable_count() >= 1,
        m.runnable_count() * m.turns_of(k, a) - 2 * m.runnable_count() <= k,
        k <= m.runnable_count() * m.turns_of(k, a) + 2 * m.runnable_count(),
{
    let n = m.tasks.len() as int;
    lemma_turns_total(m, k, a);
    lemma_level_turns_near_share(m, priority, k, a, n);
    lemma_runnable_counted(m, a, n);
}

/// While the task `a` has had no turn, no other task has had more than two
/// times the largest stride.
pub proof fn lemma_turns_while_waiting(m: ManagerView, k: nat, a: int, n: int)
    requires
        m.wf(),
        m.runnable(a),
        m.turns_of(k, a) == 0,
    ensures
        m.runnable_below(n) >= 0,
        m.turns_below(k, n) <= 2 * MAX_STRIDE * m.runnable_below(n),
    decreases n,
{
    if n > 0 {
        lemma_turns_while_waiting(m, k, a, n - 1);
        let q = n - 1;
        if m.runnable(q) {
            law_share_follows_priority(m, k, a, q);
            lemma_paid_bounds(m, a);
            lemma_paid_bounds(m, q);
            lemma_turns_bounds(m, k, q);
            let pa = m.task(a).priority as int;
            let pq = m.task(q).priority as int;
            let t = m.turns_of(k, q);
            let big = BIG_STRIDE as int;
            let top = MAX_STRIDE as int + 1;
            assert(big * (pa * t - pq * 0) == pa * (big * t) && 2 * (pa * pq) * top == pa * (2 * pq
                * top)) by (nonlinear_arith);
            assert(big * t <= 2 * pq * top) by (nonlinear_arith)
                requires
                    pa >= 1,
                    pa * (big * t) <= pa * (2 * pq * top),
            ;
        } else {
            lemma_no_turn_for_the_dead(m, k, q);
        }
    }
}

/// No task waits forever. A runnable task has had a turn once there have
/// been more scheduling decisions than two times the largest stride for
/// each runnable task.
pub proof fn law_no_task_starves(m: ManagerView, k: nat, a: int)
    requires
        m.wf(),
        m.runnable(a),
        k > 2 * MAX_STRIDE * m.runnable_count(),
    ensures
        m.turns_of(k, a) >= 1,
{
    lemma_turns_bounds(m, k, a);
    if m.turns_of(k, a) == 0 {
        lemma_turns_total(m, k, a);
        lemma_turns_while_waiting(m, k, a, m.tasks.len() as int);
    }
}

} // verus!

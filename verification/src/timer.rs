//! Software timers counted in ticks of the local APIC timer, kept in
//! order of their timeouts.
use vstd::prelude::*;
use crate::message::{Message, MessageType};
use crate::task::{task_index, TaskContext, TaskManager};

verus! {

/// Ticks per second.
pub const TIMER_FREQ: u64 = 100;

/// Ticks between two task switches: a fiftieth of `TIMER_FREQ`.
pub const TASK_TIMER_PERIOD: u64 = 2;

/// The value that marks the task-switch timer.
pub const TASK_TIMER_VALUE: i32 = i32::MIN;

/// A timer that fires at tick `timeout` with `value` for task `task_id`.
#[derive(Clone, Copy, Debug, PartialEq, Eq, Structural)]
pub struct Timer {
    timeout: u64,
    value: i32,
    task_id: u64,
}

impl Timer {
    pub closed spec fn timeout_spec(&self) -> u64 {
        self.timeout
    }

    pub closed spec fn value_spec(&self) -> i32 {
        self.value
    }

    pub closed spec fn task_id_spec(&self) -> u64 {
        self.task_id
    }

    /// The timer of the given fields, as a value.
    pub closed spec fn of(timeout: u64, value: i32, task_id: u64) -> Timer {
        Timer { timeout, value, task_id }
    }

    pub fn new(timeout: u64, value: i32, task_id: u64) -> (r: Self)
        ensures
            r == Timer::of(timeout, value, task_id),
            r.timeout_spec() == timeout,
            r.value_spec() == value,
            r.task_id_spec() == task_id,
    {
        Timer { timeout, value, task_id }
    }

    pub fn timeout(&self) -> (r: u64)
        ensures
            r == self.timeout_spec(),
    {
        self.timeout
    }

    pub fn value(&self) -> (r: i32)
        ensures
            r == self.value_spec(),
    {
        self.value
    }

    pub fn task_id(&self) -> (r: u64)
        ensures
            r == self.task_id_spec(),
    {
        self.task_id
    }

    /// The message the timer's task gets when the timer fires.
    pub fn timeout_message(&self) -> (r: Message)
        ensures
            r == (Message { ty: MessageType::TimerTimeout { timeout: self.timeout_spec(), value: self.value_spec() }, src_task: 0 }),
    {
        Message { ty: MessageType::TimerTimeout { timeout: self.timeout, value: self.value }, src_task: 0 }
    }
}

/// Whether the timeouts of `s` never decrease.
pub open spec fn sorted(s: Seq<Timer>) -> bool {
    forall|i: int, j: int| 0 <= i <= j < s.len() ==> s[i].timeout_spec() <= s[j].timeout_spec()
}

/// How many timers at the front of `s` time out no later than `timeout`.
pub open spec fn count_le(s: Seq<Timer>, timeout: u64) -> nat
    decreases s.len(),
{
    if s.len() == 0 || s[0].timeout_spec() > timeout {
        0
    } else {
        1 + count_le(s.drop_first(), timeout)
    }
}

/// `s` with `t` added after every timer that times out no later than it.
pub open spec fn insert_sorted(s: Seq<Timer>, t: Timer) -> Seq<Timer> {
    s.insert(count_le(s, t.timeout_spec()) as int, t)
}

/// `s` with `n` copies of `t` added as `insert_sorted` adds them.
pub open spec fn insert_n(s: Seq<Timer>, t: Timer, n: nat) -> Seq<Timer>
    decreases n,
{
    if n == 0 {
        s
    } else {
        insert_sorted(insert_n(s, t, (n - 1) as nat), t)
    }
}

/// How many timers at the front of `s` have timed out at tick `tick`.
pub open spec fn due(s: Seq<Timer>, tick: u64) -> nat {
    count_le(s, tick)
}

/// Whether `t` is the task-switch timer.
pub open spec fn is_task_timer(t: Timer) -> bool {
    t.value_spec() == TASK_TIMER_VALUE
}

/// The task-switch timer that `tick` sets up at tick `now`.
pub open spec fn next_task_timer(now: u64) -> Timer {
    Timer::of((now + TASK_TIMER_PERIOD) as u64, TASK_TIMER_VALUE, 0)
}

proof fn lemma_count_le_bound(s: Seq<Timer>, timeout: u64)
    ensures
        count_le(s, timeout) <= s.len(),
        forall|i: int| 0 <= i < count_le(s, timeout) ==> #[trigger] s[i].timeout_spec() <= timeout,
    decreases s.len(),
{
    if s.len() > 0 && s[0].timeout_spec() <= timeout {
        lemma_count_le_bound(s.drop_first(), timeout);
        assert forall|i: int| 0 <= i < count_le(s, timeout) implies #[trigger] s[i].timeout_spec() <= timeout by {
            if i > 0 {
                assert(s[i] == s.drop_first()[i - 1]);
            }
        }
    }
}

/// In a sorted sequence, the timers after the first `count_le` ones time
/// out later.
proof fn lemma_count_le_sorted(s: Seq<Timer>, timeout: u64)
    requires
        sorted(s),
    ensures
        forall|i: int| count_le(s, timeout) <= i < s.len() ==> #[trigger] s[i].timeout_spec() > timeout,
    decreases s.len(),
{
    if s.len() > 0 && s[0].timeout_spec() <= timeout {
        let d = s.drop_first();
        assert(sorted(d));
        lemma_count_le_sorted(d, timeout);
        assert forall|i: int| count_le(s, timeout) <= i < s.len() implies #[trigger] s[i].timeout_spec() > timeout by {
            assert(s[i] == d[i - 1]);
        }
    }
}

proof fn lemma_insert_sorted(s: Seq<Timer>, t: Timer)
    requires
        sorted(s),
    ensures
        sorted(insert_sorted(s, t)),
        insert_sorted(s, t).len() == s.len() + 1,
{
    lemma_count_le_bound(s, t.timeout_spec());
    lemma_count_le_sorted(s, t.timeout_spec());
    let k = count_le(s, t.timeout_spec()) as int;
    let r = insert_sorted(s, t);
    assert forall|i: int, j: int| 0 <= i <= j < r.len() implies r[i].timeout_spec() <= r[j].timeout_spec() by {
        if i < k && j == k {
            assert(s[i].timeout_spec() <= t.timeout_spec());
        } else if i == k && j > k {
            assert(r[j] == s[j - 1]);
        } else if i < k && j > k {
            assert(r[j] == s[j - 1]);
        } else if i > k {
            assert(r[i] == s[i - 1] && r[j] == s[j - 1]);
        }
    }
}

proof fn lemma_insert_n_sorted(s: Seq<Timer>, t: Timer, n: nat)
    requires
        sorted(s),
    ensures
        sorted(insert_n(s, t, n)),
        insert_n(s, t, n).len() == s.len() + n,
    decreases n,
{
    if n > 0 {
        lemma_insert_n_sorted(s, t, (n - 1) as nat);
        lemma_insert_sorted(insert_n(s, t, (n - 1) as nat), t);
    }
}

/// Adding timers that time out later than the front of `s` keeps that
/// front, and taking it off commutes with adding them.
proof fn lemma_insert_n_front(s: Seq<Timer>, t: Timer, n: nat)
    requires
        s.len() > 0,
        s[0].timeout_spec() < t.timeout_spec(),
    ensures
        insert_n(s, t, n).len() == s.len() + n,
        insert_n(s, t, n)[0] == s[0],
        insert_n(s, t, n).drop_first() == insert_n(s.drop_first(), t, n),
    decreases n,
{
    if n > 0 {
        let m = (n - 1) as nat;
        lemma_insert_n_front(s, t, m);
        let a = insert_n(s, t, m);
        let b = insert_n(s.drop_first(), t, m);
        assert(a.len() > 0 && a[0].timeout_spec() <= t.timeout_spec());
        assert(count_le(a, t.timeout_spec()) == 1 + count_le(a.drop_first(), t.timeout_spec()));
        assert(a.drop_first() == b);
        lemma_count_le_bound(b, t.timeout_spec());
        assert(insert_sorted(a, t).drop_first() =~= insert_sorted(b, t));
    }
}

/// The front of `s` with copies of `t` added is the front of `s` or `t`.
proof fn lemma_insert_n_head(s: Seq<Timer>, t: Timer, n: nat)
    ensures
        insert_n(s, t, n).len() == s.len() + n,
        insert_n(s, t, n).len() > 0 ==> (insert_n(s, t, n)[0] == t || (s.len() > 0 && insert_n(s, t, n)[0] == s[0])),
    decreases n,
{
    if n > 0 {
        let m = (n - 1) as nat;
        lemma_insert_n_head(s, t, m);
        lemma_count_le_bound(insert_n(s, t, m), t.timeout_spec());
    }
}

/// The timers of a task and the current tick.
pub struct TimerManager {
    tick: u64,
    timers: Vec<Timer>,
}

impl TimerManager {
    pub closed spec fn tick_spec(&self) -> u64 {
        self.tick
    }

    /// The timers, soonest first; timers of equal timeout in the order they
    /// were added.
    pub closed spec fn timers_spec(&self) -> Seq<Timer> {
        self.timers@
    }

    pub closed spec fn wf(&self) -> bool {
        sorted(self.timers@)
    }

    /// No timers, at tick 0.
    pub fn new() -> (r: Self)
        ensures
            r.wf(),
            r.tick_spec() == 0,
            r.timers_spec() == Seq::<Timer>::empty(),
    {
        TimerManager { tick: 0, timers: Vec::new() }
    }

    pub fn current_tick(&self) -> (r: u64)
        ensures
            r == self.tick_spec(),
    {
        self.tick
    }

    /// Adds `timer` after the timers that time out no later than it.
    pub fn add_timer(&mut self, timer: Timer)
        requires
            old(self).wf(),
        ensures
            final(self).wf(),
            final(self).tick_spec() == old(self).tick_spec(),
            final(self).timers_spec() == insert_sorted(old(self).timers_spec(), timer),
    {
        proof {
            lemma_count_le_bound(self.timers@, timer.timeout);
            lemma_insert_sorted(self.timers@, timer);
        }
        let mut i: usize = 0;
        assert(self.timers@.skip(0) =~= self.timers@);
        while i < self.timers.len() && self.timers[i].timeout <= timer.timeout
            invariant
                sorted(self.timers@),
                self.timers@ == old(self).timers@,
                i <= self.timers@.len(),
                forall|k: int| 0 <= k < i ==> #[trigger] self.timers@[k].timeout_spec() <= timer.timeout,
                count_le(self.timers@, timer.timeout) >= i,
                count_le(self.timers@, timer.timeout) == i + count_le(self.timers@.skip(i as int), timer.timeout),
            decreases self.timers@.len() - i,
        {
            proof {
                let sk = self.timers@.skip(i as int);
                assert(sk[0] == self.timers@[i as int]);
                assert(sk.drop_first() =~= self.timers@.skip(i + 1));
            }
            i = i + 1;
        }
        proof {
            let sk = self.timers@.skip(i as int);
            if i < self.timers@.len() {
                assert(sk[0] == self.timers@[i as int]);
            } else {
                assert(sk.len() == 0);
            }
        }
        self.timers.insert(i, timer);
    }

    /// Advances the clock one tick and fires the timers that are due, the
    /// soonest first. A due task-switch timer is replaced by one
    /// `TASK_TIMER_PERIOD` ticks later. Returns whether a task-switch timer
    /// fired, and the other fired timers, whose tasks are to get their
    /// timeout messages.
    pub fn tick(&mut self) -> (r: (bool, Vec<Timer>))
        requires
            old(self).wf(),
            old(self).tick_spec() + 1 + TASK_TIMER_PERIOD <= u64::MAX,
        ensures
            final(self).wf(),
            final(self).tick_spec() == old(self).tick_spec() + 1,
            ({
                let now = final(self).tick_spec();
                let fired = old(self).timers_spec().take(due(old(self).timers_spec(), now) as int);
                let switches = fired.filter(|t: Timer| is_task_timer(t));
                &&& r.0 == (switches.len() > 0)
                &&& r.1@ == fired.filter(|t: Timer| !is_task_timer(t))
                &&& final(self).timers_spec() == insert_n(
                    old(self).timers_spec().skip(due(old(self).timers_spec(), now) as int),
                    next_task_timer(now),
                    switches.len(),
                )
            }),
    {
        self.tick = self.tick + 1;
        let now = self.tick;
        let ghost s = self.timers@;
        let ghost p = due(s, now) as int;
        let ghost tt = next_task_timer(now);
        proof {
            lemma_count_le_bound(s, now);
            lemma_count_le_sorted(s, now);
        }
        let len = self.timers.len();
        let mut task_timer_timeout = false;
        let mut fired: Vec<Timer> = Vec::new();
        let mut k: usize = 0;
        let mut n: usize = 0;
        loop
            invariant
                sorted(self.timers@),
                self.tick == now,
                now == old(self).tick + 1,
                now + TASK_TIMER_PERIOD <= u64::MAX,
                tt == next_task_timer(now),
                s == old(self).timers@,
                s.len() == len,
                sorted(s),
                0 <= p <= s.len(),
                forall|i: int| 0 <= i < p ==> #[trigger] s[i].timeout_spec() <= now,
                forall|i: int| p <= i < s.len() ==> #[trigger] s[i].timeout_spec() > now,
                0 <= k <= p,
                n as nat == s.take(k as int).filter(|t: Timer| is_task_timer(t)).len(),
                task_timer_timeout == (n > 0),
                fired@ == s.take(k as int).filter(|t: Timer| !is_task_timer(t)),
                self.timers@ == insert_n(s.skip(k as int), tt, n as nat),
            ensures
                k == p,
                n as nat == s.take(k as int).filter(|t: Timer| is_task_timer(t)).len(),
                task_timer_timeout == (n > 0),
                fired@ == s.take(k as int).filter(|t: Timer| !is_task_timer(t)),
                self.timers@ == insert_n(s.skip(k as int), tt, n as nat),
                sorted(self.timers@),
                self.tick == now,
            decreases p - k,
        {
            proof {
                lemma_insert_n_head(s.skip(k as int), tt, n as nat);
            }
            if self.timers.len() == 0 || self.timers[0].timeout > now {
                proof {
                    if k < p {
                        lemma_insert_n_front(s.skip(k as int), tt, n as nat);
                        assert(s.skip(k as int)[0] == s[k as int]);
                    }
                }
                break;
            }
            proof {
                if k == p {
                    if self.timers@[0] != tt {
                        assert(s.skip(k as int)[0] == s[k as int]);
                    }
                    assert(false);
                }
                assert(s.skip(k as int)[0] == s[k as int]);
                lemma_insert_n_front(s.skip(k as int), tt, n as nat);
                assert(s.skip(k as int).drop_first() =~= s.skip(k + 1));
                assert(s.take(k + 1).drop_last() =~= s.take(k as int));
                assert(s.take(k + 1).last() == s[k as int]);
                s.take(k as int).lemma_filter_push(s[k as int], |t: Timer| is_task_timer(t));
                s.take(k as int).lemma_filter_push(s[k as int], |t: Timer| !is_task_timer(t));
                assert(s.take(k as int).push(s[k as int]) =~= s.take(k + 1));
            }
            let t = self.timers.remove(0);
            k = k + 1;
            if t.value == TASK_TIMER_VALUE {
                task_timer_timeout = true;
                proof {
                    lemma_insert_n_sorted(s.skip(k as int), tt, n as nat);
                    lemma_insert_sorted(self.timers@, tt);
                }
                self.add_timer(Timer::new(now + TASK_TIMER_PERIOD, TASK_TIMER_VALUE, 0));
                n = n + 1;
            } else {
                fired.push(t);
            }
        }
        (task_timer_timeout, fired)
    }
}

/// The message that tells a task its timer `t` ran out.
pub open spec fn timeout_message(t: Timer) -> Message {
    Message { ty: MessageType::TimerTimeout { timeout: t.timeout_spec(), value: t.value_spec() }, src_task: 0 }
}

/// `ms` runs through the states of the task manager as the timeout
/// message of each of `ts` is delivered to its timer's task, in order.
pub open spec fn delivery_chain(ms: Seq<TaskManager>, ts: Seq<Timer>) -> bool {
    &&& ms.len() == ts.len() + 1
    &&& forall|i: int| 0 <= i < ts.len() ==> (#[trigger] ms[i]).wf()
        && ms[i].delivered(ms[i + 1], ts[i].task_id_spec(), timeout_message(ts[i]))
}

/// `b` is `a` after the timeout message of each of `ts` was delivered to
/// its timer's task, in order.
pub open spec fn delivered_all(a: TaskManager, b: TaskManager, ts: Seq<Timer>) -> bool {
    exists|ms: Seq<TaskManager>| #[trigger] delivery_chain(ms, ts) && ms[0] == a && ms.last() == b
}

/// `b` is `a` after a task switch on the timer: the task `prev` at the
/// front of the current queue, whose registers were `ctx`, went to the back
/// with them saved, and `next` runs now.
pub open spec fn switched(a: TaskManager, b: TaskManager, ctx: TaskContext, prev: u64, next: u64) -> bool {
    &&& prev == a.current_queue()[0]
    &&& b.queues() == TaskManager::rotated_queues(a.queues(), a.current_level_spec(), false)
    &&& b.current_level_spec() == TaskManager::rotated_level(a.queues(), a.current_level_spec(), a.level_changed_spec(), false)
    &&& !b.level_changed_spec()
    &&& next == b.current_queue()[0]
    &&& b.task(prev).context_spec() == ctx
    &&& b.tasks_spec().len() == a.tasks_spec().len()
    &&& forall|j: int| 0 <= j < a.tasks_spec().len() && j != task_index(a.tasks_spec(), prev)
        ==> #[trigger] b.tasks_spec()[j] == a.tasks_spec()[j]
    &&& b.latest_spec() == a.latest_spec()
    &&& b.waiters() == a.waiters()
    &&& b.finished() == a.finished()
}

/// Every element kept by a filter has a property that every element had.
proof fn lemma_filter_keeps(s: Seq<Timer>, q: spec_fn(Timer) -> bool, p: spec_fn(Timer) -> bool)
    requires
        forall|i: int| 0 <= i < s.len() ==> p(#[trigger] s[i]),
    ensures
        forall|i: int| 0 <= i < s.filter(q).len() ==> p(#[trigger] s.filter(q)[i]),
    decreases s.len(),
{
    reveal(Seq::filter);
    if s.len() > 0 {
        let d = s.drop_last();
        assert forall|i: int| 0 <= i < d.len() implies p(#[trigger] d[i]) by {
            assert(d[i] == s[i]);
        }
        lemma_filter_keeps(d, q, p);
        assert forall|i: int| 0 <= i < s.filter(q).len() implies p(#[trigger] s.filter(q)[i]) by {
            if i < d.filter(q).len() {
                assert(s.filter(q)[i] == d.filter(q)[i]);
            } else {
                assert(s.filter(q)[i] == s.last());
                assert(s.last() == s[s.len() - 1]);
            }
        }
    }
}

/// Sends each timer of `fired` its timeout message, in order; every
/// timer's task exists.
pub fn send_timeouts(tasks: &mut TaskManager, fired: &Vec<Timer>)
    requires
        old(tasks).wf(),
        forall|k: int| 0 <= k < fired@.len() ==> old(tasks).has_task(#[trigger] fired@[k].task_id_spec()),
    ensures
        final(tasks).wf(),
        delivered_all(*old(tasks), *final(tasks), fired@),
        forall|id: u64| #[trigger] final(tasks).has_task(id) == old(tasks).has_task(id),
        final(tasks).current_queue().len() >= old(tasks).current_queue().len(),
{
    let mut i: usize = 0;
    let ghost mut ms = seq![*tasks];
    while i < fired.len()
        invariant
            i <= fired@.len(),
            tasks.wf(),
            delivery_chain(ms, fired@.take(i as int)),
            ms[0] == *old(tasks),
            ms.last() == *tasks,
            forall|id: u64| #[trigger] tasks.has_task(id) == old(tasks).has_task(id),
            tasks.current_queue().len() >= old(tasks).current_queue().len(),
            forall|k: int| 0 <= k < fired@.len() ==> old(tasks).has_task(#[trigger] fired@[k].task_id_spec()),
        decreases fired@.len() - i,
    {
        let t = &fired[i];
        let msg = Message { ty: MessageType::TimerTimeout { timeout: t.timeout(), value: t.value() }, src_task: 0 };
        let ghost before = *tasks;
        proof {
            assert(tasks.has_task(fired@[i as int].task_id_spec()));
        }
        let res = tasks.send_message(t.task_id(), msg);
        proof {
            assert(res is Ok);
            before.lemma_delivered_keeps(*tasks, t.task_id_spec(), msg);
            let ts = fired@.take(i + 1);
            let ms2 = ms.push(*tasks);
            assert(msg == timeout_message(*t));
            assert forall|k: int| 0 <= k < ts.len() implies (#[trigger] ms2[k]).wf()
                && ms2[k].delivered(ms2[k + 1], ts[k].task_id_spec(), timeout_message(ts[k])) by {
                if k < i {
                    assert(ms2[k] == ms[k] && ms2[k + 1] == ms[k + 1]);
                    assert(ts[k] == fired@.take(i as int)[k]);
                } else {
                    assert(ms2[k] == before && ts[k] == *t);
                }
            }
            ms = ms2;
        }
        i = i + 1;
    }
    proof {
        assert(fired@.take(fired@.len() as int) =~= fired@);
        assert(delivery_chain(ms, fired@));
    }
}

/// The timer interrupt: advances the tick, sends each timer that ran out
/// (other than the task-switch timer) its timeout message, and switches
/// tasks when the task-switch timer ran out (setting it again). Gives the
/// timers that were sent a message, and the tasks switched from and to.
/// Every timer's task exists.
pub fn lapic_timer_on_interrupt(timers: &mut TimerManager, tasks: &mut TaskManager, ctx: &TaskContext) -> (r: (Vec<Timer>, Option<(u64, u64)>))
    requires
        old(timers).wf(),
        old(timers).tick_spec() + 1 + TASK_TIMER_PERIOD <= u64::MAX,
        old(tasks).wf(),
        old(tasks).current_queue().len() > 0,
        forall|k: int| 0 <= k < old(timers).timers_spec().len() && !is_task_timer(#[trigger] old(timers).timers_spec()[k])
            ==> old(tasks).has_task(old(timers).timers_spec()[k].task_id_spec()),
    ensures
        final(timers).wf(),
        final(tasks).wf(),
        final(timers).tick_spec() == old(timers).tick_spec() + 1,
        ({
            let now = final(timers).tick_spec();
            let fired = old(timers).timers_spec().take(due(old(timers).timers_spec(), now) as int);
            let switches = fired.filter(|t: Timer| is_task_timer(t));
            &&& r.0@ == fired.filter(|t: Timer| !is_task_timer(t))
            &&& final(timers).timers_spec() == insert_n(
                old(timers).timers_spec().skip(due(old(timers).timers_spec(), now) as int),
                next_task_timer(now),
                switches.len(),
            )
            &&& (r.1 is Some <==> switches.len() > 0)
        }),
        r.1 is None ==> delivered_all(*old(tasks), *final(tasks), r.0@),
        r.1 matches Some((prev, next)) ==> exists|mid: TaskManager| #[trigger] delivered_all(*old(tasks), mid, r.0@) && mid.wf()
            && switched(mid, *final(tasks), *ctx, prev, next),
{
    let ghost ts0 = timers.timers_spec();
    let (timeout, fired) = timers.tick();
    proof {
        let now = timers.tick_spec();
        let pre = ts0.take(due(ts0, now) as int);
        let p = |t: Timer| !is_task_timer(t) ==> old(tasks).has_task(t.task_id_spec());
        let q = |t: Timer| !is_task_timer(t);
        lemma_count_le_bound(ts0, now);
        assert forall|i: int| 0 <= i < pre.len() implies p(#[trigger] pre[i]) by {
            assert(pre[i] == ts0[i]);
        }
        lemma_filter_keeps(pre, q, p);
        assert forall|k: int| 0 <= k < fired@.len() implies old(tasks).has_task(#[trigger] fired@[k].task_id_spec()) by {
            assert(fired@[k] == pre.filter(q)[k]);
            pre.lemma_filter_pred(q, k);
        }
    }
    send_timeouts(tasks, &fired);
    let ghost mid = *tasks;
    if timeout {
        let (prev, next) = tasks.switch_task(ctx);
        proof {
            assert(switched(mid, *tasks, *ctx, prev, next));
        }
        (fired, Some((prev, next)))
    } else {
        (fired, None)
    }
}

} // verus!

//! The pids that a scheduler holds, counted as a multiset, and how the
//! moves between its queues keep them.

use vstd::prelude::*;
use vstd::multiset::Multiset;

use crate::process_control_block::PcbView;
use crate::scheduler_info::{awoken, released, still_asleep, still_waiting, SchedModel};
use crate::StopReason;

verus! {

/// The pids of a sequence of blocks.
pub open spec fn pids_of(s: Seq<PcbView>) -> Multiset<usize>
    decreases s.len(),
{
    if s.len() == 0 {
        Multiset::empty()
    } else {
        pids_of(s.drop_last()).insert(s.last().pid)
    }
}

/// The pids of a sequence of sleeping entries.
pub open spec fn sleeper_pids(s: Seq<(PcbView, usize, usize)>) -> Multiset<usize>
    decreases s.len(),
{
    if s.len() == 0 {
        Multiset::empty()
    } else {
        sleeper_pids(s.drop_last()).insert(s.last().0.pid)
    }
}

/// The pids of a sequence of waiting entries.
pub open spec fn waiter_pids(s: Seq<(PcbView, usize)>) -> Multiset<usize>
    decreases s.len(),
{
    if s.len() == 0 {
        Multiset::empty()
    } else {
        waiter_pids(s.drop_last()).insert(s.last().0.pid)
    }
}

/// The pid of an optional running process.
pub open spec fn running_pids(r: Option<PcbView>) -> Multiset<usize> {
    match r {
        Some(p) => Multiset::singleton(p.pid),
        None => Multiset::empty(),
    }
}

/// No pid occurs twice in `bag`, and each is below `next_pid`.
pub open spec fn unique_below(bag: Multiset<usize>, next_pid: usize) -> bool {
    forall|p: usize| #[trigger] bag.count(p) > 0 ==> bag.count(p) == 1 && p < next_pid
}

impl SchedModel {
    /// The pids of every process the scheduler holds.
    pub open spec fn pids(self) -> Multiset<usize> {
        running_pids(self.running).add(pids_of(self.ready)).add(sleeper_pids(self.sleeping)).add(
            waiter_pids(self.waiting),
        )
    }

    /// Every process has its own pid, below the next one to be given.
    pub open spec fn pids_unique(self) -> bool {
        unique_below(self.pids(), self.next_pid)
    }
}

/// A single pid added to a bag is the bag with that pid inserted.
pub proof fn lemma_singleton_add(p: usize, bag: Multiset<usize>)
    ensures
        Multiset::singleton(p).add(bag) =~= bag.insert(p),
{
    assert forall|q: usize| #[trigger] Multiset::singleton(p).add(bag).count(q) == bag.insert(p).count(q) by {
        if q == p {
            assert(Multiset::singleton(p).count(q) == 1);
        } else {
            assert(Multiset::singleton(p).count(q) == 0);
        }
    }
}

/// Adding three bags in the reverse order gives the same bag.
pub proof fn lemma_add_reverse(a: Multiset<usize>, b: Multiset<usize>, c: Multiset<usize>)
    ensures
        a.add(b).add(c) =~= c.add(b).add(a),
{
    assert forall|x: usize| #[trigger] a.add(b).add(c).count(x) == c.add(b).add(a).count(x) by {
        assert(a.add(b).count(x) == a.count(x) + b.count(x));
        assert(c.add(b).count(x) == c.count(x) + b.count(x));
    }
}

/// Adding bags is associative.
pub proof fn lemma_add_assoc(a: Multiset<usize>, b: Multiset<usize>, c: Multiset<usize>)
    ensures
        a.add(b).add(c) =~= a.add(b.add(c)),
{
    assert forall|x: usize| #[trigger] a.add(b).add(c).count(x) == a.add(b.add(c)).count(x) by {
        assert(a.add(b).count(x) == a.count(x) + b.count(x));
        assert(b.add(c).count(x) == b.count(x) + c.count(x));
    }
}

/// A bag that, with `a` added, equals `q` with `a` and `x` added, is `q`
/// with `x` inserted.
pub proof fn lemma_cancel_insert(l: Multiset<usize>, q: Multiset<usize>, a: Multiset<usize>, x: usize)
    requires
        l.add(a) =~= q.add(a.insert(x)),
    ensures
        l =~= q.insert(x),
{
    assert forall|v: usize| #[trigger] l.count(v) == q.insert(x).count(v) by {
        assert(l.add(a).count(v) == q.add(a.insert(x)).count(v));
    }
}

/// A bag that, with `d` and `y` added, equals `q` with `d` added, is `q`
/// less `y`: with `y` added it is `q`.
pub proof fn lemma_cancel_shift(l: Multiset<usize>, q: Multiset<usize>, d: Multiset<usize>, y: usize)
    requires
        l.add(d.insert(y)) =~= q.add(d),
    ensures
        Multiset::singleton(y).add(l) =~= q,
{
    assert forall|v: usize| #[trigger] Multiset::singleton(y).add(l).count(v) == q.count(v) by {
        assert(l.add(d.insert(y)).count(v) == q.add(d).count(v));
        if v == y {
            assert(Multiset::singleton(y).count(v) == 1);
        } else {
            assert(Multiset::singleton(y).count(v) == 0);
        }
    }
}

/// Taking the pid of the running process out of all the pids leaves those
/// of the other processes.
pub proof fn lemma_running_out(p: usize, a: Multiset<usize>, b: Multiset<usize>, c: Multiset<usize>)
    ensures
        Multiset::singleton(p).add(a).add(b).add(c).remove(p) =~= Multiset::<usize>::empty().add(a).add(
            b,
        ).add(c),
{
    let all = Multiset::singleton(p).add(a).add(b).add(c);
    assert forall|v: usize| #[trigger] all.remove(p).count(v) == Multiset::<usize>::empty().add(a).add(
        b,
    ).add(c).count(v) by {
        if v == p {
            assert(Multiset::singleton(p).count(v) == 1);
        } else {
            assert(Multiset::singleton(p).count(v) == 0);
        }
    }
}

/// Moving a pid from the running process into one of the other bags keeps
/// all the pids.
pub proof fn lemma_running_in(p: usize, a: Multiset<usize>, b: Multiset<usize>, c: Multiset<usize>)
    ensures
        Multiset::<usize>::empty().add(a.insert(p)).add(b).add(c) =~= Multiset::singleton(p).add(a).add(
            b,
        ).add(c),
{
    assert forall|v: usize| #[trigger] Multiset::<usize>::empty().add(a.insert(p)).add(b).add(c).count(v)
        == Multiset::singleton(p).add(a).add(b).add(c).count(v) by {
        if v == p {
            assert(Multiset::singleton(p).count(v) == 1);
        } else {
            assert(Multiset::singleton(p).count(v) == 0);
        }
    }
}

/// Inserting a pid into the second of four bags inserts it into their sum.
pub proof fn lemma_insert_second(
    r: Multiset<usize>,
    a: Multiset<usize>,
    b: Multiset<usize>,
    c: Multiset<usize>,
    v: usize,
)
    ensures
        r.add(a.insert(v)).add(b).add(c) =~= r.add(a).add(b).add(c).insert(v),
{
}

/// Moving a pid from the running process into the third of the other bags
/// keeps all the pids.
pub proof fn lemma_running_to_third(p: usize, a: Multiset<usize>, b: Multiset<usize>, c: Multiset<usize>)
    ensures
        Multiset::<usize>::empty().add(a).add(b.insert(p)).add(c) =~= Multiset::singleton(p).add(a).add(
            b,
        ).add(c),
{
    assert forall|v: usize| #[trigger] Multiset::<usize>::empty().add(a).add(b.insert(p)).add(c).count(v)
        == Multiset::singleton(p).add(a).add(b).add(c).count(v) by {
        if v == p {
            assert(Multiset::singleton(p).count(v) == 1);
        } else {
            assert(Multiset::singleton(p).count(v) == 0);
        }
    }
}

/// Moving a pid from the running process into the last of the other bags
/// keeps all the pids.
pub proof fn lemma_running_to_last(p: usize, a: Multiset<usize>, b: Multiset<usize>, c: Multiset<usize>)
    ensures
        Multiset::<usize>::empty().add(a).add(b).add(c.insert(p)) =~= Multiset::singleton(p).add(a).add(
            b,
        ).add(c),
{
    assert forall|v: usize| #[trigger] Multiset::<usize>::empty().add(a).add(b).add(c.insert(p)).count(v)
        == Multiset::singleton(p).add(a).add(b).add(c).count(v) by {
        if v == p {
            assert(Multiset::singleton(p).count(v) == 1);
        } else {
            assert(Multiset::singleton(p).count(v) == 0);
        }
    }
}

/// The pids of a concatenation are those of both parts.
pub proof fn lemma_pids_of_add(a: Seq<PcbView>, b: Seq<PcbView>)
    ensures
        pids_of(a + b) =~= pids_of(a).add(pids_of(b)),
    decreases b.len(),
{
    if b.len() > 0 {
        lemma_pids_of_add(a, b.drop_last());
        assert((a + b).drop_last() =~= a + b.drop_last());
        assert((a + b).last() == b.last());
    } else {
        assert(a + b =~= a);
    }
}

/// Pushing a block adds its pid.
pub proof fn lemma_pids_of_push(s: Seq<PcbView>, b: PcbView)
    ensures
        pids_of(s.push(b)) =~= pids_of(s).insert(b.pid),
{
    assert(s.push(b).drop_last() =~= s);
}

/// Taking the first block out removes its pid.
pub proof fn lemma_pids_of_drop_first(s: Seq<PcbView>)
    requires
        s.len() > 0,
    ensures
        pids_of(s) =~= pids_of(s.drop_first()).insert(s[0].pid),
{
    let one = seq![s[0]];
    assert(s =~= one + s.drop_first());
    lemma_pids_of_add(one, s.drop_first());
    assert(one.drop_last() =~= Seq::<PcbView>::empty());
    assert(pids_of(one.drop_last()) == Multiset::<usize>::empty());
    assert(one.last() == s[0]);
    assert(pids_of(one) =~= Multiset::<usize>::empty().insert(s[0].pid));
    assert(pids_of(one).add(pids_of(s.drop_first())) =~= pids_of(s.drop_first()).insert(s[0].pid));
}

/// Taking the block at `k` out removes its pid.
pub proof fn lemma_pids_of_remove(s: Seq<PcbView>, k: int)
    requires
        0 <= k < s.len(),
    ensures
        pids_of(s) =~= pids_of(s.remove(k)).insert(s[k].pid),
{
    let a = s.subrange(0, k);
    let b = s.subrange(k + 1, s.len() as int);
    assert(s =~= a.push(s[k]) + b);
    assert(s.remove(k) =~= a + b);
    lemma_pids_of_add(a.push(s[k]), b);
    lemma_pids_of_add(a, b);
    lemma_pids_of_push(a, s[k]);
}

/// Two sequences with the same pids at each position have the same pids.
pub proof fn lemma_pids_of_same(s: Seq<PcbView>, t: Seq<PcbView>)
    requires
        s.len() == t.len(),
        forall|i: int| 0 <= i < s.len() ==> #[trigger] s[i].pid == t[i].pid,
    ensures
        pids_of(s) == pids_of(t),
    decreases s.len(),
{
    if s.len() > 0 {
        assert(s.drop_last().len() == t.drop_last().len());
        assert forall|i: int| 0 <= i < s.drop_last().len() implies #[trigger] s.drop_last()[i].pid
            == t.drop_last()[i].pid by {
            assert(s[i].pid == t[i].pid);
        }
        lemma_pids_of_same(s.drop_last(), t.drop_last());
        assert(s.last().pid == t.last().pid);
    }
}

/// Two sequences of sleeping entries with the same pids at each position
/// have the same pids.
pub proof fn lemma_sleeper_pids_same(s: Seq<(PcbView, usize, usize)>, t: Seq<(PcbView, usize, usize)>)
    requires
        s.len() == t.len(),
        forall|i: int| 0 <= i < s.len() ==> #[trigger] s[i].0.pid == t[i].0.pid,
    ensures
        sleeper_pids(s) == sleeper_pids(t),
    decreases s.len(),
{
    if s.len() > 0 {
        assert forall|i: int| 0 <= i < s.drop_last().len() implies #[trigger] s.drop_last()[i].0.pid
            == t.drop_last()[i].0.pid by {
            assert(s[i].0.pid == t[i].0.pid);
        }
        lemma_sleeper_pids_same(s.drop_last(), t.drop_last());
        assert(s.last().0.pid == t.last().0.pid);
    }
}

/// Two sequences of waiting entries with the same pids at each position
/// have the same pids.
pub proof fn lemma_waiter_pids_same(s: Seq<(PcbView, usize)>, t: Seq<(PcbView, usize)>)
    requires
        s.len() == t.len(),
        forall|i: int| 0 <= i < s.len() ==> #[trigger] s[i].0.pid == t[i].0.pid,
    ensures
        waiter_pids(s) == waiter_pids(t),
    decreases s.len(),
{
    if s.len() > 0 {
        assert forall|i: int| 0 <= i < s.drop_last().len() implies #[trigger] s.drop_last()[i].0.pid
            == t.drop_last()[i].0.pid by {
            assert(s[i].0.pid == t[i].0.pid);
        }
        lemma_waiter_pids_same(s.drop_last(), t.drop_last());
        assert(s.last().0.pid == t.last().0.pid);
    }
}

/// Pushing a sleeping entry adds its pid.
pub proof fn lemma_sleeper_pids_push(s: Seq<(PcbView, usize, usize)>, e: (PcbView, usize, usize))
    ensures
        sleeper_pids(s.push(e)) =~= sleeper_pids(s).insert(e.0.pid),
{
    assert(s.push(e).drop_last() =~= s);
}

/// Pushing a waiting entry adds its pid.
pub proof fn lemma_waiter_pids_push(s: Seq<(PcbView, usize)>, e: (PcbView, usize))
    ensures
        waiter_pids(s.push(e)) =~= waiter_pids(s).insert(e.0.pid),
{
    assert(s.push(e).drop_last() =~= s);
}

/// The sleepers split into those that wake and those that sleep on.
pub proof fn lemma_sleepers_split(s: Seq<(PcbView, usize, usize)>)
    ensures
        sleeper_pids(s) =~= pids_of(awoken(s)).add(sleeper_pids(still_asleep(s))),
    decreases s.len(),
{
    if s.len() > 0 {
        let t = s.drop_last();
        lemma_sleepers_split(t);
        if s.last().2 == 0 {
            assert(awoken(s).drop_last() =~= awoken(t));
        } else {
            assert(still_asleep(s).drop_last() =~= still_asleep(t));
        }
    }
}

/// The waiters split into those released by `event` and those that wait on.
pub proof fn lemma_waiters_split(s: Seq<(PcbView, usize)>, event: usize)
    ensures
        waiter_pids(s) =~= pids_of(released(s, event)).add(waiter_pids(still_waiting(s, event))),
    decreases s.len(),
{
    if s.len() > 0 {
        let t = s.drop_last();
        lemma_waiters_split(t, event);
        if s.last().1 == event {
            assert(released(s, event).drop_last() =~= released(t, event));
        } else {
            assert(still_waiting(s, event).drop_last() =~= still_waiting(t, event));
        }
    }
}

/// Waking the sleepers whose time is over keeps the pids.
pub proof fn lemma_awakened_pids(m: SchedModel)
    ensures
        m.awakened().pids() =~= m.pids(),
{
    lemma_pids_of_add(m.ready, awoken(m.sleeping));
    lemma_sleepers_split(m.sleeping);
}

/// Releasing the processes waiting for `event` keeps the pids.
pub proof fn lemma_unblocked_pids(m: SchedModel, event: usize)
    ensures
        m.unblocked(event).pids() =~= m.pids(),
{
    lemma_pids_of_add(m.ready, released(m.waiting, event));
    lemma_waiters_split(m.waiting, event);
}

/// Checking the sleeping times keeps the pids.
pub proof fn lemma_woken_pids(m: SchedModel)
    ensures
        m.woken().pids() == m.pids(),
{
    lemma_sleeper_pids_same(m.woken().sleeping, m.sleeping);
}

/// Computing the time of existence of every process keeps the pids.
pub proof fn lemma_aged_all_pids(m: SchedModel)
    ensures
        m.aged_all().pids() == m.pids(),
{
    let a = m.aged_all();
    assert forall|i: int| 0 <= i < a.ready.len() implies #[trigger] a.ready[i].pid == m.ready[i].pid by {}
    lemma_pids_of_same(a.ready, m.ready);
    lemma_sleeper_pids_same(a.sleeping, m.sleeping);
    lemma_waiter_pids_same(a.waiting, m.waiting);
}

/// Accounting for the stop of the running process keeps the pids.
pub proof fn lemma_stopped_pids(m: SchedModel, remaining: usize, reason: StopReason)
    ensures
        m.stopped(remaining, reason).pids() == m.pids(),
{
}

/// The clock moving, or the scheduler waking from its sleep, keeps the pids.
pub proof fn lemma_slept_out_pids(m: SchedModel, time: int)
    ensures
        m.slept_out().pids() == m.pids(),
        m.skipped(time).pids() == m.pids(),
{
}

/// Creating a process adds the next pid.
pub proof fn lemma_forked_pids(m: SchedModel, prio: i8, vruntime: Option<usize>)
    ensures
        m.forked(prio, vruntime).pids() =~= m.pids().insert(m.next_pid),
{
    let f = m.forked(prio, vruntime);
    lemma_pids_of_push(m.ready, f.ready.last());
    assert(f.ready =~= m.ready.push(f.ready.last()));
}

/// A pid below `next_pid` that is added to a bag of unique pids below it
/// and not in it leaves them unique below the following pid.
pub proof fn lemma_unique_insert(bag: Multiset<usize>, next_pid: usize)
    requires
        unique_below(bag, next_pid),
        next_pid < usize::MAX,
    ensures
        unique_below(bag.insert(next_pid), (next_pid + 1) as usize),
{
    assert forall|p: usize| #[trigger] bag.insert(next_pid).count(p) > 0 implies bag.insert(next_pid).count(p)
        == 1 && p < next_pid + 1 by {
        if p != next_pid {
            assert(bag.count(p) > 0);
        } else {
            if bag.count(p) > 0 {
                assert(p < next_pid);
            }
        }
    }
}

/// Taking a pid out of a bag of unique pids keeps them unique.
pub proof fn lemma_unique_remove(bag: Multiset<usize>, next_pid: usize, p: usize)
    requires
        unique_below(bag, next_pid),
    ensures
        unique_below(bag.remove(p), next_pid),
{
    assert forall|q: usize| #[trigger] bag.remove(p).count(q) > 0 implies bag.remove(p).count(q) == 1
        && q < next_pid by {
        assert(bag.count(q) > 0);
    }
}

} // verus!

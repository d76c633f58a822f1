//! The ready queues of the priority schedulers: one queue per priority,
//! kept in a hash map from the priority to its queue.

use vstd::prelude::*;

use std::collections::{HashMap, VecDeque};

use crate::common_types::{MAX_PRIO, MIN_PRIO};
use crate::process_control_block::PcbView;
use crate::scheduler_info::aged;
use crate::{PrioRoundRobinPCB, Timestamp};

verus! {

/// The blocks of a sequence of priority processes.
pub open spec fn prio_blocks(s: Seq<PrioRoundRobinPCB>) -> Seq<PcbView> {
    s.map_values(|p: PrioRoundRobinPCB| p@)
}

/// The queues as plain values.
pub open spec fn queues_of(m: Map<i8, VecDeque<PrioRoundRobinPCB>>) -> Map<i8, Seq<PcbView>> {
    m.map_values(|q: VecDeque<PrioRoundRobinPCB>| prio_blocks(q@))
}

/// The queue of priority `p`: empty when there is none.
pub open spec fn queue_at(q: Map<i8, Seq<PcbView>>, p: i8) -> Seq<PcbView> {
    if q.contains_key(p) {
        q[p]
    } else {
        Seq::empty()
    }
}

/// The highest priority from `p` down to `MIN_PRIO` whose queue is not
/// empty.
pub open spec fn search_ready(q: Map<i8, Seq<PcbView>>, p: int) -> Option<i8>
    decreases p + 1 - MIN_PRIO,
{
    if p < MIN_PRIO || p > MAX_PRIO {
        None
    } else if queue_at(q, p as i8).len() > 0 {
        Some(p as i8)
    } else {
        search_ready(q, p - 1)
    }
}

/// The highest priority from `MAX_PRIO` down to `MIN_PRIO` whose queue is
/// not empty: the queue served next.
pub open spec fn highest_ready(q: Map<i8, Seq<PcbView>>) -> Option<i8> {
    search_ready(q, MAX_PRIO as int)
}

/// The processes of the queues of priority `p` and below, highest priority
/// first, each queue in order.
pub open spec fn listed_from(m: Map<i8, VecDeque<PrioRoundRobinPCB>>, p: int) -> Seq<PrioRoundRobinPCB>
    decreases p + 129,
{
    if p < -128 || p > 127 {
        Seq::empty()
    } else {
        let here = if m.contains_key(p as i8) {
            m[p as i8]@
        } else {
            Seq::empty()
        };
        here + listed_from(m, p - 1)
    }
}

/// Every ready process, highest priority first, each queue in order.
pub open spec fn listed(m: Map<i8, VecDeque<PrioRoundRobinPCB>>) -> Seq<PrioRoundRobinPCB> {
    listed_from(m, 127)
}

/// The blocks of the queues of priority `p` and below, highest priority
/// first, each queue in order.
pub open spec fn listed_views_from(q: Map<i8, Seq<PcbView>>, p: int) -> Seq<PcbView>
    decreases p + 129,
{
    if p < -128 || p > 127 {
        Seq::empty()
    } else {
        queue_at(q, p as i8) + listed_views_from(q, p - 1)
    }
}

/// The blocks of every ready process, highest priority first, each queue in
/// order.
pub open spec fn listed_views(q: Map<i8, Seq<PcbView>>) -> Seq<PcbView> {
    listed_views_from(q, 127)
}

/// The blocks of the listed processes are the listed blocks.
pub proof fn lemma_listed_blocks(m: Map<i8, VecDeque<PrioRoundRobinPCB>>, p: int)
    ensures
        prio_blocks(listed_from(m, p)) == listed_views_from(queues_of(m), p),
    decreases p + 129,
{
    if -128 <= p <= 127 {
        lemma_listed_blocks(m, p - 1);
        let here = if m.contains_key(p as i8) {
            m[p as i8]@
        } else {
            Seq::empty()
        };
        assert(prio_blocks(here) =~= queue_at(queues_of(m), p as i8));
        assert(prio_blocks(listed_from(m, p)) =~= prio_blocks(here) + prio_blocks(listed_from(m, p - 1)));
    } else {
        assert(prio_blocks(listed_from(m, p)) =~= Seq::<PcbView>::empty());
    }
}

/// The queues after the time of existence of the processes of the served
/// priorities is computed at moment `now`.
pub open spec fn aged_queues(q: Map<i8, Seq<PcbView>>, now: usize) -> Map<i8, Seq<PcbView>> {
    q.map_entries(
        |k: i8, s: Seq<PcbView>|
            if MIN_PRIO <= k <= MAX_PRIO {
                s.map_values(|b: PcbView| aged(b, now))
            } else {
                s
            },
    )
}

/// Every process in a queue of a served priority was created before `now`.
pub open spec fn served_before(q: Map<i8, Seq<PcbView>>, now: usize) -> bool {
    forall|k: i8, i: int|
        MIN_PRIO <= k <= MAX_PRIO && q.contains_key(k) && 0 <= i < q[k].len() ==> #[trigger] q[k][i].arrival
            < now
}

/// Puts `proc` at the end of the queue of its priority, creating the queue
/// when there is none.
pub fn push_ready(ready: &mut HashMap<i8, VecDeque<PrioRoundRobinPCB>>, proc: PrioRoundRobinPCB)
    ensures
        queues_of(final(ready)@) == queues_of(old(ready)@).insert(
            proc.priority,
            queue_at(queues_of(old(ready)@), proc.priority).push(proc@),
        ),
{
    broadcast use vstd::std_specs::hash::group_hash_axioms;

    let prio = proc.priority;
    if let Some(mut queue) = ready.remove(&prio) {
        let ghost q0 = queue@;
        assert(prio_blocks(q0) == queue_at(queues_of(old(ready)@), proc.priority));
        queue.push_back(proc);
        assert(prio_blocks(queue@) =~= prio_blocks(q0).push(proc@));
        ready.insert(prio, queue);
        assert(queues_of(ready@) =~= queues_of(old(ready)@).insert(
            proc.priority,
            queue_at(queues_of(old(ready)@), proc.priority).push(proc@),
        ));
        return ;
    }
    let mut queue: VecDeque<PrioRoundRobinPCB> = VecDeque::new();
    queue.push_back(proc);
    assert(prio_blocks(queue@) =~= Seq::<PcbView>::empty().push(proc@));
    assert(queue_at(queues_of(old(ready)@), proc.priority) =~= Seq::<PcbView>::empty());
    ready.insert(prio, queue);
    assert(queues_of(ready@) =~= queues_of(old(ready)@).insert(
        proc.priority,
        queue_at(queues_of(old(ready)@), proc.priority).push(proc@),
    ));
}

/// Takes the first process out of the queue of the highest served priority
/// that has one.
pub fn pop_highest(ready: &mut HashMap<i8, VecDeque<PrioRoundRobinPCB>>) -> (r: Option<
    PrioRoundRobinPCB,
>)
    ensures
        match highest_ready(queues_of(old(ready)@)) {
            Some(p) => {
                &&& r matches Some(x) && x@ == queue_at(queues_of(old(ready)@), p)[0]
                &&& queues_of(final(ready)@) == queues_of(old(ready)@).insert(
                    p,
                    queue_at(queues_of(old(ready)@), p).drop_first(),
                )
            },
            None => r is None && queues_of(final(ready)@) == queues_of(old(ready)@),
        },
{
    broadcast use vstd::std_specs::hash::group_hash_axioms;

    let ghost q = queues_of(ready@);
    let mut i: i8 = MAX_PRIO;
    loop
        invariant
            MIN_PRIO <= i <= MAX_PRIO,
            queues_of(ready@) == q,
            q == queues_of(old(ready)@),
            highest_ready(q) == search_ready(q, i as int),
        decreases i - MIN_PRIO,
    {
        let ghost before = ready@;
        if let Some(mut queue) = ready.remove(&i) {
            if queue.len() == 0 {
                ready.insert(i, queue);
                assert(ready@ =~= before);
            } else {
                let ghost q0 = queue@;
                assert(prio_blocks(q0) == queue_at(q, i));
                let p = queue.pop_front();
                assert(prio_blocks(queue@) =~= prio_blocks(q0).drop_first());
                ready.insert(i, queue);
                assert(queues_of(ready@) =~= q.insert(i, queue_at(q, i).drop_first()));
                return p;
            }
        } else {
            assert(ready@ =~= before);
        }
        if i == MIN_PRIO {
            return None;
        }
        i = i - 1;
    }
}

/// Whether a queue of a served priority holds a process.
pub fn any_ready(ready: &HashMap<i8, VecDeque<PrioRoundRobinPCB>>) -> (r: bool)
    ensures
        r == highest_ready(queues_of(ready@)) is Some,
{
    broadcast use vstd::std_specs::hash::group_hash_axioms;

    let ghost q = queues_of(ready@);
    let mut i: i8 = MAX_PRIO;
    loop
        invariant
            MIN_PRIO <= i <= MAX_PRIO,
            q == queues_of(ready@),
            highest_ready(q) == search_ready(q, i as int),
        decreases i - MIN_PRIO,
    {
        if let Some(queue) = ready.get(&i) {
            if queue.len() > 0 {
                return true;
            }
            assert(queue_at(q, i).len() == 0);
        }
        assert(queue_at(q, i).len() == 0);
        if i == MIN_PRIO {
            assert(search_ready(q, i - 1) is None);
            return false;
        }
        i = i - 1;
    }
}

/// Lists every ready process, highest priority first, each queue in order.
pub fn list_ready(ready: &HashMap<i8, VecDeque<PrioRoundRobinPCB>>) -> (r: Vec<PrioRoundRobinPCB>)
    ensures
        r@ == listed(ready@),
{
    broadcast use vstd::std_specs::hash::group_hash_axioms;

    let mut procs: Vec<PrioRoundRobinPCB> = Vec::new();
    let mut p: i16 = 127;
    while p >= -128
        invariant
            -129 <= p <= 127,
            procs@ + listed_from(ready@, p as int) == listed(ready@),
        decreases p + 129,
    {
        let key = p as i8;
        if let Some(queue) = ready.get(&key) {
            let n = queue.len();
            let mut j: usize = 0;
            let ghost start = procs@;
            while j < n
                invariant
                    0 <= j <= n,
                    n == queue@.len(),
                    procs@ == start + queue@.take(j as int),
                decreases n - j,
            {
                procs.push(queue[j]);
                j = j + 1;
                assert(procs@ =~= start + queue@.take(j as int));
            }
            assert(queue@.take(n as int) =~= queue@);
            assert(procs@ + listed_from(ready@, p - 1) =~= start + listed_from(ready@, p as int));
        } else {
            assert(listed_from(ready@, p as int) =~= listed_from(ready@, p - 1));
        }
        p = p - 1;
    }
    assert(listed_from(ready@, -129) =~= Seq::<PrioRoundRobinPCB>::empty());
    assert(procs@ =~= listed(ready@));
    procs
}

/// Computes, at moment `now`, the time of existence of every process of
/// `q`.
fn age_prio_queue(q: &mut VecDeque<PrioRoundRobinPCB>, now: Timestamp)
    requires
        forall|k: int| 0 <= k < prio_blocks(old(q)@).len() ==> #[trigger] prio_blocks(old(q)@)[k].arrival
            < now@,
    ensures
        prio_blocks(final(q)@) == prio_blocks(old(q)@).map_values(|b: PcbView| aged(b, now@)),
{
    let n = q.len();
    let ghost before = prio_blocks(q@);
    let mut i: usize = 0;
    while i < n
        invariant
            0 <= i <= n,
            n == before.len(),
            q@.len() == n,
            before == prio_blocks(old(q)@),
            forall|k: int| 0 <= k < n ==> #[trigger] before[k].arrival < now@,
            prio_blocks(q@) == before.subrange(i as int, n as int) + before.subrange(0, i as int).map_values(
                |b: PcbView| aged(b, now@),
            ),
        decreases n - i,
    {
        let ghost cur = prio_blocks(q@);
        let ghost prefix = before.subrange(0, i as int).map_values(|b: PcbView| aged(b, now@));
        let mut item = q.pop_front().unwrap();
        assert(item@ == cur[0]);
        assert(cur[0] == before[i as int]);
        assert(prio_blocks(q@) =~= cur.subrange(1, n as int));
        assert(cur.subrange(1, n as int) =~= before.subrange(i + 1, n as int) + prefix);
        let ghost mid = prio_blocks(q@);
        item.total_time = now.get() - item.arrival_time.get() - 1;
        assert(item@ == aged(before[i as int], now@));
        q.push_back(item);
        assert(prio_blocks(q@) =~= mid.push(item@));
        assert(prefix.push(aged(before[i as int], now@)) =~= before.subrange(0, i + 1).map_values(
            |b: PcbView| aged(b, now@),
        ));
        i = i + 1;
        assert(prio_blocks(q@) =~= before.subrange(i as int, n as int) + before.subrange(
            0,
            i as int,
        ).map_values(|b: PcbView| aged(b, now@)));
    }
    assert(before.subrange(0, n as int) =~= before);
    assert(prio_blocks(q@) =~= before.map_values(|b: PcbView| aged(b, now@)));
}

/// Computes, at moment `now`, the time of existence of every process in the
/// queues of the served priorities.
pub fn age_ready(ready: &mut HashMap<i8, VecDeque<PrioRoundRobinPCB>>, now: Timestamp)
    requires
        served_before(queues_of(old(ready)@), now@),
    ensures
        queues_of(final(ready)@) == aged_queues(queues_of(old(ready)@), now@),
{
    broadcast use vstd::std_specs::hash::group_hash_axioms;

    let ghost q = queues_of(ready@);
    let mut i: i8 = MAX_PRIO;
    loop
        invariant
            MIN_PRIO <= i <= MAX_PRIO,
            q == queues_of(old(ready)@),
            served_before(q, now@),
            queues_of(ready@).dom() == q.dom(),
            forall|k: i8|
                #[trigger] q.contains_key(k) ==> queues_of(ready@)[k] == if i < k <= MAX_PRIO {
                    q[k].map_values(|b: PcbView| aged(b, now@))
                } else {
                    q[k]
                },
        decreases i - MIN_PRIO,
    {
        let ghost before = ready@;
        if let Some(mut queue) = ready.remove(&i) {
            proof {
                assert(q.contains_key(i));
                assert forall|k: int| 0 <= k < prio_blocks(queue@).len() implies #[trigger] prio_blocks(
                    queue@,
                )[k].arrival < now@ by {
                    assert(prio_blocks(queue@)[k] == q[i][k]);
                }
            }
            age_prio_queue(&mut queue, now);
            ready.insert(i, queue);
        }
        proof {
            assert(queues_of(ready@).dom() =~= q.dom());
        }
        if i == MIN_PRIO {
            assert(queues_of(ready@) =~= aged_queues(q, now@));
            return ;
        }
        i = i - 1;
    }
}

} // verus!

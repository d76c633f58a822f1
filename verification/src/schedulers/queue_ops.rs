//! Operations on the sleeping and waiting lists, shared by the schedulers:
//! a sleeping entry is a process with the moment it fell asleep and its
//! sleeping time, a waiting entry a process with its event.

use vstd::prelude::*;

use crate::process_control_block::PcbView;
use crate::scheduler_info::{
    awoken, least_time_to_wake, readied, released, still_asleep, still_waiting, time_to_wake,
    woken_entry,
};
use crate::{Event, Timestamp};

verus! {

/// The sleeping entries as plain values.
pub open spec fn sleep_views<T: View<V = PcbView>>(s: Seq<(T, Timestamp, usize)>) -> Seq<
    (PcbView, usize, usize),
> {
    s.map_values(|e: (T, Timestamp, usize)| (e.0@, e.1@, e.2))
}

/// The waiting entries as plain values.
pub open spec fn wait_views<T: View<V = PcbView>>(s: Seq<(T, Event)>) -> Seq<(PcbView, usize)> {
    s.map_values(|e: (T, Event)| (e.0@, e.1@))
}

/// The blocks of processes put in a ready queue.
pub open spec fn readied_views<T: View<V = PcbView>>(s: Seq<T>) -> Seq<PcbView> {
    s.map_values(|p: T| readied(p@))
}

/// Splits the sleeping entries into those that still sleep and the
/// processes whose sleeping time is over, each group in order.
pub fn split_sleepers<T: View<V = PcbView> + Copy>(v: &Vec<(T, Timestamp, usize)>) -> (r: (
    Vec<(T, Timestamp, usize)>,
    Vec<T>,
))
    ensures
        sleep_views(r.0@) == still_asleep(sleep_views(v@)),
        readied_views(r.1@) == awoken(sleep_views(v@)),
{
    let ghost s = sleep_views(v@);
    let mut keep: Vec<(T, Timestamp, usize)> = Vec::new();
    let mut procs: Vec<T> = Vec::new();
    let n = v.len();
    let mut i: usize = 0;
    while i < n
        invariant
            0 <= i <= n,
            n == v@.len(),
            s == sleep_views(v@),
            sleep_views(keep@) == still_asleep(s.take(i as int)),
            readied_views(procs@) == awoken(s.take(i as int)),
        decreases n - i,
    {
        let item = v[i];
        assert(s.take(i + 1).drop_last() =~= s.take(i as int));
        assert(s.take(i + 1).last() == (item.0@, item.1@, item.2));
        if item.2 == 0 {
            procs.push(item.0);
            assert(readied_views(procs@) =~= awoken(s.take(i as int)).push(readied(item.0@)));
        } else {
            keep.push(item);
            assert(sleep_views(keep@) =~= still_asleep(s.take(i as int)).push(
                (item.0@, item.1@, item.2),
            ));
        }
        i = i + 1;
    }
    assert(s.take(n as int) =~= s);
    (keep, procs)
}

/// Splits the waiting entries into those that wait for another event and
/// the processes waiting for `event`, each group in order.
pub fn split_waiters<T: View<V = PcbView> + Copy>(v: &Vec<(T, Event)>, event: Event) -> (r: (
    Vec<(T, Event)>,
    Vec<T>,
))
    ensures
        wait_views(r.0@) == still_waiting(wait_views(v@), event@),
        readied_views(r.1@) == released(wait_views(v@), event@),
{
    let ghost s = wait_views(v@);
    let mut keep: Vec<(T, Event)> = Vec::new();
    let mut procs: Vec<T> = Vec::new();
    let n = v.len();
    let mut i: usize = 0;
    while i < n
        invariant
            0 <= i <= n,
            n == v@.len(),
            s == wait_views(v@),
            wait_views(keep@) == still_waiting(s.take(i as int), event@),
            readied_views(procs@) == released(s.take(i as int), event@),
        decreases n - i,
    {
        let item = v[i];
        assert(s.take(i + 1).drop_last() =~= s.take(i as int));
        assert(s.take(i + 1).last() == (item.0@, item.1@));
        if item.1 == event {
            procs.push(item.0);
            assert(readied_views(procs@) =~= released(s.take(i as int), event@).push(
                readied(item.0@),
            ));
        } else {
            proof {
                crate::common_types::lemma_event_view_injective(item.1, event);
            }
            keep.push(item);
            assert(wait_views(keep@) =~= still_waiting(s.take(i as int), event@).push(
                (item.0@, item.1@),
            ));
        }
        i = i + 1;
    }
    assert(s.take(n as int) =~= s);
    (keep, procs)
}

/// Marks, at moment `now`, the sleeping entries whose sleeping time has
/// passed.
pub fn check_sleepers<T: View<V = PcbView> + Copy>(v: &mut Vec<(T, Timestamp, usize)>, now: Timestamp)
    requires
        forall|k: int|
            0 <= k < sleep_views(old(v)@).len() ==> #[trigger] sleep_views(old(v)@)[k].1 <= now@,
    ensures
        sleep_views(final(v)@) == sleep_views(old(v)@).map_values(
            |e: (PcbView, usize, usize)| woken_entry(e, now@),
        ),
{
    let n = v.len();
    assert forall|k: int| 0 <= k < n implies #[trigger] old(v)@[k].1@ <= now@ by {
        assert(sleep_views(old(v)@)[k].1 == old(v)@[k].1@);
    }
    let mut j: usize = 0;
    while j < n
        invariant
            0 <= j <= n,
            n == v@.len(),
            n == old(v)@.len(),
            forall|k: int| 0 <= k < n ==> #[trigger] old(v)@[k].1@ <= now@,
            forall|k: int|
                0 <= k < n ==> #[trigger] v@[k] == if k < j {
                    let e = old(v)@[k];
                    if now@ - e.1@ > e.2 {
                        (e.0, e.1, 0usize)
                    } else {
                        e
                    }
                } else {
                    old(v)@[k]
                },
        decreases n - j,
    {
        let mut item = v[j];
        assert(item == old(v)@[j as int]);
        let time_diff = now.get() - item.1.get();
        if time_diff > item.2 {
            item.2 = 0;
        }
        v.set(j, item);
        j = j + 1;
    }
    assert(sleep_views(v@) =~= sleep_views(old(v)@).map_values(
        |e: (PcbView, usize, usize)| woken_entry(e, now@),
    ));
}

/// The time from `now` until the first sleeping entry wakes, or 0 when none
/// sleeps.
pub fn least_sleep_time<T: View<V = PcbView> + Copy>(v: &Vec<(T, Timestamp, usize)>, now: Timestamp) -> (r: usize)
    requires
        forall|i: int|
            0 <= i < sleep_views(v@).len() ==> {
                let e = #[trigger] sleep_views(v@)[i];
                &&& e.1 + e.2 <= usize::MAX
                &&& now@ <= e.1 + e.2
                &&& e.1 + e.2 - now@ < usize::MAX
            },
    ensures
        v@.len() == 0 ==> r == 0,
        v@.len() > 0 ==> r == least_time_to_wake(sleep_views(v@), now@),
{
    if v.len() == 0 {
        return 0;
    }
    let ghost s = sleep_views(v@);
    let mut min_time = usize::MAX;
    let n = v.len();
    let mut i: usize = 0;
    while i < n
        invariant
            0 <= i <= n,
            n == s.len(),
            n == v@.len(),
            s == sleep_views(v@),
            forall|i: int|
                0 <= i < s.len() ==> {
                    let e = #[trigger] s[i];
                    &&& e.1 + e.2 <= usize::MAX
                    &&& now@ <= e.1 + e.2
                    &&& e.1 + e.2 - now@ < usize::MAX
                },
            min_time == least_time_to_wake(s.take(i as int), now@),
        decreases n - i,
    {
        let item = v[i];
        assert(s[i as int] == (item.0@, item.1@, item.2));
        let ending_timestamp = item.1.add(item.2);
        let remaining = ending_timestamp.get() - now.get() + 1;
        assert(s.take(i + 1).drop_last() =~= s.take(i as int));
        assert(remaining == time_to_wake(s[i as int], now@));
        if remaining < min_time {
            min_time = remaining;
        }
        i = i + 1;
    }
    assert(s.take(n as int) =~= s);
    min_time
}

} // verus!

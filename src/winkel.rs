//! A wall clock whose alarms all repeat daily.

use crate::time::{instant_fits, Duration, Uhr, NANOS_PER_SEC, SECS_PER_DAY};
use crate::wecker::{
    due, heap_len, heap_new, heap_peek, heap_pop, heap_push, is_due, key_instant, key_le, key_wf,
    lemma_key_order_instant, lemma_poll_finish, lemma_take_due, queued, AlarmHeap, AlarmKey,
    MAX_ALARMS,
};
use vstd::arithmetic::div_mod::lemma_mod_multiples_basic;
use vstd::multiset::Multiset;
use vstd::prelude::*;

verus! {

/// `k2` is the daily alarm `k` moved on by as few whole days as put it
/// strictly after `now`.
pub open spec fn is_next_day(k: AlarmKey, now: Uhr, k2: AlarmKey) -> bool {
    let extra = k2.0 - k.0;
    &&& k2.1 == k.1 && k2.2 == k.2 && k2.3 == k.3
    &&& extra > 0
    &&& extra % (SECS_PER_DAY as int) == 0
    &&& key_instant(k2) > now.instant()
    &&& key_instant(k2) - SECS_PER_DAY * NANOS_PER_SEC <= now.instant()
}

/// What a poll at `now` makes of the pending alarms `before`: every due alarm
/// fires, in some order, and comes back moved on to its next day after
/// `now`; the alarms that were not due stay.
pub open spec fn daily_poll_outcome(
    before: Multiset<AlarmKey>,
    now: Uhr,
    after: Multiset<AlarmKey>,
) -> bool {
    exists|fired: Seq<AlarmKey>, rearmed: Seq<AlarmKey>|
        #![trigger fired.to_multiset(), rearmed.to_multiset()]
        {
            &&& fired.to_multiset() == before.filter(|k: AlarmKey| due(k, now))
            &&& rearmed.len() == fired.len()
            &&& forall|i: int| 0 <= i < fired.len() ==> is_next_day(#[trigger] fired[i], now, rearmed[i])
            &&& after == before.filter(|k: AlarmKey| !due(k, now)).add(rearmed.to_multiset())
        }
}

/// The daily alarm `k` moved on to its next day after `now`.
fn next_day(k: AlarmKey, now: &Uhr) -> (r: AlarmKey)
    requires
        key_wf(k),
        now.wf(),
        now.spec_seconds() + SECS_PER_DAY <= i64::MAX,
        due(k, *now),
    ensures
        key_wf(r),
        is_next_day(k, *now, r),
{
    let now_secs = now.seconds();
    let now_nanos = now.subsec_nanos();
    proof {
        assert(k.0 <= now_secs) by (nonlinear_arith)
            requires
                k.0 * 1_000_000_000 + k.1 <= now_secs * 1_000_000_000 + now_nanos,
                0 <= k.1,
                now_nanos < 1_000_000_000,
        ;
    }
    let mut secs = k.0;
    let ghost mut n: int = 0;
    while secs < now_secs || (secs == now_secs && k.1 <= now_nanos)
        invariant
            now_secs == now.spec_seconds(),
            now_nanos == now.spec_nanos(),
            now_secs + SECS_PER_DAY <= i64::MAX,
            n >= 0,
            secs == k.0 + SECS_PER_DAY * n,
            secs <= now_secs + SECS_PER_DAY,
            n > 0 ==> secs - SECS_PER_DAY < now_secs || (secs - SECS_PER_DAY == now_secs && k.1
                <= now_nanos),
            n == 0 ==> k.0 < now_secs || (k.0 == now_secs && k.1 <= now_nanos),
        decreases now_secs + SECS_PER_DAY - secs,
    {
        secs = secs + SECS_PER_DAY;
        proof {
            n = n + 1;
        }
    }
    let r: AlarmKey = (secs, k.1, k.2, k.3);
    proof {
        assert((SECS_PER_DAY * n) % (SECS_PER_DAY as int) == 0) by {
            lemma_mod_multiples_basic(n, SECS_PER_DAY as int);
        }
        assert(key_instant(r) > now.instant()) by (nonlinear_arith)
            requires
                secs > now_secs || (secs == now_secs && k.1 > now_nanos),
                key_instant(r) == secs * 1_000_000_000 + k.1,
                now.instant() == now_secs * 1_000_000_000 + now_nanos,
                k.1 < 1_000_000_000,
                now_nanos < 1_000_000_000,
        ;
        assert(key_instant(r) - SECS_PER_DAY * NANOS_PER_SEC <= now.instant()) by (nonlinear_arith)
            requires
                secs - 86_400 < now_secs || (secs - 86_400 == now_secs && k.1 <= now_nanos),
                key_instant(r) == secs * 1_000_000_000 + k.1,
                now.instant() == now_secs * 1_000_000_000 + now_nanos,
                k.1 < 1_000_000_000,
                now_nanos < 1_000_000_000,
        ;
    }
    r
}

/// A wall clock with alarms that each repeat every day at the same time.
/// Alarms wait in a min-heap, soonest first.
pub struct Winkel {
    time: Uhr,
    alarms: AlarmHeap,
    capacity: usize,
}

impl Winkel {
    /// The clock's current time.
    pub closed spec fn clock(&self) -> Uhr {
        self.time
    }

    /// The keys of the pending alarms (with no repeat bits).
    pub closed spec fn pending(&self) -> Multiset<AlarmKey> {
        queued(self.alarms)
    }

    /// How many alarms the clock was made to hold.
    pub closed spec fn spec_capacity(&self) -> nat {
        self.capacity as nat
    }

    /// Well-formed: a well-formed clock, at most `capacity` well-formed
    /// pending alarms, and a capacity within `MAX_ALARMS`.
    pub open spec fn wf(&self) -> bool {
        &&& self.clock().wf()
        &&& self.pending().len() <= self.spec_capacity() <= MAX_ALARMS
        &&& forall|k: AlarmKey| #[trigger] self.pending().contains(k) ==> key_wf(k)
    }

    /// A clock at `seconds` from the epoch (UTC) with room for `capacity`
    /// alarms and none pending.
    pub fn new(seconds: i64, capacity: usize) -> (r: Winkel)
        requires
            capacity <= MAX_ALARMS,
        ensures
            r.wf(),
            r.clock().instant() == seconds * NANOS_PER_SEC,
            r.clock().spec_offset_minutes() == 0,
            r.pending() == Multiset::<AlarmKey>::empty(),
            r.spec_capacity() == capacity,
    {
        Winkel { time: Uhr::from_epoch_seconds(seconds), alarms: heap_new(), capacity }
    }

    /// A clock showing `time` (with its offset) with room for `capacity`
    /// alarms and none pending.
    pub fn from_clock(time: Uhr, capacity: usize) -> (r: Winkel)
        requires
            time.wf(),
            capacity <= MAX_ALARMS,
        ensures
            r.wf(),
            r.clock() == time,
            r.pending() == Multiset::<AlarmKey>::empty(),
            r.spec_capacity() == capacity,
    {
        Winkel { time, alarms: heap_new(), capacity }
    }

    /// The clock's current time.
    pub fn time(&self) -> (r: Uhr)
        ensures
            r == self.clock(),
    {
        self.time
    }

    /// How many alarms are pending.
    pub fn len(&self) -> (r: usize)
        ensures
            r == self.pending().len(),
    {
        heap_len(&self.alarms)
    }

    /// Adds a daily alarm that first triggers at `at`; when the clock is
    /// full, hands `at` back.
    pub fn insert_alarm(&mut self, at: Uhr) -> (r: Result<(), Uhr>)
        requires
            old(self).wf(),
            at.wf(),
        ensures
            final(self).wf(),
            final(self).clock() == old(self).clock(),
            final(self).spec_capacity() == old(self).spec_capacity(),
            r is Ok <==> old(self).pending().len() < old(self).spec_capacity(),
            r matches Err(back) ==> back == at,
            r is Ok ==> final(self).pending() == old(self).pending().insert(
                (at.spec_seconds() as i64, at.spec_nanos() as u32, at.spec_offset_minutes() as i32, 0u8),
            ),
            r is Err ==> final(self).pending() == old(self).pending(),
    {
        if heap_len(&self.alarms) >= self.capacity {
            return Err(at);
        }
        let key: AlarmKey = (at.seconds(), at.subsec_nanos(), at.offset_minutes(), 0);
        let pushed = heap_push(&mut self.alarms, key);
        assert(pushed is Ok);
        proof {
            assert forall|k: AlarmKey| #[trigger] self.pending().contains(k) implies key_wf(k) by {
                if k != key {
                    assert(old(self).pending().contains(k));
                }
            }
        }
        Ok(())
    }

    /// Moves the clock forward by `dur`.
    pub fn advance(&mut self, dur: &Duration)
        requires
            old(self).wf(),
            dur.wf(),
            instant_fits(old(self).clock().instant() + dur.total_nanos()),
        ensures
            final(self).wf(),
            final(self).clock().instant() == old(self).clock().instant() + dur.total_nanos(),
            final(self).clock().spec_offset_minutes() == old(self).clock().spec_offset_minutes(),
            final(self).pending() == old(self).pending(),
            final(self).spec_capacity() == old(self).spec_capacity(),
    {
        self.time.increment(dur);
    }

    /// Fires every alarm that is due and re-arms it for the same time of day
    /// on the first day after now. Returns whether any alarm fired.
    pub fn alarm_ready(&mut self) -> (r: bool)
        requires
            old(self).wf(),
            (exists|k: AlarmKey| #[trigger] old(self).pending().contains(k) && due(k, old(self).clock()))
                ==> old(self).clock().spec_seconds() + SECS_PER_DAY <= i64::MAX,
        ensures
            final(self).wf(),
            final(self).clock() == old(self).clock(),
            final(self).spec_capacity() == old(self).spec_capacity(),
            r == exists|k: AlarmKey| #[trigger]
                old(self).pending().contains(k) && due(k, old(self).clock()),
            daily_poll_outcome(old(self).pending(), old(self).clock(), final(self).pending()),
            forall|k: AlarmKey| #[trigger]
                final(self).pending().contains(k) ==> !due(k, final(self).clock()),
    {
        let ghost before = self.pending();
        let ghost now = self.time;
        let ghost mut fired: Seq<AlarmKey> = Seq::empty();
        let ghost mut rearmed: Seq<AlarmKey> = Seq::empty();
        let ghost mut rest: Multiset<AlarmKey> = before;
        let mut flag = false;
        let mut go = true;
        proof {
            fired.to_multiset_ensures();
            assert(fired.to_multiset() =~= Multiset::empty()) by {
                vstd::multiset::lemma_multiset_empty_len(fired.to_multiset());
            }
            assert(rest.add(fired.to_multiset()) =~= before);
            assert(rest.add(rearmed.to_multiset()) =~= before);
        }
        while go
            invariant
                self.wf(),
                self.time == now,
                (exists|k: AlarmKey| #[trigger] before.contains(k) && due(k, now)) ==> now.spec_seconds()
                    + SECS_PER_DAY <= i64::MAX,
                self.capacity == old(self).capacity,
                before == old(self).pending(),
                now == old(self).clock(),
                before == rest.add(fired.to_multiset()),
                self.pending() == rest.add(rearmed.to_multiset()),
                forall|i: int| 0 <= i < fired.len() ==> due(#[trigger] fired[i], now),
                forall|i: int| 0 <= i < rearmed.len() ==> !due(#[trigger] rearmed[i], now),
                rearmed.len() == fired.len(),
                forall|i: int| 0 <= i < fired.len() ==> is_next_day(#[trigger] fired[i], now, rearmed[i]),
                flag == (fired.len() > 0),
                !go ==> forall|k: AlarmKey| #[trigger] self.pending().contains(k) ==> !due(k, now),
            decreases rest.len() + (if go { 1int } else { 0int }),
        {
            match heap_peek(&self.alarms) {
                None => {
                    go = false;
                },
                Some(k) => {
                    if !is_due(k, &self.time) {
                        proof {
                            assert forall|x: AlarmKey| #[trigger] self.pending().contains(x) implies !due(x, now) by {
                                lemma_key_order_instant(k, x);
                            }
                        }
                        go = false;
                    } else {
                        let ghost mid = self.pending();
                        let popped = heap_pop(&mut self.alarms);
                        let x = match popped {
                            Some(x) => x,
                            None => {
                                proof {
                                    assert(false);
                                }
                                k
                            },
                        };
                        assert(x == k) by {
                            assert(key_le(k, x) && key_le(x, k));
                        }
                        proof {
                            lemma_take_due(before, rest, fired, rearmed, mid, x, now);
                        }
                        assert(key_wf(x));
                        let k2 = next_day(x, &self.time);
                        let pushed = heap_push(&mut self.alarms, k2);
                        assert(pushed is Ok);
                        proof {
                            rearmed.to_multiset_ensures();
                            assert(self.pending() =~= rest.remove(x).add(rearmed.push(k2).to_multiset()));
                            assert(forall|y: AlarmKey| #[trigger] self.pending().contains(y) ==> y == k2 || mid.contains(y));
                            rest = rest.remove(x);
                            fired = fired.push(x);
                            rearmed = rearmed.push(k2);
                        }
                        flag = true;
                    }
                },
            }
        }
        proof {
            assert forall|v: AlarmKey| #[trigger] rest.contains(v) implies !due(v, now) by {
                rearmed.to_multiset_ensures();
                assert(self.pending().contains(v));
            }
            lemma_poll_finish(before, rest, fired, now);
        }
        flag
    }
}

} // verus!

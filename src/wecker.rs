//! A wall clock with a bounded queue of one-shot and weekly recurring alarms.

use crate::days::DayFlags;
use crate::time::{
    day_of, instant_fits, weekday_of_day, Duration, Uhr, MAX_OFFSET_MINUTES, NANOS_PER_SEC, SECS_PER_DAY, SECS_PER_WEEK,
};
use heapless::binary_heap::{BinaryHeap, Min};
use vstd::multiset::Multiset;
use vstd::arithmetic::div_mod::{
    lemma_fundamental_div_mod, lemma_hoist_over_denominator, lemma_mod_multiples_basic,
};
use vstd::prelude::*;

verus! {

#[verifier::external_type_specification]
#[verifier::external_body]
#[verifier::reject_recursive_types(T)]
#[verifier::reject_recursive_types(K)]
pub struct ExBinaryHeap<T, K, const N: usize>(BinaryHeap<T, K, N>);

#[verifier::external_type_specification]
#[verifier::external_body]
pub struct ExMin(Min);

/// The most alarms that any clock can hold.
pub const MAX_ALARMS: usize = 32;

/// An alarm as the queue holds it: trigger seconds from the epoch, trigger
/// nanoseconds, offset from UTC in minutes, and the bits of its repeat days.
/// The queue orders these tuples lexicographically, so alarms with equal
/// triggers leave in order of offset, then of repeat bits.
pub type AlarmKey = (i64, u32, i32, u8);

/// The queue: a min-heap of alarm keys.
pub type AlarmHeap = BinaryHeap<(i64, u32, i32, u8), Min, MAX_ALARMS>;

/// The keys that a queue holds.
pub uninterp spec fn queued(h: BinaryHeap<(i64, u32, i32, u8), Min, MAX_ALARMS>) -> Multiset<
    (i64, u32, i32, u8),
>;

/// Lexicographic order of keys, the order of tuples in std.
pub open spec fn key_le(a: AlarmKey, b: AlarmKey) -> bool {
    a.0 < b.0 || (a.0 == b.0 && (a.1 < b.1 || (a.1 == b.1 && (a.2 < b.2 || (a.2 == b.2 && a.3
        <= b.3)))))
}

/// Relies on heapless's `BinaryHeap::new`: a queue with nothing in it.
#[verifier::external_body]
pub(crate) fn heap_new() -> (r: AlarmHeap)
    ensures
        queued(r) == Multiset::<AlarmKey>::empty(),
{
    BinaryHeap::new()
}

/// Relies on heapless's `BinaryHeap::len`: the number of queued keys.
#[verifier::external_body]
pub(crate) fn heap_len(h: &AlarmHeap) -> (r: usize)
    ensures
        r == queued(*h).len(),
{
    h.len()
}

/// Relies on heapless's `BinaryHeap::push`: it hands the key back when the
/// queue is full, and otherwise adds it.
#[verifier::external_body]
pub(crate) fn heap_push(h: &mut AlarmHeap, item: AlarmKey) -> (r: Result<(), AlarmKey>)
    ensures
        queued(*old(h)).len() < MAX_ALARMS ==> r is Ok && queued(*final(h)) == queued(
            *old(h),
        ).insert(item),
        queued(*old(h)).len() >= MAX_ALARMS ==> (r matches Err(e) && e == item) && queued(*final(h))
            == queued(*old(h)),
{
    h.push(item)
}

/// Relies on heapless's `BinaryHeap::peek` on a min-heap: the smallest key,
/// or nothing when the queue is empty.
#[verifier::external_body]
pub(crate) fn heap_peek(h: &AlarmHeap) -> (r: Option<AlarmKey>)
    ensures
        r is None <==> queued(*h).len() == 0,
        r matches Some(k) ==> queued(*h).contains(k) && forall|x: AlarmKey|
            #[trigger] queued(*h).contains(x) ==> key_le(k, x),
{
    h.peek().copied()
}

/// Relies on heapless's `BinaryHeap::iter`: every queued key once, in an
/// unspecified order.
#[verifier::external_body]
pub(crate) fn heap_keys(h: &AlarmHeap) -> (r: Vec<AlarmKey>)
    ensures
        r@.to_multiset() == queued(*h),
{
    h.iter().copied().collect()
}

/// Relies on heapless's `BinaryHeap::pop` on a min-heap: takes out the
/// smallest key, or gives nothing when the queue is empty.
#[verifier::external_body]
pub(crate) fn heap_pop(h: &mut AlarmHeap) -> (r: Option<AlarmKey>)
    ensures
        r is None <==> queued(*old(h)).len() == 0,
        r is None ==> queued(*final(h)) == queued(*old(h)),
        r matches Some(k) ==> queued(*old(h)).contains(k) && queued(*final(h)) == queued(
            *old(h),
        ).remove(k) && forall|x: AlarmKey| #[trigger] queued(*old(h)).contains(x) ==> key_le(k, x),
{
    h.pop()
}

/// The trigger instant of a key, in nanoseconds from the epoch.
pub open spec fn key_instant(k: AlarmKey) -> int {
    k.0 * NANOS_PER_SEC + k.1
}

/// A key that the queue may hold: a well-formed trigger, offset and day set.
pub open spec fn key_wf(k: AlarmKey) -> bool {
    &&& k.1 < NANOS_PER_SEC
    &&& -MAX_OFFSET_MINUTES < k.2 < MAX_OFFSET_MINUTES
    &&& k.3 < 128
}

/// The alarm of a key is due at `now`.
pub open spec fn due(k: AlarmKey, now: Uhr) -> bool {
    key_instant(k) <= now.instant()
}

/// The key of an alarm that triggers at `t` and repeats on `repeat`.
pub open spec fn key_of(t: Uhr, repeat: DayFlags) -> AlarmKey {
    (t.spec_seconds() as i64, t.spec_nanos() as u32, t.spec_offset_minutes() as i32, repeat.spec_bits())
}

/// Whether the day at position `d` of the week is among the bits `b`.
pub open spec fn bits_have(b: u8, d: int) -> bool {
    0 <= d < 7 && (b >> (d as u8)) & 1u8 == 1u8
}

/// `r` is how many days after the day at position `today` of the week the next
/// day of the bits `b` comes.
pub open spec fn is_days_after(b: u8, today: int, r: int) -> bool {
    &&& 1 <= r <= 7
    &&& bits_have(b, (today + r) % 7)
    &&& forall|k: int| 1 <= k < r ==> !#[trigger] bits_have(b, (today + k) % 7)
}

/// How many days after the day at position `today` of the week the next day
/// of the bits `b` comes.
pub open spec fn days_after_bits(b: u8, today: int) -> int {
    choose|r: int| is_days_after(b, today, r)
}

/// `k2` is the recurring alarm `k` re-armed after firing at `now`: moved on
/// by whole days to the next of its repeat days after the local weekday of
/// `now`, then by as few whole weeks as put it strictly after `now`.
pub open spec fn is_rescheduled(k: AlarmKey, now: Uhr, k2: AlarmKey) -> bool {
    let d = days_after_bits(k.3, now.local_weekday());
    let extra = k2.0 - k.0 - SECS_PER_DAY * d;
    &&& k2.1 == k.1 && k2.2 == k.2 && k2.3 == k.3
    &&& extra >= 0
    &&& extra % (SECS_PER_WEEK as int) == 0
    &&& key_instant(k2) > now.instant()
    &&& (extra > 0 ==> key_instant(k2) - SECS_PER_WEEK * NANOS_PER_SEC <= now.instant())
}

/// A count of days after a weekday is determined by the bits alone.
proof fn lemma_days_after_unique(b: u8, today: int, r: int)
    requires
        is_days_after(b, today, r),
    ensures
        days_after_bits(b, today) == r,
{
    let c = days_after_bits(b, today);
    assert(is_days_after(b, today, c));
    if c < r {
        assert(!bits_have(b, (today + c) % 7));
    } else if r < c {
        assert(!bits_have(b, (today + r) % 7));
    }
}

/// The key of the recurring alarm `k` re-armed after firing at `now`.
fn reschedule(k: AlarmKey, now: &Uhr) -> (r: AlarmKey)
    requires
        key_wf(k),
        k.3 != 0,
        now.wf(),
        now.calendar_ok(),
        due(k, *now),
    ensures
        key_wf(r),
        is_rescheduled(k, *now, r),
{
    let repeat = DayFlags::from_bits_truncate(k.3);
    proof {
        repeat.lemma_empty_iff_zero();
    }
    let local = now.into_local_date_time();
    let days = repeat.days_after(local.weekday);
    proof {
        let t = now.local_weekday();
        assert(local.weekday.index() == t);
        assert(bits_have(k.3, (t + days) % 7));
        assert forall|j: int| 1 <= j < days implies !#[trigger] bits_have(k.3, (t + j) % 7) by {
            assert(!repeat.has((t + j) % 7));
        }
        lemma_days_after_unique(k.3, t, days as int);
    }
    let now_secs = now.seconds();
    let now_nanos = now.subsec_nanos();
    proof {
        crate::time::lemma_instant_order(*now, *now);
        assert(k.0 <= now_secs) by (nonlinear_arith)
            requires
                k.0 * 1_000_000_000 + k.1 <= now_secs * 1_000_000_000 + now_nanos,
                0 <= k.1,
                now_nanos < 1_000_000_000,
        ;
    }
    let first = k.0 + (days as i64) * SECS_PER_DAY;
    let mut secs = first;
    let ghost mut w: int = 0;
    while secs < now_secs || (secs == now_secs && k.1 <= now_nanos)
        invariant
            now_secs == now.spec_seconds(),
            now_nanos == now.spec_nanos(),
            now.wf(),
            now.calendar_ok(),
            w >= 0,
            secs == first + SECS_PER_WEEK * w,
            secs <= now_secs + SECS_PER_WEEK,
            w > 0 ==> secs - SECS_PER_WEEK <= now_secs && (secs - SECS_PER_WEEK < now_secs || k.1
                <= now_nanos),
        decreases now_secs + SECS_PER_WEEK - secs,
    {
        secs = secs + SECS_PER_WEEK;
        proof {
            w = w + 1;
        }
    }
    let r: AlarmKey = (secs, k.1, k.2, k.3);
    proof {
        assert((SECS_PER_WEEK * w) % (SECS_PER_WEEK as int) == 0) by {
            lemma_mod_multiples_basic(w, SECS_PER_WEEK as int);
        }
        assert(key_instant(r) > now.instant()) by (nonlinear_arith)
            requires
                secs > now_secs || (secs == now_secs && k.1 > now_nanos),
                key_instant(r) == secs * 1_000_000_000 + k.1,
                now.instant() == now_secs * 1_000_000_000 + now_nanos,
                k.1 < 1_000_000_000,
                now_nanos < 1_000_000_000,
        ;
        if w > 0 {
            assert(key_instant(r) - SECS_PER_WEEK * NANOS_PER_SEC <= now.instant()) by (nonlinear_arith)
                requires
                    secs - 604_800 < now_secs || (secs - 604_800 == now_secs && k.1 <= now_nanos),
                    key_instant(r) == secs * 1_000_000_000 + k.1,
                    now.instant() == now_secs * 1_000_000_000 + now_nanos,
                    k.1 < 1_000_000_000,
                    now_nanos < 1_000_000_000,
            ;
        }
    }
    r
}

/// `rearmed` holds, in order, the re-armed keys of the recurring keys among
/// `fired`, all fired at `now`.
pub open spec fn rearmed_from(fired: Seq<AlarmKey>, now: Uhr, rearmed: Seq<AlarmKey>) -> bool
    decreases fired.len(),
{
    if fired.len() == 0 {
        rearmed.len() == 0
    } else if fired.last().3 == 0 {
        rearmed_from(fired.drop_last(), now, rearmed)
    } else {
        &&& rearmed.len() > 0
        &&& is_rescheduled(fired.last(), now, rearmed.last())
        &&& rearmed_from(fired.drop_last(), now, rearmed.drop_last())
    }
}

/// What a poll at `now` makes of the pending keys `before`: every due key
/// fires, in some order; the one-shot ones are gone, each recurring one comes
/// back re-armed, and the keys that were not due stay.
pub open spec fn poll_outcome(before: Multiset<AlarmKey>, now: Uhr, after: Multiset<AlarmKey>) -> bool {
    exists|fired: Seq<AlarmKey>, rearmed: Seq<AlarmKey>|
        #![trigger rearmed_from(fired, now, rearmed)]
        {
            &&& fired.to_multiset() == before.filter(|k: AlarmKey| due(k, now))
            &&& rearmed_from(fired, now, rearmed)
            &&& after == before.filter(|k: AlarmKey| !due(k, now)).add(rearmed.to_multiset())
        }
}

/// Whether the alarm of key `k` is due at `now`.
pub(crate) fn is_due(k: AlarmKey, now: &Uhr) -> (r: bool)
    requires
        key_wf(k),
        now.wf(),
    ensures
        r == due(k, *now),
{
    let s = now.seconds();
    let n = now.subsec_nanos();
    let r = k.0 < s || (k.0 == s && k.1 <= n);
    assert(r == (k.0 * 1_000_000_000 + k.1 <= s * 1_000_000_000 + n)) by (nonlinear_arith)
        requires
            r == (k.0 < s || (k.0 == s && k.1 <= n)),
            0 <= k.1 < 1_000_000_000,
            0 <= n < 1_000_000_000,
    ;
    r
}

/// An alarm: when it next triggers, and the days of the week it repeats on
/// (none for a one-shot alarm).
#[derive(Clone, Copy, Debug)]
pub struct Alarm {
    next_time: Uhr,
    repeat: DayFlags,
}

impl Alarm {
    /// When the alarm next triggers.
    pub closed spec fn spec_next_time(self) -> Uhr {
        self.next_time
    }

    /// The days the alarm repeats on.
    pub closed spec fn spec_repeat(self) -> DayFlags {
        self.repeat
    }

    /// The key under which the queue holds the alarm.
    pub open spec fn key(self) -> AlarmKey {
        key_of(self.spec_next_time(), self.spec_repeat())
    }

    /// When the alarm next triggers.
    pub fn next_time(&self) -> (r: Uhr)
        ensures
            r == self.spec_next_time(),
    {
        self.next_time
    }

    /// The days the alarm repeats on; empty for a one-shot alarm.
    pub fn repeat(&self) -> (r: DayFlags)
        ensures
            r == self.spec_repeat(),
    {
        self.repeat
    }

    fn from_key(k: AlarmKey) -> (r: Alarm)
        requires
            key_wf(k),
        ensures
            r.spec_next_time().wf(),
            r.spec_repeat().wf(),
            r.key() == k,
    {
        let next_time = Uhr::from_parts(k.0, k.1, k.2);
        let repeat = DayFlags::from_bits_truncate(k.3);
        Alarm { next_time, repeat }
    }
}

proof fn lemma_days_after_scan(b: u8, today: int, j: int)
    requires
        b != 0,
        b < 128,
        0 <= today < 7,
        1 <= j <= 8,
        forall|k: int| 1 <= k < j ==> !#[trigger] bits_have(b, (today + k) % 7),
    ensures
        exists|r: int| is_days_after(b, today, r),
    decreases 8 - j,
{
    if j == 8 {
        assert(b != 0 && b < 128 ==> (b >> 0u8) & 1u8 == 1u8 || (b >> 1u8) & 1u8 == 1u8 || (b >> 2u8)
            & 1u8 == 1u8 || (b >> 3u8) & 1u8 == 1u8 || (b >> 4u8) & 1u8 == 1u8 || (b >> 5u8) & 1u8
            == 1u8 || (b >> 6u8) & 1u8 == 1u8) by (bit_vector);
        let d: int = if (b >> 0u8) & 1u8 == 1u8 {
            0
        } else if (b >> 1u8) & 1u8 == 1u8 {
            1
        } else if (b >> 2u8) & 1u8 == 1u8 {
            2
        } else if (b >> 3u8) & 1u8 == 1u8 {
            3
        } else if (b >> 4u8) & 1u8 == 1u8 {
            4
        } else if (b >> 5u8) & 1u8 == 1u8 {
            5
        } else {
            6
        };
        assert(bits_have(b, d));
        let k = if d > today { d - today } else { d - today + 7 };
        assert((today + k) % 7 == d);
        assert(!bits_have(b, (today + k) % 7));
    } else if bits_have(b, (today + j) % 7) {
        assert(is_days_after(b, today, j));
    } else {
        lemma_days_after_scan(b, today, j + 1);
    }
}

/// Some day of a non-empty set of days comes one to seven days after any
/// weekday, so `days_after_bits` names that count.
pub proof fn lemma_days_after_exists(b: u8, today: int)
    requires
        b != 0,
        b < 128,
        0 <= today < 7,
    ensures
        is_days_after(b, today, days_after_bits(b, today)),
{
    lemma_days_after_scan(b, today, 1);
}

/// Re-armed keys keep the repeat bits of the recurring keys they come from,
/// and each lies strictly after the poll.
pub proof fn lemma_rearmed_keys(fired: Seq<AlarmKey>, now: Uhr, rearmed: Seq<AlarmKey>)
    requires
        rearmed_from(fired, now, rearmed),
    ensures
        forall|i: int| 0 <= i < rearmed.len() ==> (#[trigger] rearmed[i]).3 != 0 && key_instant(
            rearmed[i],
        ) > now.instant(),
    decreases fired.len(),
{
    if fired.len() == 0 {
    } else if fired.last().3 == 0 {
        lemma_rearmed_keys(fired.drop_last(), now, rearmed);
    } else {
        lemma_rearmed_keys(fired.drop_last(), now, rearmed.drop_last());
        assert forall|i: int| 0 <= i < rearmed.len() implies (#[trigger] rearmed[i]).3 != 0
            && key_instant(rearmed[i]) > now.instant() by {
            if i < rearmed.len() - 1 {
                assert(rearmed[i] == rearmed.drop_last()[i]);
            }
        }
    }
}

/// A one-shot alarm fires at most once. A poll never adds a one-shot key (it
/// only re-adds recurring ones, and `advance` leaves the keys alone), and a
/// poll that finds the one-shot key `k` due leaves no key equal to it pending;
/// so after it fires, no later round of advancing and polling brings it back.
pub proof fn lemma_one_shot_fires_once(
    before: Multiset<AlarmKey>,
    now: Uhr,
    after: Multiset<AlarmKey>,
    k: AlarmKey,
)
    requires
        k.3 == 0,
        poll_outcome(before, now, after),
    ensures
        after.count(k) <= before.count(k),
        due(k, now) ==> after.count(k) == 0,
{
    let (fired, rearmed) = choose|fired: Seq<AlarmKey>, rearmed: Seq<AlarmKey>|
        #![trigger rearmed_from(fired, now, rearmed)]
        {
            &&& fired.to_multiset() == before.filter(|k: AlarmKey| due(k, now))
            &&& rearmed_from(fired, now, rearmed)
            &&& after == before.filter(|k: AlarmKey| !due(k, now)).add(rearmed.to_multiset())
        };
    lemma_rearmed_keys(fired, now, rearmed);
    rearmed.to_multiset_ensures();
    if rearmed.to_multiset().count(k) > 0 {
        assert(rearmed.contains(k));
        let i = choose|i: int| 0 <= i < rearmed.len() && rearmed[i] == k;
        assert(rearmed[i].3 != 0);
    }
    assert(after.count(k) == before.filter(|k: AlarmKey| !due(k, now)).count(k));
}

/// A recurring alarm re-armed after firing at `now` lies strictly after
/// `now`. When it fired on the local weekday of `now` (in the clock's
/// offset), as it does when polled on the day it was due, it lands on one of
/// its repeat days in that local time; and so in its own local time too,
/// when the alarm and the clock share their offset. Polled on another
/// weekday, the step to the next repeat day after now's weekday can land on
/// a day outside the set.
pub proof fn lemma_rescheduled_on_repeat_day(k: AlarmKey, now: Uhr, k2: AlarmKey)
    requires
        now.wf(),
        key_wf(k),
        k.3 != 0,
        is_rescheduled(k, now, k2),
    ensures
        key_instant(k2) > now.instant(),
        weekday_of_day(day_of(k.0 + 60 * now.spec_offset_minutes())) == now.local_weekday()
            ==> bits_have(k2.3, weekday_of_day(day_of(k2.0 + 60 * now.spec_offset_minutes()))),
        k.2 == now.spec_offset_minutes() && weekday_of_day(day_of(k.0 + 60 * k.2))
            == now.local_weekday() ==> bits_have(k2.3, weekday_of_day(day_of(k2.0 + 60 * k2.2))),
{
    let t = now.local_weekday();
    let off = 60 * now.spec_offset_minutes();
    assert(0 <= t < 7);
    lemma_days_after_exists(k.3, t);
    let d = days_after_bits(k.3, t);
    let extra = k2.0 - k.0 - SECS_PER_DAY * d;
    lemma_fundamental_div_mod(extra, SECS_PER_WEEK as int);
    let w = extra / (SECS_PER_WEEK as int);
    let m = d + 7 * w;
    assert(k2.0 + off == (k.0 + off) + m * SECS_PER_DAY);
    lemma_hoist_over_denominator(k.0 + off, m, SECS_PER_DAY as nat);
    assert(day_of(k2.0 + off) == day_of(k.0 + off) + m);
    if weekday_of_day(day_of(k.0 + off)) == t {
        let x = day_of(k.0 + off);
        assert((x + m + 3) % 7 == (t + d) % 7) by {
            lemma_fundamental_div_mod(x + 3, 7);
            let q = (x + 3) / 7;
            assert(x + m + 3 == 7 * (q + w) + (t + d));
            vstd::arithmetic::div_mod::lemma_mod_multiples_vanish(q + w, t + d, 7);
        }
    }
}

/// Some recurring alarm among `pending` is due at `now`: a poll at `now`
/// re-arms it, which needs the local weekday of `now`.
pub open spec fn recurring_due(pending: Multiset<AlarmKey>, now: Uhr) -> bool {
    exists|k: AlarmKey| #[trigger] pending.contains(k) && due(k, now) && k.3 != 0
}

/// For well-formed keys the order of the queue refines the order of trigger
/// instants.
pub proof fn lemma_key_order_instant(k: AlarmKey, x: AlarmKey)
    requires
        key_le(k, x),
        key_wf(k),
        key_wf(x),
    ensures
        key_instant(k) <= key_instant(x),
{
    assert(key_instant(k) <= key_instant(x)) by (nonlinear_arith)
        requires
            key_le(k, x),
            k.1 < 1_000_000_000,
            x.1 < 1_000_000_000,
            key_instant(k) == k.0 * 1_000_000_000 + k.1,
            key_instant(x) == x.0 * 1_000_000_000 + x.1,
    ;
}

/// A poll step: the due key `x` taken from the queue `mid`, which holds the
/// keys `rest` not yet fired and the re-armed keys (none of them due), comes
/// out of `rest` and joins the fired keys.
pub proof fn lemma_take_due(
    before: Multiset<AlarmKey>,
    rest: Multiset<AlarmKey>,
    fired: Seq<AlarmKey>,
    rearmed: Seq<AlarmKey>,
    mid: Multiset<AlarmKey>,
    x: AlarmKey,
    now: Uhr,
)
    requires
        before == rest.add(fired.to_multiset()),
        mid == rest.add(rearmed.to_multiset()),
        mid.contains(x),
        due(x, now),
        forall|i: int| 0 <= i < rearmed.len() ==> !due(#[trigger] rearmed[i], now),
    ensures
        rest.contains(x),
        before.contains(x),
        before == rest.remove(x).add(fired.push(x).to_multiset()),
        mid.remove(x) == rest.remove(x).add(rearmed.to_multiset()),
        fired.push(x).drop_last() == fired,
        fired.push(x).last() == x,
{
    rearmed.to_multiset_ensures();
    fired.to_multiset_ensures();
    if rearmed.to_multiset().count(x) > 0 {
        assert(rearmed.contains(x));
        let i = choose|i: int| 0 <= i < rearmed.len() && rearmed[i] == x;
        assert(!due(rearmed[i], now));
    }
    assert(mid.count(x) == rest.count(x) + rearmed.to_multiset().count(x));
    assert(before =~= rest.remove(x).add(fired.push(x).to_multiset()));
    assert(mid.remove(x) =~= rest.remove(x).add(rearmed.to_multiset()));
    assert(fired.push(x).drop_last() =~= fired);
}

/// The end of a poll: when no key left in `rest` is due and every fired key
/// was, the fired keys are exactly the due ones of `before`, `rest` holds the
/// others, and something fired exactly when some key of `before` was due.
pub proof fn lemma_poll_finish(
    before: Multiset<AlarmKey>,
    rest: Multiset<AlarmKey>,
    fired: Seq<AlarmKey>,
    now: Uhr,
)
    requires
        before == rest.add(fired.to_multiset()),
        forall|i: int| 0 <= i < fired.len() ==> due(#[trigger] fired[i], now),
        forall|v: AlarmKey| #[trigger] rest.contains(v) ==> !due(v, now),
    ensures
        fired.to_multiset() == before.filter(|k: AlarmKey| due(k, now)),
        rest == before.filter(|k: AlarmKey| !due(k, now)),
        (fired.len() > 0) == exists|k: AlarmKey| #[trigger] before.contains(k) && due(k, now),
{
    fired.to_multiset_ensures();
    let due_f = |k: AlarmKey| due(k, now);
    let not_due_f = |k: AlarmKey| !due(k, now);
    assert forall|v: AlarmKey| fired.to_multiset().count(v) > 0 implies due(v, now) by {
        assert(fired.contains(v));
        let i = choose|i: int| 0 <= i < fired.len() && fired[i] == v;
        assert(due(fired[i], now));
    }
    assert forall|v: AlarmKey| rest.count(v) > 0 implies !due(v, now) by {
        assert(rest.contains(v));
    }
    assert(fired.to_multiset() =~= before.filter(due_f));
    assert(rest =~= before.filter(not_due_f));
    if fired.len() > 0 {
        assert(fired.to_multiset().contains(fired[0]));
        assert(before.contains(fired[0]) && due(fired[0], now));
    } else {
        assert forall|k: AlarmKey| before.contains(k) implies !due(k, now) by {
            assert(fired.to_multiset().len() == 0);
            if due(k, now) {
                assert(before.filter(due_f).count(k) > 0);
            }
        }
    }
}

/// Why an alarm could not be added.
#[derive(Clone, Copy, Debug, PartialEq, Eq, Structural)]
pub enum Error {
    /// A recurring alarm whose first trigger does not fall on one of its
    /// repeat days (in the trigger's own local time).
    AlarmNotOnRepeat,
    /// The clock already holds as many alarms as it was made for.
    AlarmFull,
}

/// A wall clock with alarms. Alarms wait in a min-heap, soonest first.
pub struct Wecker {
    time: Uhr,
    alarms: AlarmHeap,
    capacity: usize,
}

impl Wecker {
    /// The clock's current time.
    pub closed spec fn clock(&self) -> Uhr {
        self.time
    }

    /// The keys of the pending alarms.
    pub closed spec fn pending(&self) -> Multiset<AlarmKey> {
        queued(self.alarms)
    }

    /// How many alarms the clock was made to hold.
    pub closed spec fn spec_capacity(&self) -> nat {
        self.capacity as nat
    }

    /// Well-formed: a well-formed clock, at most `capacity` well-formed
    /// pending alarms, and a capacity within `MAX_ALARMS`.
    pub open spec fn wf(&self) -> bool {
        &&& self.clock().wf()
        &&& self.pending().len() <= self.spec_capacity() <= MAX_ALARMS
        &&& forall|k: AlarmKey| #[trigger] self.pending().contains(k) ==> key_wf(k)
    }

    /// A clock at `seconds` from the epoch (UTC) with room for `capacity`
    /// alarms and none pending.
    pub fn new(seconds: i64, capacity: usize) -> (r: Wecker)
        requires
            capacity <= MAX_ALARMS,
        ensures
            r.wf(),
            r.clock().instant() == seconds * NANOS_PER_SEC,
            r.clock().spec_offset_minutes() == 0,
            r.pending() == Multiset::<AlarmKey>::empty(),
            r.spec_capacity() == capacity,
    {
        Wecker { time: Uhr::from_epoch_seconds(seconds), alarms: heap_new(), capacity }
    }

    /// How many alarms the clock was made to hold.
    pub fn capacity(&self) -> (r: usize)
        ensures
            r == self.spec_capacity(),
    {
        self.capacity
    }

    /// How many alarms are pending.
    pub fn len(&self) -> (r: usize)
        ensures
            r == self.pending().len(),
    {
        heap_len(&self.alarms)
    }

    /// Adds an alarm that first triggers at `first_time` and then, when
    /// `repeat` is not empty, again on each of those days of the week.
    pub fn insert_alarm(&mut self, first_time: Uhr, repeat: DayFlags) -> (r: Result<(), Error>)
        requires
            old(self).wf(),
            first_time.wf(),
            repeat.wf(),
            !repeat.spec_is_empty() ==> first_time.calendar_ok(),
        ensures
            final(self).wf(),
            final(self).clock() == old(self).clock(),
            final(self).spec_capacity() == old(self).spec_capacity(),
            !repeat.spec_is_empty() && !repeat.has(first_time.local_weekday()) ==> r matches Err(Error::AlarmNotOnRepeat),
            (repeat.spec_is_empty() || repeat.has(first_time.local_weekday())) && old(
                self,
            ).pending().len() >= old(self).spec_capacity() ==> r matches Err(Error::AlarmFull),
            r is Ok <==> (repeat.spec_is_empty() || repeat.has(first_time.local_weekday())) && old(
                self,
            ).pending().len() < old(self).spec_capacity(),
            r is Ok ==> final(self).pending() == old(self).pending().insert(key_of(first_time, repeat)),
            r is Err ==> final(self).pending() == old(self).pending(),
    {
        if !repeat.is_empty() {
            let local = first_time.into_local_date_time();
            let today = DayFlags::from_weekday(local.weekday);
            let good = today.intersects(repeat);
            proof {
                if good {
                    let d = choose|d: int| 0 <= d < 7 && today.has(d) && repeat.has(d);
                    assert(d == first_time.local_weekday());
                } else {
                    assert(today.has(first_time.local_weekday()));
                }
            }
            if !good {
                return Err(Error::AlarmNotOnRepeat);
            }
        }
        if heap_len(&self.alarms) >= self.capacity {
            return Err(Error::AlarmFull);
        }
        let key: AlarmKey = (first_time.seconds(), first_time.subsec_nanos(), first_time.offset_minutes(), repeat.bits());
        let pushed = heap_push(&mut self.alarms, key);
        assert(pushed is Ok);
        proof {
            assert forall|k: AlarmKey| #[trigger] self.pending().contains(k) implies key_wf(k) by {
                if k != key {
                    assert(old(self).pending().contains(k));
                }
            }
        }
        Ok(())
    }

    /// A clock showing `time` (with its offset) with room for `capacity`
    /// alarms and none pending.
    pub fn from_clock(time: Uhr, capacity: usize) -> (r: Wecker)
        requires
            time.wf(),
            capacity <= MAX_ALARMS,
        ensures
            r.wf(),
            r.clock() == time,
            r.pending() == Multiset::<AlarmKey>::empty(),
            r.spec_capacity() == capacity,
    {
        Wecker { time, alarms: heap_new(), capacity }
    }

    /// The clock's current time.
    pub fn time(&self) -> (r: Uhr)
        ensures
            r == self.clock(),
    {
        self.time
    }

    /// Moves the clock forward by `dur`. Alarms are only looked at by
    /// `alarm_ready`.
    pub fn advance(&mut self, dur: &Duration)
        requires
            old(self).wf(),
            dur.wf(),
            instant_fits(old(self).clock().instant() + dur.total_nanos()),
        ensures
            final(self).wf(),
            final(self).clock().instant() == old(self).clock().instant() + dur.total_nanos(),
            final(self).clock().spec_offset_minutes() == old(self).clock().spec_offset_minutes(),
            final(self).pending() == old(self).pending(),
            final(self).spec_capacity() == old(self).spec_capacity(),
    {
        self.time.increment(dur);
    }

    /// The alarm that triggers soonest, if any is pending.
    pub fn next_alarm(&self) -> (r: Option<Alarm>)
        requires
            self.wf(),
        ensures
            r is None <==> self.pending().len() == 0,
            r matches Some(a) ==> self.pending().contains(a.key()) && forall|k: AlarmKey|
                #[trigger] self.pending().contains(k) ==> key_instant(a.key()) <= key_instant(k),
    {
        match heap_peek(&self.alarms) {
            None => None,
            Some(k) => {
                let a = Alarm::from_key(k);
                proof {
                    assert forall|x: AlarmKey| #[trigger] self.pending().contains(x) implies key_instant(k)
                        <= key_instant(x) by {
                        lemma_key_order_instant(k, x);
                    }
                }
                Some(a)
            },
        }
    }

    /// Whether some recurring alarm is due, so that a poll now re-arms it
    /// and needs the local calendar of the clock.
    pub fn recurring_alarm_due(&self) -> (r: bool)
        requires
            self.wf(),
        ensures
            r == recurring_due(self.pending(), self.clock()),
    {
        let keys = heap_keys(&self.alarms);
        proof {
            keys@.to_multiset_ensures();
        }
        let mut i: usize = 0;
        while i < keys.len()
            invariant
                self.wf(),
                keys@.to_multiset() == self.pending(),
                i <= keys@.len(),
                forall|j: int| 0 <= j < i ==> !(due(#[trigger] keys@[j], self.clock()) && keys@[j].3 != 0),
            decreases keys@.len() - i,
        {
            let k = keys[i];
            proof {
                assert(keys@.contains(k));
                keys@.to_multiset_ensures();
                assert(self.pending().contains(k));
            }
            if k.3 != 0 && is_due(k, &self.time) {
                assert(self.pending().contains(k) && due(k, self.clock()) && k.3 != 0);
                return true;
            }
            i = i + 1;
        }
        proof {
            assert forall|k: AlarmKey| #[trigger] self.pending().contains(k) && due(k, self.clock()) implies k.3 == 0 by {
                keys@.to_multiset_ensures();
                assert(keys@.contains(k));
                let j = choose|j: int| 0 <= j < keys@.len() && keys@[j] == k;
                assert(!(due(keys@[j], self.clock()) && keys@[j].3 != 0));
            }
        }
        false
    }

    /// Fires every alarm that is due: a one-shot alarm is dropped, and a
    /// recurring one is re-armed for the next of its days after today (in the
    /// clock's local time), moved on by whole weeks until it lies after now.
    /// Returns whether any alarm fired. The local calendar of the clock is
    /// needed only when a recurring alarm is due.
    pub fn alarm_ready(&mut self) -> (r: bool)
        requires
            old(self).wf(),
            recurring_due(old(self).pending(), old(self).clock()) ==> old(self).clock().calendar_ok(),
        ensures
            final(self).wf(),
            final(self).clock() == old(self).clock(),
            final(self).spec_capacity() == old(self).spec_capacity(),
            r == exists|k: AlarmKey| #[trigger]
                old(self).pending().contains(k) && due(k, old(self).clock()),
            poll_outcome(old(self).pending(), old(self).clock(), final(self).pending()),
            forall|k: AlarmKey| #[trigger]
                final(self).pending().contains(k) ==> !due(k, final(self).clock()),
    {
        let ghost before = self.pending();
        let ghost now = self.time;
        let ghost mut fired: Seq<AlarmKey> = Seq::empty();
        let ghost mut rearmed: Seq<AlarmKey> = Seq::empty();
        let ghost mut rest: Multiset<AlarmKey> = before;
        let mut flag = false;
        let mut go = true;
        proof {
            fired.to_multiset_ensures();
            assert(fired.to_multiset() =~= Multiset::empty()) by {
                vstd::multiset::lemma_multiset_empty_len(fired.to_multiset());
            }
            assert(rest.add(fired.to_multiset()) =~= before);
            assert(rest.add(rearmed.to_multiset()) =~= before);
        }
        while go
            invariant
                self.wf(),
                self.time == now,
                recurring_due(before, now) ==> now.calendar_ok(),
                self.capacity == old(self).capacity,
                before == old(self).pending(),
                now == old(self).clock(),
                before == rest.add(fired.to_multiset()),
                self.pending() == rest.add(rearmed.to_multiset()),
                forall|i: int| 0 <= i < fired.len() ==> due(#[trigger] fired[i], now),
                forall|i: int| 0 <= i < rearmed.len() ==> !due(#[trigger] rearmed[i], now),
                rearmed_from(fired, now, rearmed),
                flag == (fired.len() > 0),
                !go ==> forall|k: AlarmKey| #[trigger] self.pending().contains(k) ==> !due(k, now),
            decreases rest.len() + (if go { 1int } else { 0int }),
        {
            match heap_peek(&self.alarms) {
                None => {
                    go = false;
                },
                Some(k) => {
                    if !is_due(k, &self.time) {
                        proof {
                            assert forall|x: AlarmKey| #[trigger] self.pending().contains(x) implies !due(x, now) by {
                                lemma_key_order_instant(k, x);
                            }
                        }
                        go = false;
                    } else {
                        let ghost mid = self.pending();
                        let popped = heap_pop(&mut self.alarms);
                        let x = match popped {
                            Some(x) => x,
                            None => {
                                proof {
                                    assert(false);
                                }
                                k
                            },
                        };
                        assert(x == k) by {
                            assert(key_le(k, x) && key_le(x, k));
                        }
                        proof {
                            lemma_take_due(before, rest, fired, rearmed, mid, x, now);
                            rest = rest.remove(x);
                            fired = fired.push(x);
                        }
                        flag = true;
                        if x.3 != 0 {
                            assert(key_wf(x));
                            assert(recurring_due(before, now));
                            let k2 = reschedule(x, &self.time);
                            let pushed = heap_push(&mut self.alarms, k2);
                            assert(pushed is Ok);
                            proof {
                                rearmed.to_multiset_ensures();
                                assert(self.pending() =~= rest.add(rearmed.push(k2).to_multiset()));
                                assert(rearmed.push(k2).drop_last() =~= rearmed);
                                assert(rearmed.push(k2).last() == k2);
                                rearmed = rearmed.push(k2);
                                assert(forall|y: AlarmKey| #[trigger] self.pending().contains(y) ==> y == k2 || mid.contains(y));
                            }
                        } else {
                            proof {
                                assert(forall|y: AlarmKey| #[trigger] self.pending().contains(y) ==> mid.contains(y));
                            }
                        }
                    }
                },
            }
        }
        proof {
            rearmed.to_multiset_ensures();
            assert forall|v: AlarmKey| #[trigger] rest.contains(v) implies !due(v, now) by {
                assert(self.pending().contains(v));
            }
            lemma_poll_finish(before, rest, fired, now);
        }
        flag
    }
}

} // verus!

//! Days of the week and sets of them.

use vstd::prelude::*;

verus! {

/// A day of the week, Monday first.
#[derive(Clone, Copy, Debug, PartialEq, Eq, Structural)]
pub enum Weekday {
    Monday,
    Tuesday,
    Wednesday,
    Thursday,
    Friday,
    Saturday,
    Sunday,
}

impl Weekday {
    /// The position of the day in the week: 0 for Monday up to 6 for Sunday.
    pub open spec fn index(self) -> int {
        match self {
            Weekday::Monday => 0,
            Weekday::Tuesday => 1,
            Weekday::Wednesday => 2,
            Weekday::Thursday => 3,
            Weekday::Friday => 4,
            Weekday::Saturday => 5,
            Weekday::Sunday => 6,
        }
    }

    /// The position of the day in the week: 0 for Monday up to 6 for Sunday.
    pub fn to_index(&self) -> (r: u8)
        ensures
            r == self.index(),
    {
        match self {
            Weekday::Monday => 0,
            Weekday::Tuesday => 1,
            Weekday::Wednesday => 2,
            Weekday::Thursday => 3,
            Weekday::Friday => 4,
            Weekday::Saturday => 5,
            Weekday::Sunday => 6,
        }
    }

    /// The day at position `i` of the week (0 for Monday).
    pub fn from_index(i: u8) -> (r: Weekday)
        requires
            i < 7,
        ensures
            r.index() == i,
    {
        match i {
            0 => Weekday::Monday,
            1 => Weekday::Tuesday,
            2 => Weekday::Wednesday,
            3 => Weekday::Thursday,
            4 => Weekday::Friday,
            5 => Weekday::Saturday,
            _ => Weekday::Sunday,
        }
    }
}

/// A set of days of the week, one bit per day with Monday in the lowest bit.
#[derive(Clone, Copy, Debug, PartialEq, Eq, Structural)]
pub struct DayFlags {
    bits: u8,
}

impl DayFlags {
    /// The set that holds just Monday.
    pub fn monday() -> (r: DayFlags)
        ensures
            r.wf(),
            forall|d: int| 0 <= d < 7 ==> (#[trigger] r.has(d) <==> d == 0),
            !r.spec_is_empty(),
    {
        let r = DayFlags::from_weekday(Weekday::Monday);
        assert(r.has(0));
        r
    }

    /// The set that holds just Tuesday.
    pub fn tuesday() -> (r: DayFlags)
        ensures
            r.wf(),
            forall|d: int| 0 <= d < 7 ==> (#[trigger] r.has(d) <==> d == 1),
            !r.spec_is_empty(),
    {
        let r = DayFlags::from_weekday(Weekday::Tuesday);
        assert(r.has(1));
        r
    }

    /// The set that holds just Wednesday.
    pub fn wednesday() -> (r: DayFlags)
        ensures
            r.wf(),
            forall|d: int| 0 <= d < 7 ==> (#[trigger] r.has(d) <==> d == 2),
            !r.spec_is_empty(),
    {
        let r = DayFlags::from_weekday(Weekday::Wednesday);
        assert(r.has(2));
        r
    }

    /// The set that holds just Thursday.
    pub fn thursday() -> (r: DayFlags)
        ensures
            r.wf(),
            forall|d: int| 0 <= d < 7 ==> (#[trigger] r.has(d) <==> d == 3),
            !r.spec_is_empty(),
    {
        let r = DayFlags::from_weekday(Weekday::Thursday);
        assert(r.has(3));
        r
    }

    /// The set that holds just Friday.
    pub fn friday() -> (r: DayFlags)
        ensures
            r.wf(),
            forall|d: int| 0 <= d < 7 ==> (#[trigger] r.has(d) <==> d == 4),
            !r.spec_is_empty(),
    {
        let r = DayFlags::from_weekday(Weekday::Friday);
        assert(r.has(4));
        r
    }

    /// The set that holds just Saturday.
    pub fn saturday() -> (r: DayFlags)
        ensures
            r.wf(),
            forall|d: int| 0 <= d < 7 ==> (#[trigger] r.has(d) <==> d == 5),
            !r.spec_is_empty(),
    {
        let r = DayFlags::from_weekday(Weekday::Saturday);
        assert(r.has(5));
        r
    }

    /// The set that holds just Sunday.
    pub fn sunday() -> (r: DayFlags)
        ensures
            r.wf(),
            forall|d: int| 0 <= d < 7 ==> (#[trigger] r.has(d) <==> d == 6),
            !r.spec_is_empty(),
    {
        let r = DayFlags::from_weekday(Weekday::Sunday);
        assert(r.has(6));
        r
    }

    /// Monday to Friday.
    pub fn weekdays() -> (r: DayFlags)
        ensures
            r.wf(),
            forall|d: int| 0 <= d < 7 ==> (#[trigger] r.has(d) <==> d < 5),
            !r.spec_is_empty(),
    {
        let r = DayFlags { bits: 0b0001_1111 };
        assert forall|d: int| 0 <= d < 7 implies (#[trigger] r.has(d) <==> d < 5) by {
            let s = d as u8;
            assert(s < 7 ==> ((0b0001_1111u8 >> s) & 1u8 == 1u8 <==> s < 5)) by (bit_vector);
        }
        assert(r.has(0));
        r
    }

    /// Saturday and Sunday.
    pub fn weekends() -> (r: DayFlags)
        ensures
            r.wf(),
            forall|d: int| 0 <= d < 7 ==> (#[trigger] r.has(d) <==> d >= 5),
            !r.spec_is_empty(),
    {
        let r = DayFlags { bits: 0b0110_0000 };
        assert forall|d: int| 0 <= d < 7 implies (#[trigger] r.has(d) <==> d >= 5) by {
            let s = d as u8;
            assert(s < 7 ==> ((0b0110_0000u8 >> s) & 1u8 == 1u8 <==> s >= 5)) by (bit_vector);
        }
        assert(r.has(6));
        r
    }

    /// The raw bits of the set.
    pub closed spec fn spec_bits(self) -> u8 {
        self.bits
    }

    /// Well-formed: only the seven day bits may be set.
    pub open spec fn wf(self) -> bool {
        self.spec_bits() < 128
    }

    /// Whether the day at position `d` of the week (0 for Monday) is in the set.
    pub open spec fn has(self, d: int) -> bool {
        0 <= d < 7 && (self.spec_bits() >> (d as u8)) & 1u8 == 1u8
    }

    /// The set holds no day.
    pub open spec fn spec_is_empty(self) -> bool {
        forall|d: int| 0 <= d < 7 ==> !#[trigger] self.has(d)
    }

    /// A well-formed set is empty exactly when no bit is set.
    pub proof fn lemma_empty_iff_zero(self)
        requires
            self.wf(),
        ensures
            self.spec_is_empty() <==> self.spec_bits() == 0,
    {
        let b = self.bits;
        if b != 0 {
            assert(b < 128 && b != 0 ==> (b >> 0u8) & 1u8 == 1u8 || (b >> 1u8) & 1u8 == 1u8
                || (b >> 2u8) & 1u8 == 1u8 || (b >> 3u8) & 1u8 == 1u8 || (b >> 4u8) & 1u8 == 1u8
                || (b >> 5u8) & 1u8 == 1u8 || (b >> 6u8) & 1u8 == 1u8) by (bit_vector);
            if (b >> 0u8) & 1u8 == 1u8 {
                assert(self.has(0));
            } else if (b >> 1u8) & 1u8 == 1u8 {
                assert(self.has(1));
            } else if (b >> 2u8) & 1u8 == 1u8 {
                assert(self.has(2));
            } else if (b >> 3u8) & 1u8 == 1u8 {
                assert(self.has(3));
            } else if (b >> 4u8) & 1u8 == 1u8 {
                assert(self.has(4));
            } else if (b >> 5u8) & 1u8 == 1u8 {
                assert(self.has(5));
            } else {
                assert(self.has(6));
            }
        } else {
            assert forall|d: int| 0 <= d < 7 implies !#[trigger] self.has(d) by {
                let s = d as u8;
                assert(b == 0 ==> (b >> s) & 1u8 == 0u8) by (bit_vector);
            }
        }
    }

    /// The set of no day.
    pub fn empty() -> (r: DayFlags)
        ensures
            r.wf(),
            r.spec_is_empty(),
    {
        let r = DayFlags { bits: 0 };
        proof {
            r.lemma_empty_iff_zero();
        }
        r
    }

    /// The set of all seven days.
    pub fn all() -> (r: DayFlags)
        ensures
            r.wf(),
            forall|d: int| 0 <= d < 7 ==> #[trigger] r.has(d),
            !r.spec_is_empty(),
    {
        let r = DayFlags { bits: 0b0111_1111 };
        assert forall|d: int| 0 <= d < 7 implies #[trigger] r.has(d) by {
            let s = d as u8;
            assert(s < 7 ==> (0b0111_1111u8 >> s) & 1u8 == 1u8) by (bit_vector);
        }
        assert(r.has(0));
        r
    }

    /// The set of the days whose bits are set in `bits`; the eighth bit is dropped.
    pub fn from_bits_truncate(bits: u8) -> (r: DayFlags)
        ensures
            r.wf(),
            bits < 128 ==> r.spec_bits() == bits,
            forall|d: int| 0 <= d < 7 ==> (#[trigger] r.has(d) <==> (bits >> (d as u8)) & 1u8 == 1u8),
    {
        let r = DayFlags { bits: bits & 0b0111_1111 };
        assert(bits & 0b0111_1111u8 < 128) by (bit_vector);
        assert(bits < 128 ==> bits & 0b0111_1111u8 == bits) by (bit_vector);
        assert forall|d: int| 0 <= d < 7 implies (#[trigger] r.has(d) <==> (bits >> (d as u8)) & 1u8 == 1u8) by {
            let s = d as u8;
            assert(s < 7 ==> (((bits & 0b0111_1111u8) >> s) & 1u8 == (bits >> s) & 1u8)) by (bit_vector);
        }
        r
    }

    /// The raw bits of the set, Monday in the lowest bit.
    pub fn bits(&self) -> (r: u8)
        ensures
            r == self.spec_bits(),
    {
        self.bits
    }

    /// The set that holds just `day`.
    pub fn from_weekday(day: Weekday) -> (r: DayFlags)
        ensures
            r.wf(),
            forall|d: int| 0 <= d < 7 ==> (#[trigger] r.has(d) <==> d == day.index()),
    {
        let i = day.to_index();
        let r = DayFlags { bits: 1u8 << i };
        assert(i < 7 ==> (1u8 << i) < 128) by (bit_vector);
        assert forall|d: int| 0 <= d < 7 implies (#[trigger] r.has(d) <==> d == day.index()) by {
            let s = d as u8;
            assert(s < 7 && i < 7 ==> (((1u8 << i) >> s) & 1u8 == 1u8 <==> s == i)) by (bit_vector);
        }
        r
    }

    /// Whether the set holds no day.
    pub fn is_empty(&self) -> (r: bool)
        requires
            self.wf(),
        ensures
            r == self.spec_is_empty(),
    {
        proof {
            self.lemma_empty_iff_zero();
        }
        self.bits == 0
    }

    /// Whether `day` is in the set.
    pub fn contains_day(&self, day: Weekday) -> (r: bool)
        ensures
            r == self.has(day.index()),
    {
        let i = day.to_index();
        (self.bits >> i) & 1 == 1
    }

    /// Whether the two sets share a day.
    pub fn intersects(&self, other: DayFlags) -> (r: bool)
        requires
            self.wf(),
        ensures
            r == exists|d: int| 0 <= d < 7 && #[trigger] self.has(d) && other.has(d),
    {
        let a = self.bits;
        let b = other.bits;
        let r = a & b != 0;
        if r {
            assert(a < 128 && a & b != 0 ==> (a >> 0u8) & 1u8 == 1u8 && (b >> 0u8) & 1u8 == 1u8
                || (a >> 1u8) & 1u8 == 1u8 && (b >> 1u8) & 1u8 == 1u8
                || (a >> 2u8) & 1u8 == 1u8 && (b >> 2u8) & 1u8 == 1u8
                || (a >> 3u8) & 1u8 == 1u8 && (b >> 3u8) & 1u8 == 1u8
                || (a >> 4u8) & 1u8 == 1u8 && (b >> 4u8) & 1u8 == 1u8
                || (a >> 5u8) & 1u8 == 1u8 && (b >> 5u8) & 1u8 == 1u8
                || (a >> 6u8) & 1u8 == 1u8 && (b >> 6u8) & 1u8 == 1u8) by (bit_vector);
            if (a >> 0u8) & 1u8 == 1u8 && (b >> 0u8) & 1u8 == 1u8 {
                assert(self.has(0) && other.has(0));
            } else if (a >> 1u8) & 1u8 == 1u8 && (b >> 1u8) & 1u8 == 1u8 {
                assert(self.has(1) && other.has(1));
            } else if (a >> 2u8) & 1u8 == 1u8 && (b >> 2u8) & 1u8 == 1u8 {
                assert(self.has(2) && other.has(2));
            } else if (a >> 3u8) & 1u8 == 1u8 && (b >> 3u8) & 1u8 == 1u8 {
                assert(self.has(3) && other.has(3));
            } else if (a >> 4u8) & 1u8 == 1u8 && (b >> 4u8) & 1u8 == 1u8 {
                assert(self.has(4) && other.has(4));
            } else if (a >> 5u8) & 1u8 == 1u8 && (b >> 5u8) & 1u8 == 1u8 {
                assert(self.has(5) && other.has(5));
            } else {
                assert(self.has(6) && other.has(6));
            }
        } else {
            assert forall|d: int| 0 <= d < 7 && #[trigger] self.has(d) implies !other.has(d) by {
                let s = d as u8;
                assert(a & b == 0 && (a >> s) & 1u8 == 1u8 ==> (b >> s) & 1u8 != 1u8) by (bit_vector);
            }
        }
        r
    }

    /// The days that are in either set.
    pub fn union(&self, other: DayFlags) -> (r: DayFlags)
        requires
            self.wf(),
            other.wf(),
        ensures
            r.wf(),
            forall|d: int| 0 <= d < 7 ==> (#[trigger] r.has(d) <==> self.has(d) || other.has(d)),
    {
        let a = self.bits;
        let b = other.bits;
        let r = DayFlags { bits: a | b };
        assert(a < 128 && b < 128 ==> a | b < 128) by (bit_vector);
        assert forall|d: int| 0 <= d < 7 implies (#[trigger] r.has(d) <==> self.has(d) || other.has(d)) by {
            let s = d as u8;
            assert(((a | b) >> s) & 1u8 == 1u8 <==> (a >> s) & 1u8 == 1u8 || (b >> s) & 1u8 == 1u8) by (bit_vector);
        }
        r
    }

    /// How many days after `today` the next day of the set comes: 1 for the
    /// day after, up to 7 when `today` is the only day of the set. Never 0, so
    /// that a weekly alarm cannot fire twice on one day.
    pub fn days_after(&self, today: Weekday) -> (r: u32)
        requires
            self.wf(),
            !self.spec_is_empty(),
        ensures
            1 <= r <= 7,
            self.has((today.index() + r) % 7),
            forall|k: int| 1 <= k < r ==> !#[trigger] self.has((today.index() + k) % 7),
    {
        let t = today.to_index();
        let mut k: u8 = 1;
        while k <= 7
            invariant
                1 <= k <= 8,
                t == today.index(),
                forall|j: int| 1 <= j < k ==> !#[trigger] self.has((t + j) % 7),
            decreases 8 - k,
        {
            let d: u8 = (t + k) % 7;
            if (self.bits >> d) & 1 == 1 {
                return k as u32;
            }
            k = k + 1;
        }
        proof {
            assert forall|d: int| 0 <= d < 7 implies !#[trigger] self.has(d) by {
                let j = if d > t { d - t } else { d - t + 7 };
                assert((t + j) % 7 == d);
                assert(!self.has((t + j) % 7));
            }
        }
        7
    }
}

} // verus!

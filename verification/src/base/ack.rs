use vstd::prelude::*;

use crate::base::varint::{varint_size, VarInt};

verus! {

/// How many packets came with each explicit congestion mark.
#[derive(Clone, Copy, Debug, PartialEq, Eq, Structural)]
pub struct EcnCounts {
    pub ect0: VarInt,
    pub ect1: VarInt,
    pub ce: VarInt,
}

/// An ACK frame: the largest acknowledged number, how long the acknowledgement was held back in
/// microseconds, how many numbers below the largest belong to its range, and for each further
/// range, from high to low, the gap before it and its length, both less one. The congestion counts
/// come with it where the peer reads the marks.
#[derive(Debug)]
pub struct AckFrame {
    pub largest: VarInt,
    pub delay: VarInt,
    pub first_range: VarInt,
    pub ranges: Vec<(VarInt, VarInt)>,
    pub ecn: Option<EcnCounts>,
}

/// The smallest number of the range that begins `count` entries into `ranges`, below a range
/// that starts at `start`.
pub open spec fn range_start(start: int, ranges: Seq<(VarInt, VarInt)>, count: int) -> int
    decreases count,
{
    if count <= 0 {
        start
    } else {
        let (gap, length) = ranges[count - 1];
        range_start(start, ranges, count - 1) - gap.value - 2 - length.value
    }
}

/// The inclusive bounds that entry `index` of `ranges` stands for.
pub open spec fn range_bounds(
    start: int,
    ranges: Seq<(VarInt, VarInt)>,
    index: int,
) -> (int, int) {
    (
        range_start(start, ranges, index + 1),
        range_start(start, ranges, index) - ranges[index].0.value - 2,
    )
}

/// Bytes that the additional ranges take on the wire.
pub open spec fn ranges_size(ranges: Seq<(VarInt, VarInt)>) -> int
    decreases ranges.len(),
{
    if ranges.len() == 0 {
        0
    } else {
        ranges_size(ranges.drop_last()) + varint_size(ranges.last().0.value as int) + varint_size(
            ranges.last().1.value as int,
        )
    }
}

impl AckFrame {
    /// Every field fits its encoding and no range reaches below zero.
    pub open spec fn wf(&self) -> bool {
        &&& self.fields_fit()
        &&& self.ranges_fit()
    }

    /// Every field fits its encoding.
    pub open spec fn fields_fit(&self) -> bool {
        &&& self.largest.wf()
        &&& self.delay.wf()
        &&& self.first_range.wf()
        &&& forall|i: int|
            #![trigger self.ranges@[i]]
            0 <= i < self.ranges@.len() ==> self.ranges@[i].0.wf() && self.ranges@[i].1.wf()
        &&& self.ecn matches Some(counts) ==> counts.ect0.wf() && counts.ect1.wf() && counts.ce.wf()
    }

    /// No range reaches below zero.
    pub open spec fn ranges_fit(&self) -> bool {
        forall|i: int|
            #![trigger range_start(self.first_start(), self.ranges@, i)]
            0 <= i <= self.ranges@.len() ==> 0 <= range_start(self.first_start(), self.ranges@, i)
    }

    /// The smallest number of the first range.
    pub open spec fn first_start(&self) -> int {
        self.largest.value - self.first_range.value
    }

    /// Whether the frame acknowledges `pn`.
    pub open spec fn acks(&self, pn: int) -> bool {
        ||| self.first_start() <= pn <= self.largest.value
        ||| exists|i: int|
            #![trigger self.ranges@[i]]
            0 <= i < self.ranges@.len() && {
                let (low, high) = range_bounds(self.first_start(), self.ranges@, i);
                low <= pn <= high
            }
    }

    /// Bytes the frame takes on the wire.
    pub open spec fn size(&self) -> int {
        1 + varint_size(self.largest.value as int) + varint_size(self.delay.value as int)
            + varint_size(self.ranges@.len() as int) + varint_size(self.first_range.value as int)
            + ranges_size(self.ranges@) + match self.ecn {
            Some(counts) => varint_size(counts.ect0.value as int) + varint_size(counts.ect1.value as int)
                + varint_size(counts.ce.value as int),
            None => 0,
        }
    }

    /// The acknowledged ranges, from high to low, as inclusive bounds.
    pub open spec fn listed(&self) -> Seq<(int, int)> {
        Seq::new(
            self.ranges@.len() + 1,
            |i: int|
                if i == 0 {
                    (self.first_start(), self.largest.value as int)
                } else {
                    range_bounds(self.first_start(), self.ranges@, i - 1)
                },
        )
    }

    /// Lists the acknowledged ranges from high to low, each as inclusive bounds; `None` if one
    /// reaches below zero, as a frame off the wire may.
    pub fn checked_ranges(&self) -> (result: Option<Vec<(u64, u64)>>)
        ensures
            result is Some <==> self.ranges_fit(),
            result matches Some(bounds) ==> self.lists(bounds@),
    {
        if self.first_range.value > self.largest.value {
            assert(range_start(self.first_start(), self.ranges@, 0) < 0);
            return None;
        }
        let mut bounds: Vec<(u64, u64)> = Vec::new();
        let mut start: u64 = self.largest.value - self.first_range.value;
        bounds.push((start, self.largest.value));
        let mut index: usize = 0;
        while index < self.ranges.len()
            invariant
                index <= self.ranges@.len(),
                start == range_start(self.first_start(), self.ranges@, index as int),
                forall|i: int|
                    #![trigger range_start(self.first_start(), self.ranges@, i)]
                    0 <= i <= index ==> 0 <= range_start(self.first_start(), self.ranges@, i),
                bounds@.len() == index + 1,
                bounds@[index as int].0 == start,
                forall|i: int|
                    #![trigger bounds@[i]]
                    0 <= i < bounds@.len() ==> (bounds@[i].0 as int, bounds@[i].1 as int)
                        == self.listed()[i] && start <= bounds@[i].0 <= bounds@[i].1
                        <= self.largest.value,
                forall|i: int, j: int|
                    #![trigger bounds@[i], bounds@[j]]
                    0 <= i < j < bounds@.len() ==> bounds@[j].1 + 1 < bounds@[i].0,
            decreases self.ranges@.len() - index,
        {
            let (gap, length) = self.ranges[index];
            assert(self.ranges@[index as int] == (gap, length));
            let ghost next = range_start(self.first_start(), self.ranges@, index + 1);
            assert(next == start - gap.value - 2 - length.value);
            if gap.value > start || start - gap.value < 2 {
                return None;
            }
            let high: u64 = start - gap.value - 2;
            if length.value > high {
                return None;
            }
            let low: u64 = high - length.value;
            bounds.push((low, high));
            start = low;
            index = index + 1;
        }
        Some(bounds)
    }

    /// Whether `bounds` lists the ranges of the frame, disjoint and from high to low.
    pub open spec fn lists(&self, bounds: Seq<(u64, u64)>) -> bool {
        &&& bounds.len() == self.listed().len()
        &&& forall|i: int|
            #![trigger bounds[i]]
            0 <= i < bounds.len() ==> (bounds[i].0 as int, bounds[i].1 as int) == self.listed()[i]
                && bounds[i].0 <= bounds[i].1 <= self.largest.value
        &&& forall|i: int, j: int|
            #![trigger bounds[i], bounds[j]]
            0 <= i < j < bounds.len() ==> bounds[j].1 + 1 < bounds[i].0
    }
}

/// Whether one of the inclusive bounds holds `pn`.
pub open spec fn within(bounds: Seq<(u64, u64)>, pn: int) -> bool {
    exists|i: int| #![trigger bounds[i]] 0 <= i < bounds.len() && bounds[i].0 <= pn <= bounds[i].1
}

/// Listed bounds hold what the frame acknowledges.
pub proof fn listed_bounds_acknowledge(frame: &AckFrame, bounds: Seq<(u64, u64)>, pn: int)
    requires
        frame.lists(bounds),
    ensures
        within(bounds, pn) <==> frame.acks(pn),
{
    if within(bounds, pn) {
        let i = choose|i: int| #![trigger bounds[i]] 0 <= i < bounds.len() && bounds[i].0 <= pn <= bounds[i].1;
        if i > 0 {
            assert(frame.ranges@[i - 1] == frame.ranges@[i - 1]);
        }
    }
    if frame.first_start() <= pn <= frame.largest.value {
        assert(bounds[0].0 <= pn <= bounds[0].1);
    } else if frame.acks(pn) {
        let i = choose|i: int|
            #![trigger frame.ranges@[i]]
            0 <= i < frame.ranges@.len() && {
                let (low, high) = range_bounds(frame.first_start(), frame.ranges@, i);
                low <= pn <= high
            };
        assert(bounds[i + 1].0 <= pn <= bounds[i + 1].1);
    }
}

/// Whether one of the inclusive bounds holds `pn`.
pub fn is_within(bounds: &Vec<(u64, u64)>, pn: u64) -> (found: bool)
    ensures
        found == within(bounds@, pn as int),
{
    let mut index: usize = 0;
    while index < bounds.len()
        invariant
            index <= bounds@.len(),
            forall|i: int| #![trigger bounds@[i]] 0 <= i < index ==> !(bounds@[i].0 <= pn <= bounds@[i].1),
        decreases bounds@.len() - index,
    {
        if bounds[index].0 <= pn && pn <= bounds[index].1 {
            return true;
        }
        index = index + 1;
    }
    false
}

/// A frame without further ranges acknowledges its largest number and as many below it as its first range says.
/// A further range leaves out one number more than its gap below all that came before, and then acknowledges
/// one number more than its length.
pub proof fn further_range_adds_its_numbers(frame: AckFrame, longer: AckFrame, least: int, pn: int)
    requires
        longer.largest == frame.largest,
        longer.first_range == frame.first_range,
        longer.ranges@.len() == frame.ranges@.len() + 1,
        longer.ranges@.drop_last() == frame.ranges@,
        frame.acks(least),
        forall|other: int| #[trigger] frame.acks(other) ==> least <= other,
    ensures
        ({
            let (gap, length) = longer.ranges@.last();
            longer.acks(pn) <==> frame.acks(pn) || least - gap.value - 2 - length.value <= pn <= least - gap.value - 2
        }),
        frame.ranges@.len() == 0 ==> (frame.acks(pn) <==> frame.largest.value - frame.first_range.value <= pn
            <= frame.largest.value),
{
    lemma_least(frame, frame.ranges@.len() as int, least);
    lemma_longer_acks(frame, longer, pn);
}

/// Whether entry `i` of a frame holds `pn`.
spec fn entry_holds(frame: AckFrame, i: int, pn: int) -> bool {
    &&& 0 <= i < frame.ranges@.len()
    &&& range_start(frame.first_start(), frame.ranges@, i + 1) <= pn
    &&& pn <= range_start(frame.first_start(), frame.ranges@, i) - frame.ranges@[i].0.value - 2
}

proof fn lemma_acks(frame: AckFrame, pn: int)
    ensures
        frame.acks(pn) <==> frame.first_start() <= pn <= frame.largest.value || exists|i: int| #[trigger]
            entry_holds(frame, i, pn),
{
    if exists|i: int| #[trigger] entry_holds(frame, i, pn) {
        let i = choose|i: int| #[trigger] entry_holds(frame, i, pn);
        assert(frame.ranges@[i] == frame.ranges@[i]);
    }
    if frame.acks(pn) && !(frame.first_start() <= pn <= frame.largest.value) {
        let i = choose|i: int|
            #![trigger frame.ranges@[i]]
            0 <= i < frame.ranges@.len() && {
                let (low, high) = range_bounds(frame.first_start(), frame.ranges@, i);
                low <= pn <= high
            };
        assert(entry_holds(frame, i, pn));
    }
}

proof fn lemma_entry(frame: AckFrame, longer: AckFrame, i: int, pn: int)
    requires
        longer.largest == frame.largest,
        longer.first_range == frame.first_range,
        longer.ranges@.len() == frame.ranges@.len() + 1,
        longer.ranges@.drop_last() == frame.ranges@,
        0 <= i < frame.ranges@.len(),
    ensures
        entry_holds(frame, i, pn) == entry_holds(longer, i, pn),
{
    lemma_range_starts(frame, longer, i);
    lemma_range_starts(frame, longer, i + 1);
    assert(longer.ranges@.drop_last()[i] == longer.ranges@[i]);
}

proof fn lemma_longer_acks(frame: AckFrame, longer: AckFrame, pn: int)
    requires
        longer.largest == frame.largest,
        longer.first_range == frame.first_range,
        longer.ranges@.len() == frame.ranges@.len() + 1,
        longer.ranges@.drop_last() == frame.ranges@,
    ensures
        ({
            let (gap, length) = longer.ranges@.last();
            let least = range_start(frame.first_start(), frame.ranges@, frame.ranges@.len() as int);
            longer.acks(pn) <==> frame.acks(pn) || least - gap.value - 2 - length.value <= pn <= least - gap.value - 2
        }),
{
    let count = frame.ranges@.len() as int;
    lemma_acks(frame, pn);
    lemma_acks(longer, pn);
    lemma_range_starts(frame, longer, count);
    let (gap, length) = longer.ranges@[count];
    let least = range_start(frame.first_start(), frame.ranges@, count);
    assert(entry_holds(longer, count, pn) <==> least - gap.value - 2 - length.value <= pn <= least - gap.value - 2);
    if exists|i: int| #[trigger] entry_holds(frame, i, pn) {
        let i = choose|i: int| #[trigger] entry_holds(frame, i, pn);
        lemma_entry(frame, longer, i, pn);
    }
    if exists|i: int| #[trigger] entry_holds(longer, i, pn) {
        let i = choose|i: int| #[trigger] entry_holds(longer, i, pn);
        if i < count {
            lemma_entry(frame, longer, i, pn);
        }
    }
}

proof fn lemma_range_starts(frame: AckFrame, longer: AckFrame, count: int)
    requires
        longer.ranges@.drop_last() == frame.ranges@,
        longer.ranges@.len() == frame.ranges@.len() + 1,
        0 <= count <= frame.ranges@.len(),
    ensures
        range_start(frame.first_start(), longer.ranges@, count) == range_start(frame.first_start(), frame.ranges@, count),
    decreases count,
{
    if count > 0 {
        lemma_range_starts(frame, longer, count - 1);
        assert(longer.ranges@.drop_last()[count - 1] == longer.ranges@[count - 1]);
    }
}

/// The last range holds the least number of all.
proof fn lemma_least(frame: AckFrame, count: int, least: int)
    requires
        count == frame.ranges@.len(),
        frame.acks(least),
        forall|other: int| #[trigger] frame.acks(other) ==> least <= other,
    ensures
        least == range_start(frame.first_start(), frame.ranges@, count),
{
    let start = frame.first_start();
    let lowest = range_start(start, frame.ranges@, count);
    if count == 0 {
        assert(frame.acks(start));
    } else {
        let (gap, length) = frame.ranges@[count - 1];
        assert(range_bounds(start, frame.ranges@, count - 1).0 == lowest);
        assert(frame.acks(lowest));
        if start <= least <= frame.largest.value {
            lemma_descending(frame, count);
        } else {
            let i = choose|i: int|
                #![trigger frame.ranges@[i]]
                0 <= i < count && {
                    let (low, high) = range_bounds(start, frame.ranges@, i);
                    low <= least <= high
                };
            lemma_descends_from(frame, i + 1, count);
        }
    }
}

proof fn lemma_descending(frame: AckFrame, count: int)
    requires
        0 <= count <= frame.ranges@.len(),
    ensures
        range_start(frame.first_start(), frame.ranges@, count) <= frame.first_start(),
    decreases count,
{
    if count > 0 {
        lemma_descending(frame, count - 1);
    }
}

proof fn lemma_descends_from(frame: AckFrame, from: int, count: int)
    requires
        0 <= from <= count <= frame.ranges@.len(),
    ensures
        range_start(frame.first_start(), frame.ranges@, count) <= range_start(frame.first_start(), frame.ranges@, from),
    decreases count - from,
{
    if from < count {
        lemma_descends_from(frame, from, count - 1);
    }
}

/// A frame takes a byte for its type, one for each small field, and two more for each further range of small
/// numbers.
pub proof fn small_frame_is_short(frame: AckFrame, longer: AckFrame)
    requires
        frame.largest.value < 64 && frame.delay.value < 64 && frame.first_range.value < 64,
        frame.ecn is None,
        frame.ranges@.len() == 0,
    ensures
        frame.size() == 5,
        ranges_size(Seq::empty()) == 0,
        longer.ranges@.len() > 0 ==> ranges_size(longer.ranges@) == ranges_size(longer.ranges@.drop_last()) + varint_size(
            longer.ranges@.last().0.value as int,
        ) + varint_size(longer.ranges@.last().1.value as int),
        longer.ecn is None ==> longer.size() == 1 + varint_size(longer.largest.value as int) + varint_size(
            longer.delay.value as int,
        ) + varint_size(longer.ranges@.len() as int) + varint_size(longer.first_range.value as int) + ranges_size(
            longer.ranges@,
        ),
{
}

} // verus!

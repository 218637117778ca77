use vstd::prelude::*;

use crate::base::ack::{range_bounds, range_start, ranges_size, AckFrame};
use crate::base::packet_number::{decoded, InvalidPacketNumber, PacketNumber};
use crate::base::signals::Signals;
use crate::base::varint::{varint_size, VarInt, VARINT_MAX};

verus! {

/// Wider than the number of ranges that normally fit in one ACK, so that reordering across
/// paths does not at once retire the packets of a slow path, yet a fixed memory limit.
pub const MAX_TRACKED_ACK_RANGES: usize = 256;

/// A half-open range of packet numbers.
#[derive(Clone, Copy, Debug, PartialEq, Eq, Structural)]
pub struct PnRange {
    pub start: u64,
    pub end: u64,
}

/// Whether `pn` lies in one of the ranges.
pub open spec fn covered(ranges: Seq<PnRange>, pn: int) -> bool {
    exists|i: int| #![trigger ranges[i]] 0 <= i < ranges.len() && ranges[i].start <= pn < ranges[i].end
}

/// Sorted, not empty, and never touching one another.
pub open spec fn canonical(ranges: Seq<PnRange>) -> bool {
    &&& forall|i: int| #![trigger ranges[i]] 0 <= i < ranges.len() ==> ranges[i].start < ranges[i].end
    &&& forall|i: int, j: int|
        #![trigger ranges[i], ranges[j]]
        0 <= i < j < ranges.len() ==> ranges[i].end < ranges[j].start
}

/// The range that holds `pn`.
pub open spec fn index_of(ranges: Seq<PnRange>, pn: int) -> int {
    choose|i: int| #![trigger ranges[i]] 0 <= i < ranges.len() && ranges[i].start <= pn < ranges[i].end
}

/// The `i`-th entry of an ACK frame whose first range starts at `start`, when the `below` lowest
/// of `ranges` lie under it.
pub open spec fn ack_entry(ranges: Seq<PnRange>, below: int, start: int, i: int) -> (VarInt, VarInt) {
    let above = if i == 0 { start } else { ranges[below - i].start as int };
    let range = ranges[below - 1 - i];
    (
        VarInt { value: (above - range.end - 1) as u64 },
        VarInt { value: (range.end - range.start - 1) as u64 },
    )
}

/// The first `count` entries of such a frame.
pub open spec fn ack_entries(ranges: Seq<PnRange>, below: int, start: int, count: int) -> Seq<(VarInt, VarInt)> {
    Seq::new(count as nat, |i: int| ack_entry(ranges, below, start, i))
}

/// Bytes of an ACK frame with these fields.
pub open spec fn ack_size(largest: int, delay: int, first: int, entries: Seq<(VarInt, VarInt)>) -> int {
    1 + varint_size(largest) + varint_size(delay) + varint_size(entries.len() as int) + varint_size(first)
        + ranges_size(entries)
}

/// How long ago `then` was at `now`, as far as an ACK frame can say it.
pub open spec fn ack_delay(then: u64, now: u64) -> int {
    if now <= then {
        0
    } else if now - then > VARINT_MAX {
        VARINT_MAX as int
    } else {
        now - then
    }
}

/// Received packet numbers as sorted, disjoint, half-open ranges.
///
/// The set does not depend on whether any ACK is delivered: what is kept is bounded whatever the
/// peer does.
#[derive(Debug)]
pub struct ReceivedPacketRanges {
    pub ranges: Vec<PnRange>,
    /// Numbers below this boundary are never accepted again. It moves only when the bound on
    /// ranges is hit and the oldest range is evicted.
    pub retired_before: u64,
    /// The largest number ever received, and when.
    pub largest_received: Option<(u64, u64)>,
}

impl ReceivedPacketRanges {
    pub open spec fn wf(&self) -> bool {
        &&& canonical(self.ranges@)
        &&& self.ranges@.len() <= MAX_TRACKED_ACK_RANGES
        &&& self.ranges@.len() > 0 ==> self.ranges@[0].start >= self.retired_before
        &&& match self.largest_received {
            Some((largest, _)) => self.ranges@.len() > 0 && self.ranges@.last().end == largest + 1,
            None => self.ranges@.len() == 0 && self.retired_before == 0,
        }
    }

    pub open spec fn has(&self, pn: int) -> bool {
        covered(self.ranges@, pn)
    }

    /// What recording `pn` at `now` makes of the state.
    pub open spec fn inserted(&self, after: &ReceivedPacketRanges, pn: u64, now: u64) -> bool {
        &&& exists|grown: Seq<PnRange>|
            {
                &&& #[trigger] canonical(grown)
                &&& forall|x: int| #![trigger covered(grown, x)] covered(grown, x) <==> self.has(x) || x == pn
                &&& if grown.len() <= MAX_TRACKED_ACK_RANGES {
                    after.ranges@ == grown && after.retired_before == self.retired_before
                } else {
                    after.ranges@ == grown.drop_first() && after.retired_before == grown[0].end
                }
            }
        &&& after.largest_received == match self.largest_received {
            Some((largest, at)) if largest >= pn => Some((largest, at)),
            _ => Some((pn, now)),
        }
    }

    pub fn new(capacity: usize) -> (ranges: ReceivedPacketRanges)
        ensures
            ranges.wf(),
            forall|pn: int| !ranges.has(pn),
            ranges.retired_before == 0,
            ranges.largest_received is None,
    {
        let capacity: usize = if capacity < MAX_TRACKED_ACK_RANGES {
            capacity
        } else {
            MAX_TRACKED_ACK_RANGES
        };
        ReceivedPacketRanges {
            ranges: Vec::with_capacity(capacity),
            retired_before: 0,
            largest_received: None,
        }
    }

    /// The first range that ends beyond `pn`.
    fn first_ending_after(&self, pn: u64) -> (index: usize)
        requires
            self.wf(),
        ensures
            index <= self.ranges@.len(),
            forall|i: int| #![trigger self.ranges@[i]] 0 <= i < index ==> self.ranges@[i].end <= pn,
            forall|i: int|
                #![trigger self.ranges@[i]]
                index <= i < self.ranges@.len() ==> pn < self.ranges@[i].end,
    {
        let mut low: usize = 0;
        let mut high: usize = self.ranges.len();
        while low < high
            invariant
                self.wf(),
                low <= high <= self.ranges@.len(),
                forall|i: int| #![trigger self.ranges@[i]] 0 <= i < low ==> self.ranges@[i].end <= pn,
                forall|i: int|
                    #![trigger self.ranges@[i]]
                    high <= i < self.ranges@.len() ==> pn < self.ranges@[i].end,
            decreases high - low,
        {
            let middle: usize = low + (high - low) / 2;
            if self.ranges[middle].end <= pn {
                low = middle + 1;
            } else {
                high = middle;
            }
        }
        low
    }

    pub fn contains(&self, pn: u64) -> (found: bool)
        requires
            self.wf(),
        ensures
            found == self.has(pn as int),
    {
        self.range_containing(pn).is_some()
    }

    /// Where the range that holds `pn` stands.
    pub fn range_containing(&self, pn: u64) -> (index: Option<usize>)
        requires
            self.wf(),
        ensures
            index matches Some(i) ==> i < self.ranges@.len() && self.ranges@[i as int].start <= pn
                < self.ranges@[i as int].end && i == index_of(self.ranges@, pn as int),
            index is Some <==> self.has(pn as int),
    {
        let index: usize = self.first_ending_after(pn);
        if index < self.ranges.len() && self.ranges[index].start <= pn {
            proof {
                lemma_index_unique(self.ranges@, pn as int, index as int);
            }
            Some(index)
        } else {
            assert forall|i: int|
                #![trigger self.ranges@[i]]
                0 <= i < self.ranges@.len() implies !(self.ranges@[i].start <= pn
                < self.ranges@[i].end) by {
                if index < i {
                    assert(self.ranges@[index as int].end < self.ranges@[i].start);
                }
            }
            None
        }
    }

    pub fn largest(&self) -> (largest: Option<(u64, u64)>)
        ensures
            largest == self.largest_received,
    {
        self.largest_received
    }

    /// Records `pn` as received at `received_at`. Returns whether it was neither retired nor
    /// recorded before.
    pub fn insert(&mut self, pn: u64, received_at: u64) -> (fresh: bool)
        requires
            old(self).wf(),
            pn < u64::MAX,
        ensures
            final(self).wf(),
            fresh <==> pn >= old(self).retired_before && !old(self).has(pn as int),
            !fresh ==> *final(self) == *old(self),
            fresh ==> old(self).inserted(final(self), pn, received_at),
    {
        if pn < self.retired_before || self.contains(pn) {
            return false;
        }
        let ghost before = self.ranges@;
        let mut index: usize = self.first_ending_after(pn);
        if index > 0 && self.ranges[index - 1].end == pn {
            index = index - 1;
        }
        assert(forall|i: int| #![trigger before[i]] 0 <= i < index ==> before[i].end < pn);
        let inserted_end: u64 = pn + 1;
        if index < self.ranges.len() && self.ranges[index].end == pn {
            let mut end: u64 = inserted_end;
            let start: u64 = self.ranges[index].start;
            if index + 1 < self.ranges.len() && self.ranges[index + 1].start <= inserted_end {
                end = self.ranges[index + 1].end;
                self.ranges.remove(index + 1);
            }
            self.ranges.set(index, PnRange { start, end });
            proof {
                lemma_extended(before, self.ranges@, index as int, pn);
            }
        } else if index < self.ranges.len() && self.ranges[index].start == inserted_end {
            let end: u64 = self.ranges[index].end;
            self.ranges.set(index, PnRange { start: pn, end });
            proof {
                lemma_lowered(before, self.ranges@, index as int, pn);
            }
        } else {
            self.ranges.insert(index, PnRange { start: pn, end: inserted_end });
            proof {
                lemma_inserted(before, self.ranges@, index as int, pn);
            }
        }
        let ghost grown = self.ranges@;
        assert(canonical(grown));

        let fresh_largest: bool = match self.largest_received {
            Some((largest, _)) => pn > largest,
            None => true,
        };
        if fresh_largest {
            self.largest_received = Some((pn, received_at));
        }
        if self.ranges.len() > MAX_TRACKED_ACK_RANGES {
            let evicted: PnRange = self.ranges.remove(0);
            assert(self.ranges@ =~= grown.drop_first());
            assert(grown[0].start >= old(self).retired_before);
            if evicted.end > self.retired_before {
                self.retired_before = evicted.end;
            }
        }
        true
    }
}

proof fn lemma_index_unique(ranges: Seq<PnRange>, pn: int, index: int)
    requires
        canonical(ranges),
        0 <= index < ranges.len(),
        ranges[index].start <= pn < ranges[index].end,
    ensures
        covered(ranges, pn),
        index_of(ranges, pn) == index,
{
    let other = index_of(ranges, pn);
    assert(ranges[index].start <= pn);
    if other < index {
        assert(ranges[other].end < ranges[index].start);
    }
    if index < other {
        assert(ranges[index].end < ranges[other].start);
    }
}

/// `grown` covers what `before` does, and `pn`.
spec fn covers_one_more(before: Seq<PnRange>, grown: Seq<PnRange>, pn: u64) -> bool {
    forall|x: int| #![trigger covered(grown, x)] covered(grown, x) <==> covered(before, x) || x == pn
}

proof fn lemma_extended(before: Seq<PnRange>, grown: Seq<PnRange>, index: int, pn: u64)
    requires
        canonical(before),
        0 <= index < before.len(),
        before[index].end == pn,
        pn < u64::MAX,
        index + 1 < before.len() && before[index + 1].start <= pn + 1 ==> grown == before.remove(
            index + 1,
        ).update(index, PnRange { start: before[index].start, end: before[index + 1].end }),
        !(index + 1 < before.len() && before[index + 1].start <= pn + 1) ==> grown
            == before.update(index, PnRange { start: before[index].start, end: (pn + 1) as u64 }),
    ensures
        canonical(grown),
        covers_one_more(before, grown, pn),
        grown.len() > 0,
        grown[0].start <= pn,
        grown.len() <= before.len(),
        grown[0].start == before[0].start,
        grown.last().end == if index + 1 == before.len() { (pn + 1) as u64 } else { before.last().end },
{
    let merges = index + 1 < before.len() && before[index + 1].start <= pn + 1;
    assert(index > 0 ==> before[0].end < before[index].start);
    if merges {
        assert(forall|k: int| 0 <= k < grown.len() ==> grown[k] == if k < index {
            before[k]
        } else if k == index {
            PnRange { start: before[index].start, end: before[index + 1].end }
        } else {
            before[k + 1]
        });
    }
    assert forall|x: int|
        #![trigger covered(grown, x)]
        covered(grown, x) <==> covered(before, x) || x == pn by {
        if covered(grown, x) {
            let k = choose|k: int| #![trigger grown[k]] 0 <= k < grown.len() && grown[k].start <= x < grown[k].end;
            if k < index {
                assert(before[k].start <= x < before[k].end);
            } else if k == index {
                if x < pn {
                    assert(before[k].start <= x < before[k].end);
                } else if x > pn {
                    assert(merges);
                    assert(before[k + 1].start <= x < before[k + 1].end);
                }
            } else if merges {
                assert(before[k + 1].start <= x < before[k + 1].end);
            } else {
                assert(before[k].start <= x < before[k].end);
            }
        }
        if covered(before, x) {
            let k = choose|k: int| #![trigger before[k]] 0 <= k < before.len() && before[k].start <= x < before[k].end;
            if k <= index || !merges {
                assert(grown[k].start <= x < grown[k].end);
            } else {
                assert(grown[k - 1].start <= x < grown[k - 1].end);
            }
        }
        if x == pn {
            assert(grown[index].start <= x < grown[index].end);
        }
    }
}

proof fn lemma_lowered(before: Seq<PnRange>, grown: Seq<PnRange>, index: int, pn: u64)
    requires
        canonical(before),
        0 <= index < before.len(),
        before[index].start == pn + 1,
        forall|i: int| #![trigger before[i]] 0 <= i < index ==> before[i].end < pn,
        grown == before.update(index, PnRange { start: pn, end: before[index].end }),
    ensures
        canonical(grown),
        covers_one_more(before, grown, pn),
{
    assert forall|x: int|
        #![trigger covered(grown, x)]
        covered(grown, x) <==> covered(before, x) || x == pn by {
        if covered(grown, x) && x != pn {
            let k = choose|k: int| #![trigger grown[k]] 0 <= k < grown.len() && grown[k].start <= x < grown[k].end;
            assert(before[k].start <= x < before[k].end);
        }
        if covered(before, x) {
            let k = choose|k: int| #![trigger before[k]] 0 <= k < before.len() && before[k].start <= x < before[k].end;
            assert(grown[k].start <= x < grown[k].end);
        }
        if x == pn {
            assert(grown[index].start <= x < grown[index].end);
        }
    }
}

proof fn lemma_inserted(before: Seq<PnRange>, grown: Seq<PnRange>, index: int, pn: u64)
    requires
        canonical(before),
        0 <= index <= before.len(),
        pn < u64::MAX,
        forall|i: int| #![trigger before[i]] 0 <= i < index ==> before[i].end < pn,
        forall|i: int| #![trigger before[i]] index <= i < before.len() ==> pn < before[i].end,
        !covered(before, pn as int),
        index < before.len() ==> before[index].start != pn + 1,
        grown == before.insert(index, PnRange { start: pn, end: (pn + 1) as u64 }),
    ensures
        canonical(grown),
        covers_one_more(before, grown, pn),
{
    assert forall|i: int|
        #![trigger before[i]]
        index <= i < before.len() implies pn + 1 < before[i].start by {
        assert(!(before[i].start <= pn < before[i].end));
        if i > index {
            assert(before[index].end < before[i].start);
        }
    }
    assert forall|x: int|
        #![trigger covered(grown, x)]
        covered(grown, x) <==> covered(before, x) || x == pn by {
        if covered(grown, x) && x != pn {
            let k = choose|k: int| #![trigger grown[k]] 0 <= k < grown.len() && grown[k].start <= x < grown[k].end;
            if k < index {
                assert(before[k].start <= x < before[k].end);
            } else {
                assert(before[k - 1].start <= x < before[k - 1].end);
            }
        }
        if covered(before, x) {
            let k = choose|k: int| #![trigger before[k]] 0 <= k < before.len() && before[k].start <= x < before[k].end;
            if k < index {
                assert(grown[k].start <= x < grown[k].end);
            } else {
                assert(grown[k + 1].start <= x < grown[k + 1].end);
            }
        }
        if x == pn {
            assert(grown[index].start <= x < grown[index].end);
        }
    }
}


/// The ranges that cover a set of packet numbers are determined by the set.
pub proof fn canonical_ranges_are_unique(left: Seq<PnRange>, right: Seq<PnRange>)
    requires
        canonical(left),
        canonical(right),
        forall|pn: int| covered(left, pn) <==> covered(right, pn),
    ensures
        left == right,
    decreases left.len(),
{
    if left.len() == 0 {
        if right.len() > 0 {
            assert(covered(right, right[0].start as int));
        }
        assert(left =~= right);
    } else {
        assert(covered(left, left[0].start as int));
        let j = choose|j: int|
            #![trigger right[j]]
            0 <= j < right.len() && right[j].start <= left[0].start < right[j].end;
        assert(covered(right, right[0].start as int));
        let k = choose|k: int|
            #![trigger left[k]]
            0 <= k < left.len() && left[k].start <= right[0].start < left[k].end;
        assert(left[0].start == right[0].start) by {
            if k > 0 {
                assert(left[0].end < left[k].start);
            }
            if j > 0 {
                assert(right[0].end < right[j].start);
            }
        }
        lemma_first_end(left, right);
        lemma_first_end(right, left);
        assert(left[0] == right[0]);
        assert forall|pn: int| covered(left.drop_first(), pn) <==> covered(right.drop_first(), pn) by {
            lemma_drop_first(left, pn);
            lemma_drop_first(right, pn);
        }
        canonical_ranges_are_unique(left.drop_first(), right.drop_first());
        assert(left =~= seq![left[0]] + left.drop_first());
        assert(right =~= seq![right[0]] + right.drop_first());
    }
}

proof fn lemma_first_end(left: Seq<PnRange>, right: Seq<PnRange>)
    requires
        canonical(left),
        canonical(right),
        left.len() > 0,
        right.len() > 0,
        left[0].start == right[0].start,
        forall|pn: int| covered(left, pn) <==> covered(right, pn),
    ensures
        left[0].end <= right[0].end,
{
    if left[0].end > right[0].end {
        let pn = right[0].end as int;
        assert(left[0].start <= pn < left[0].end);
        assert(covered(left, pn));
        let j = choose|j: int| #![trigger right[j]] 0 <= j < right.len() && right[j].start <= pn < right[j].end;
        if j > 0 {
            assert(right[0].end < right[j].start);
        }
    }
}

proof fn lemma_drop_first(ranges: Seq<PnRange>, pn: int)
    requires
        canonical(ranges),
        ranges.len() > 0,
    ensures
        canonical(ranges.drop_first()),
        covered(ranges.drop_first(), pn) <==> covered(ranges, pn) && pn >= ranges[0].end,
{
    let rest = ranges.drop_first();
    if covered(rest, pn) {
        let k = choose|k: int| #![trigger rest[k]] 0 <= k < rest.len() && rest[k].start <= pn < rest[k].end;
        assert(ranges[k + 1] == rest[k]);
        assert(ranges[0].end < ranges[k + 1].start);
    }
    if covered(ranges, pn) && pn >= ranges[0].end {
        let k = choose|k: int| #![trigger ranges[k]] 0 <= k < ranges.len() && ranges[k].start <= pn < ranges[k].end;
        assert(rest[k - 1] == ranges[k]);
    }
}

/// Records which packet numbers have arrived, restores truncated ones and builds ACK frames.
///
/// Building an ACK only reads; when to acknowledge, and what follows from having done so, is for
/// each path to say.
#[derive(Debug)]
pub struct ArcRcvdJournal {
    pub packets: ReceivedPacketRanges,
}

impl ArcRcvdJournal {
    pub open spec fn wf(&self) -> bool {
        self.packets.wf()
    }

    /// The number that the next packet in order would bear.
    pub open spec fn expected(&self) -> int {
        match self.packets.largest_received {
            Some((largest, _)) => largest + 1,
            None => 0,
        }
    }

    /// What a truncated packet number comes to.
    pub open spec fn admitted(&self, encoded_pn: PacketNumber) -> Result<u64, InvalidPacketNumber> {
        let pn = decoded(encoded_pn.truncated(), encoded_pn.window(), self.expected());
        if pn < self.packets.retired_before {
            Err(InvalidPacketNumber::TooOld)
        } else if self.packets.has(pn) {
            Err(InvalidPacketNumber::Duplicate)
        } else {
            Ok(pn as u64)
        }
    }

    /// Whether an ACK may name `largest` as its largest number: it is on record, or has been.
    pub open spec fn can_acknowledge(&self, largest: u64) -> bool {
        self.packets.has(largest as int) || largest < self.packets.retired_before
    }

    /// The smallest number of the first range of an ACK for `largest`.
    pub open spec fn ack_start(&self, largest: u64) -> int {
        if self.packets.has(largest as int) {
            self.packets.ranges@[index_of(self.packets.ranges@, largest as int)].start as int
        } else {
            largest as int
        }
    }

    /// How many ranges lie under that first range.
    pub open spec fn ack_below(&self, largest: u64) -> int {
        if self.packets.has(largest as int) {
            index_of(self.packets.ranges@, largest as int)
        } else {
            0
        }
    }

    /// The size of an ACK for `largest` with `count` further ranges.
    pub open spec fn ack_bytes(&self, largest: u64, delay: int, count: int) -> int {
        ack_size(
            largest as int,
            delay,
            largest - self.ack_start(largest),
            ack_entries(self.packets.ranges@, self.ack_below(largest), self.ack_start(largest), count),
        )
    }

    pub fn with_capacity(capacity: usize) -> (journal: ArcRcvdJournal)
        ensures
            journal.wf(),
            forall|pn: int| !journal.packets.has(pn),
            journal.packets.retired_before == 0,
            journal.packets.largest_received is None,
    {
        ArcRcvdJournal { packets: ReceivedPacketRanges::new(capacity) }
    }

    /// Restores a packet number around the next expected one, and refuses one that is retired or
    /// on record.
    pub fn decode_pn(&self, encoded_pn: PacketNumber) -> (result: Result<u64, InvalidPacketNumber>)
        requires
            self.wf(),
            encoded_pn.wf(),
        ensures
            result == self.admitted(encoded_pn),
    {
        let expected: u64 = match self.packets.largest() {
            Some((largest, _)) => largest + 1,
            None => 0,
        };
        let pn: u64 = encoded_pn.decode(expected);
        if pn < self.packets.retired_before {
            return Err(InvalidPacketNumber::TooOld);
        }
        if self.packets.contains(pn) {
            return Err(InvalidPacketNumber::Duplicate);
        }
        Ok(pn)
    }

    /// Records `pn` as received at `now`.
    pub fn on_rcvd_pn(&mut self, pn: u64, now: u64)
        requires
            old(self).wf(),
            pn < u64::MAX,
        ensures
            final(self).wf(),
            if pn < old(self).packets.retired_before || old(self).packets.has(pn as int) {
                *final(self) == *old(self)
            } else {
                old(self).packets.inserted(&final(self).packets, pn, now)
            },
    {
        self.packets.insert(pn, now);
    }

    /// Builds an ACK frame of at most `capacity` bytes whose largest number is `largest`, which
    /// arrived at `rcvd_time`. Instants are in microseconds.
    ///
    /// A trigger whose range has since been retired still proves that the packet arrived, so it
    /// is acknowledged alone.
    pub fn gen_ack_frame_util(
        &self,
        largest: u64,
        rcvd_time: u64,
        now: u64,
        capacity: usize,
    ) -> (result: Result<AckFrame, Signals>)
        requires
            self.wf(),
        ensures
            match result {
                Ok(frame) => {
                    let count = frame.ranges@.len() as int;
                    let delay = ack_delay(rcvd_time, now);
                    &&& self.can_acknowledge(largest) && largest <= VARINT_MAX
                    &&& frame.wf()
                    &&& frame.largest.value == largest
                    &&& frame.delay.value == delay
                    &&& frame.first_start() == self.ack_start(largest)
                    &&& count <= self.ack_below(largest)
                    &&& frame.ranges@ == ack_entries(
                        self.packets.ranges@,
                        self.ack_below(largest),
                        self.ack_start(largest),
                        count,
                    )
                    &&& frame.ecn is None
                    &&& frame.size() == self.ack_bytes(largest, delay, count) <= capacity
                    &&& count < self.ack_below(largest) ==> self.ack_bytes(largest, delay, count + 1)
                        > capacity
                },
                Err(signals) => {
                    ||| signals == Signals::only_transport() && (!self.can_acknowledge(largest)
                        || largest > VARINT_MAX)
                    ||| signals == Signals::only_congestion() && self.can_acknowledge(largest) && largest
                        <= VARINT_MAX && self.ack_bytes(largest, ack_delay(rcvd_time, now), 0)
                        > capacity
                },
            },
    {
        let (first_start, below): (u64, usize) = match self.packets.range_containing(largest) {
            Some(index) => (self.packets.ranges[index].start, index),
            None => {
                if largest < self.packets.retired_before {
                    (largest, 0)
                } else {
                    return Err(Signals::transport());
                }
            },
        };
        if largest > VARINT_MAX {
            return Err(Signals::transport());
        }
        let elapsed: u64 = if now <= rcvd_time {
            0
        } else {
            now - rcvd_time
        };
        let elapsed: u64 = if elapsed > VARINT_MAX {
            VARINT_MAX
        } else {
            elapsed
        };
        let largest_field = VarInt { value: largest };
        let delay = VarInt { value: elapsed };
        let first_range = VarInt { value: largest - first_start };

        // Frame type, largest, delay, count of ranges and first range.
        let mut used: usize = 1 + largest_field.encoding_size() + delay.encoding_size() + 1
            + first_range.encoding_size();
        let ghost known = self.packets.ranges@;
        let mut ranges: Vec<(VarInt, VarInt)> = Vec::new();
        assert(ranges@ =~= ack_entries(known, below as int, first_start as int, 0));
        if capacity < used {
            return Err(Signals::congestion());
        }
        let mut current_start: u64 = first_start;
        let mut left: usize = below;
        let mut full: bool = false;
        while left > 0 && !full
            invariant
                self.wf(),
                known == self.packets.ranges@,
                left <= below <= known.len(),
                largest <= VARINT_MAX,
                first_start <= largest,
                below == self.ack_below(largest),
                first_start == self.ack_start(largest),
                0 < below ==> below < known.len() && known[below as int].start == first_start,
                ranges@ == ack_entries(known, below as int, first_start as int, below - left),
                current_start == if left == below { first_start } else { known[left as int].start },
                current_start <= largest,
                current_start == range_start(first_start as int, ranges@, below - left),
                largest_field.value == largest,
                delay.value == elapsed,
                elapsed == ack_delay(rcvd_time, now),
                elapsed <= VARINT_MAX,
                first_range.value == largest - first_start,
                used == self.ack_bytes(largest, elapsed as int, below - left),
                used <= capacity,
                full ==> left > 0 && self.ack_bytes(largest, elapsed as int, below - left + 1) > capacity,
                forall|i: int|
                    #![trigger ranges@[i]]
                    0 <= i < ranges@.len() ==> ranges@[i].0.wf() && ranges@[i].1.wf(),
                forall|i: int|
                    #![trigger range_start(first_start as int, ranges@, i)]
                    0 <= i <= ranges@.len() ==> 0 <= range_start(first_start as int, ranges@, i),
            decreases left + if full { 0int } else { 1int },
        {
            let previous: PnRange = self.packets.ranges[left - 1];
            assert(left < known.len() ==> known[left - 1].end < known[left as int].start);
            let gap = VarInt { value: current_start - previous.end - 1 };
            let ack = VarInt { value: previous.end - previous.start - 1 };
            let ghost count = below - left;
            let count_growth: usize = if ranges.len() == 63 {
                1
            } else {
                0
            };
            let size: usize = count_growth + gap.encoding_size() + ack.encoding_size();
            let ghost longer = ack_entries(known, below as int, first_start as int, count + 1);
            assert(longer.drop_last() =~= ranges@);
            assert(longer.last() == (gap, ack));
            assert(used + size == self.ack_bytes(largest, elapsed as int, count + 1));
            if capacity - used < size {
                full = true;
            } else {
                used = used + size;
                let ghost shorter = ranges@;
                ranges.push((gap, ack));
                assert(ranges@ =~= longer);
                proof {
                    lemma_range_start_prefix(first_start as int, shorter, ranges@, count);
                    assert forall|i: int|
                        #![trigger range_start(first_start as int, ranges@, i)]
                        0 <= i <= ranges@.len() implies 0 <= range_start(first_start as int, ranges@, i) by {
                        if i <= count {
                            lemma_range_start_prefix(first_start as int, shorter, ranges@, i);
                            assert(0 <= range_start(first_start as int, shorter, i));
                        }
                    }
                }
                current_start = previous.start;
                left = left - 1;
            }
        }
        Ok(AckFrame { largest: largest_field, delay, first_range, ranges, ecn: None })
    }

    /// What acknowledges the trigger of one path.
    pub fn ack_package<'r>(&'r self, need_ack: Option<(u64, u64)>) -> (package: AckPackege<'r>)
        ensures
            *package.journal == *self,
            package.need_ack == need_ack,
    {
        AckPackege { journal: self, need_ack }
    }
}

proof fn lemma_range_start_prefix(
    start: int,
    shorter: Seq<(VarInt, VarInt)>,
    longer: Seq<(VarInt, VarInt)>,
    count: int,
)
    requires
        0 <= count <= shorter.len() <= longer.len(),
        forall|i: int| 0 <= i < shorter.len() ==> shorter[i] == longer[i],
    ensures
        range_start(start, shorter, count) == range_start(start, longer, count),
    decreases count,
{
    if count > 0 {
        lemma_range_start_prefix(start, shorter, longer, count - 1);
    }
}

/// Acknowledges on behalf of one path: the largest number of its ACK is the path's own trigger,
/// so that a higher number received on another path cannot use up this path's acknowledgement.
pub struct AckPackege<'r> {
    pub journal: &'r ArcRcvdJournal,
    pub need_ack: Option<(u64, u64)>,
}

impl<'r> AckPackege<'r> {
    /// Builds the ACK frame, or says what stands in the way: nothing to acknowledge counts as
    /// waiting for the transport.
    pub fn gen_ack_frame(&self, now: u64, capacity: usize) -> (result: Result<AckFrame, Signals>)
        requires
            self.journal.wf(),
        ensures
            match (self.need_ack, result) {
                (None, outcome) => outcome == Err::<AckFrame, Signals>(Signals::only_transport()),
                (Some((largest, rcvd_time)), Ok(frame)) => {
                    let count = frame.ranges@.len() as int;
                    let delay = ack_delay(rcvd_time, now);
                    &&& self.journal.can_acknowledge(largest) && largest <= VARINT_MAX
                    &&& frame.wf()
                    &&& frame.largest.value == largest
                    &&& frame.delay.value == delay
                    &&& frame.first_start() == self.journal.ack_start(largest)
                    &&& count <= self.journal.ack_below(largest)
                    &&& frame.ranges@ == ack_entries(
                        self.journal.packets.ranges@,
                        self.journal.ack_below(largest),
                        self.journal.ack_start(largest),
                        count,
                    )
                    &&& frame.ecn is None
                    &&& frame.size() == self.journal.ack_bytes(largest, delay, count) <= capacity
                    &&& count < self.journal.ack_below(largest) ==> self.journal.ack_bytes(
                        largest,
                        delay,
                        count + 1,
                    ) > capacity
                },
                (Some((largest, rcvd_time)), Err(signals)) => {
                    ||| signals == Signals::only_transport() && (!self.journal.can_acknowledge(largest)
                        || largest > VARINT_MAX)
                    ||| signals == Signals::only_congestion() && self.journal.can_acknowledge(largest)
                        && largest <= VARINT_MAX && self.journal.ack_bytes(
                        largest,
                        ack_delay(rcvd_time, now),
                        0,
                    ) > capacity
                },
            },
    {
        match self.need_ack {
            Some((largest, rcvd_time)) => self.journal.gen_ack_frame_util(largest, rcvd_time, now, capacity),
            None => Err(Signals::transport()),
        }
    }
}

/// A frame built for `largest` from `ranges` with `count` further entries.
pub open spec fn built_for(frame: &AckFrame, journal: &ArcRcvdJournal, largest: u64) -> bool {
    &&& frame.largest.value == largest
    &&& frame.first_start() == journal.ack_start(largest)
    &&& frame.ranges@.len() <= journal.ack_below(largest)
    &&& frame.ranges@ == ack_entries(
        journal.packets.ranges@,
        journal.ack_below(largest),
        journal.ack_start(largest),
        frame.ranges@.len() as int,
    )
}

proof fn lemma_listed(frame: &AckFrame, journal: &ArcRcvdJournal, largest: u64, i: int)
    requires
        journal.wf(),
        journal.can_acknowledge(largest),
        largest <= VARINT_MAX,
        built_for(frame, journal, largest),
        0 <= i < frame.ranges@.len(),
    ensures
        ({
            let range = journal.packets.ranges@[journal.ack_below(largest) - 1 - i];
            range_bounds(frame.first_start(), frame.ranges@, i) == (range.start as int, range.end - 1)
        }),
        range_start(frame.first_start(), frame.ranges@, i + 1)
            == journal.packets.ranges@[journal.ack_below(largest) - 1 - i].start,
    decreases i,
{
    let ranges = journal.packets.ranges@;
    let below = journal.ack_below(largest);
    assert(0 < below < ranges.len());
    assert(ranges[below].start == journal.ack_start(largest));
    if i > 0 {
        lemma_listed(frame, journal, largest, i - 1);
    }
    assert(range_start(frame.first_start(), frame.ranges@, i) == ranges[below - i].start);
    assert(ranges[below - 1 - i].end < ranges[below - i].start);
    assert(ranges[below - i].start <= ranges[below].start) by {
        if i > 0 {
            assert(ranges[below - i].end < ranges[below].start);
        }
    }
    assert(ranges[below].start <= largest);
    assert(frame.ranges@[i] == ack_entry(ranges, below, journal.ack_start(largest), i));
}

/// An ACK names only packets that have arrived: those on record, and its own trigger.
pub proof fn ack_names_only_received(frame: &AckFrame, journal: &ArcRcvdJournal, largest: u64, pn: int)
    requires
        journal.wf(),
        journal.can_acknowledge(largest),
        largest <= VARINT_MAX,
        built_for(frame, journal, largest),
        frame.acks(pn),
    ensures
        pn <= largest,
        pn == largest || journal.packets.has(pn),
{
    let ranges = journal.packets.ranges@;
    if frame.first_start() <= pn <= frame.largest.value {
        if journal.packets.has(largest as int) {
            let k = index_of(ranges, largest as int);
            assert(ranges[k].start <= pn < ranges[k].end);
        }
    } else {
        let i = choose|i: int|
            #![trigger frame.ranges@[i]]
            0 <= i < frame.ranges@.len() && {
                let (low, high) = range_bounds(frame.first_start(), frame.ranges@, i);
                low <= pn <= high
            };
        lemma_listed(frame, journal, largest, i);
        let k = journal.ack_below(largest) - 1 - i;
        assert(ranges[k].start <= pn < ranges[k].end);
        assert(ranges[k].end < ranges[journal.ack_below(largest)].start);
    }
}

/// An ACK that had room for every range names every packet on record up to its trigger.
pub proof fn unhurried_ack_names_all_received(
    frame: &AckFrame,
    journal: &ArcRcvdJournal,
    largest: u64,
    pn: int,
)
    requires
        journal.wf(),
        largest <= VARINT_MAX,
        journal.packets.has(largest as int),
        built_for(frame, journal, largest),
        frame.ranges@.len() == journal.ack_below(largest),
        pn <= largest,
        journal.packets.has(pn),
    ensures
        frame.acks(pn),
{
    let ranges = journal.packets.ranges@;
    let k = index_of(ranges, pn);
    let below = journal.ack_below(largest);
    if k > below {
        assert(ranges[below].end < ranges[k].start);
    }
    if k < below {
        let i = below - 1 - k;
        lemma_listed(frame, journal, largest, i);
        assert(frame.ranges@[i] == frame.ranges@[i]);
    }
}

/// Once retired, a number is never on record again, and recording a packet never lowers the
/// boundary or the largest number received.
pub proof fn retirement_is_permanent(before: &ReceivedPacketRanges, after: &ReceivedPacketRanges, pn: u64, now: u64)
    requires
        before.wf(),
        after.wf(),
        pn >= before.retired_before,
        before.inserted(after, pn, now),
    ensures
        before.retired_before <= after.retired_before,
        forall|x: int| #![trigger after.has(x)] after.has(x) ==> x >= after.retired_before,
        forall|x: int|
            #![trigger after.has(x)]
            after.has(x) <==> x >= after.retired_before && (before.has(x) || x == pn),
        after.largest_received matches Some((largest, _)) && pn <= largest
            && (before.largest_received matches Some((previous, _)) ==> previous <= largest),
{
    let grown = choose|grown: Seq<PnRange>|
        {
            &&& #[trigger] canonical(grown)
            &&& forall|x: int| #![trigger covered(grown, x)] covered(grown, x) <==> before.has(x) || x == pn
            &&& if grown.len() <= MAX_TRACKED_ACK_RANGES {
                after.ranges@ == grown && after.retired_before == before.retired_before
            } else {
                after.ranges@ == grown.drop_first() && after.retired_before == grown[0].end
            }
        };
    assert forall|x: int| #![trigger covered(grown, x)] covered(grown, x) implies x >= before.retired_before by {
        if x != pn {
            let k = index_of(before.ranges@, x);
            if k > 0 {
                assert(before.ranges@[0].end < before.ranges@[k].start);
            }
        }
    }
    if grown.len() > 0 {
        assert(grown[0].start < grown[0].end);
        assert(covered(grown, grown[0].start as int));
    }
    assert forall|x: int|
        #![trigger after.has(x)]
        after.has(x) <==> x >= after.retired_before && (before.has(x) || x == pn) by {
        if grown.len() > MAX_TRACKED_ACK_RANGES {
            lemma_drop_first(grown, x);
        }
        assert(covered(grown, x) <==> before.has(x) || x == pn);
    }
}

pub(crate) proof fn lemma_insertion(
    before: ReceivedPacketRanges,
    after: ReceivedPacketRanges,
    pn: u64,
    now: u64,
    other: int,
)
    requires
        before.inserted(&after, pn, now),
    ensures
        before.has(other) || other == pn ==> after.has(other) || other < after.retired_before,
        after.has(other) ==> before.has(other) || other == pn,
{
    let grown = choose|grown: Seq<PnRange>|
        {
            &&& #[trigger] canonical(grown)
            &&& forall|x: int| #![trigger covered(grown, x)] covered(grown, x) <==> before.has(x) || x == pn
            &&& if grown.len() <= MAX_TRACKED_ACK_RANGES {
                after.ranges@ == grown && after.retired_before == before.retired_before
            } else {
                after.ranges@ == grown.drop_first() && after.retired_before == grown[0].end
            }
        };
    let left = after.ranges@;
    if covered(grown, other) {
        let i = choose|i: int| #![trigger grown[i]] 0 <= i < grown.len() && grown[i].start <= other < grown[i].end;
        if left != grown && i > 0 {
            assert(left[i - 1] == grown[i]);
        }
    }
    if covered(left, other) && left != grown {
        let i = choose|i: int| #![trigger left[i]] 0 <= i < left.len() && left[i].start <= other < left[i].end;
        assert(grown[i + 1] == left[i]);
    }
    assert(covered(grown, other) <==> before.has(other) || other == pn);
}

/// A number that is restored is one that may have been sent: it ends as it was written, is not retired and was
/// not received before. One that was received before, or is retired, is refused as such.
pub proof fn admitted_number_is_new(journal: &ArcRcvdJournal, number: PacketNumber)
    requires
        journal.wf(),
        number.wf(),
    ensures
        match journal.admitted(number) {
            Ok(pn) => !journal.packets.has(decoded(number.truncated(), number.window(), journal.expected())) && decoded(
                number.truncated(),
                number.window(),
                journal.expected(),
            ) >= journal.packets.retired_before,
            Err(InvalidPacketNumber::TooOld) => decoded(number.truncated(), number.window(), journal.expected())
                < journal.packets.retired_before,
            Err(InvalidPacketNumber::Duplicate) => journal.packets.has(
                decoded(number.truncated(), number.window(), journal.expected()),
            ),
        },
        journal.packets.largest_received matches Some((largest, _)) ==> journal.expected() == largest + 1,
        journal.packets.largest_received is None ==> journal.expected() == 0,
{
}

/// An ACK that had no room for all leaves out the lowest: whatever it names lies above all that it leaves out.
pub proof fn hurried_ack_leaves_out_the_lowest(
    frame: &AckFrame,
    journal: &ArcRcvdJournal,
    largest: u64,
    named: int,
    omitted: int,
)
    requires
        journal.wf(),
        largest <= VARINT_MAX,
        journal.packets.has(largest as int),
        built_for(frame, journal, largest),
        frame.acks(named),
        omitted <= largest,
        journal.packets.has(omitted),
        !frame.acks(omitted),
    ensures
        omitted < named,
{
    let ranges = journal.packets.ranges@;
    let below = journal.ack_below(largest);
    let k = index_of(ranges, omitted);
    let i = below - 1 - k;
    if k > below {
        assert(ranges[below].end < ranges[k].start);
    }
    assert(k != below);
    if i < frame.ranges@.len() {
        lemma_listed(frame, journal, largest, i);
        assert(frame.ranges@[i] == frame.ranges@[i]);
        assert(frame.acks(omitted));
    }
    assert(ranges[k].end < ranges[below].start);
    if !(frame.first_start() <= named <= frame.largest.value) {
        let j = choose|j: int|
            #![trigger frame.ranges@[j]]
            0 <= j < frame.ranges@.len() && {
                let (low, high) = range_bounds(frame.first_start(), frame.ranges@, j);
                low <= named <= high
            };
        lemma_listed(frame, journal, largest, j);
        assert(ranges[k].end < ranges[below - 1 - j].start);
    }
}

/// An ACK tells how long it was held back, as far as it can.
pub proof fn ack_tells_how_long_it_was_held_back(then: u64, now: u64)
    ensures
        now < then ==> ack_delay(then, now) == 0,
        then <= now && now - then <= VARINT_MAX ==> then + ack_delay(then, now) == now,
        now - then > VARINT_MAX ==> ack_delay(then, now) == VARINT_MAX,
{
}

/// An ACK can be asked for exactly for a packet that is on record, or was before it was retired. It then starts
/// at the lowest number from which all are on record up to that one.
pub proof fn ack_starts_where_the_numbers_do(journal: &ArcRcvdJournal, largest: u64, pn: int)
    requires
        journal.wf(),
        journal.packets.has(largest as int),
    ensures
        journal.can_acknowledge(largest),
        journal.ack_start(largest) <= pn <= largest ==> journal.packets.has(pn),
        !journal.packets.has(journal.ack_start(largest) - 1),
{
    let ranges = journal.packets.ranges@;
    let k = index_of(ranges, largest as int);
    if journal.ack_start(largest) <= pn <= largest {
        assert(ranges[k].start <= pn < ranges[k].end);
    }
    if journal.packets.has(journal.ack_start(largest) - 1) {
        let j = index_of(ranges, journal.ack_start(largest) - 1);
        if j < k {
            assert(ranges[j].end < ranges[k].start);
        }
        if k < j {
            assert(ranges[k].end < ranges[j].start);
        }
    }
}

/// At most 256 ranges of received numbers are kept.
pub proof fn received_ranges_are_bounded(ranges: ReceivedPacketRanges)
    requires
        ranges.wf(),
    ensures
        ranges.ranges@.len() <= 256,
        MAX_TRACKED_ACK_RANGES == 256,
{
}

/// The largest number that was received is kept with the time when it came.
pub proof fn largest_number_is_kept(before: ReceivedPacketRanges, after: ReceivedPacketRanges, pn: u64, now: u64)
    requires
        before.inserted(&after, pn, now),
    ensures
        after.largest_received == match before.largest_received {
            Some((largest, at)) if pn <= largest => Some((largest, at)),
            _ => Some((pn, now)),
        },
{
}

} // verus!

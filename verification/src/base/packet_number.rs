use vstd::prelude::*;

verus! {

/// Packet numbers live below this bound.
pub const PN_LIMIT: u64 = 0x4000_0000_0000_0000;

/// A packet number as it stands in a header: its lowest one to four bytes.
#[derive(Clone, Copy, Debug, PartialEq, Eq, Structural)]
pub enum PacketNumber {
    U8(u8),
    U16(u16),
    U24(u32),
    U32(u32),
}

/// Why a received packet number is not accepted.
#[derive(Clone, Copy, Debug, PartialEq, Eq, Structural)]
pub enum InvalidPacketNumber {
    TooOld,
    Duplicate,
}

/// Restores a truncated packet number: of the numbers that agree with `truncated` modulo
/// `window`, the one closest to `expected` that is neither negative nor out of range.
pub open spec fn decoded(truncated: int, window: int, expected: int) -> int {
    let candidate = expected - expected % window + truncated;
    if candidate + window / 2 <= expected && candidate < PN_LIMIT - window {
        candidate + window
    } else if candidate > expected + window / 2 && candidate >= window {
        candidate - window
    } else {
        candidate
    }
}

impl PacketNumber {
    pub open spec fn wf(self) -> bool {
        self matches PacketNumber::U24(value) ==> value < 0x100_0000
    }

    pub open spec fn truncated(self) -> int {
        match self {
            PacketNumber::U8(value) => value as int,
            PacketNumber::U16(value) => value as int,
            PacketNumber::U24(value) => value as int,
            PacketNumber::U32(value) => value as int,
        }
    }

    pub open spec fn window(self) -> int {
        match self {
            PacketNumber::U8(_) => 0x100,
            PacketNumber::U16(_) => 0x1_0000,
            PacketNumber::U24(_) => 0x100_0000,
            PacketNumber::U32(_) => 0x1_0000_0000,
        }
    }

    pub open spec fn bytes(self) -> int {
        match self {
            PacketNumber::U8(_) => 1,
            PacketNumber::U16(_) => 2,
            PacketNumber::U24(_) => 3,
            PacketNumber::U32(_) => 4,
        }
    }

    /// The number of bytes that tells `pn` from every number up to `largest_acked`; never
    /// fewer than two.
    pub open spec fn encoded(pn: u64, largest_acked: u64) -> PacketNumber {
        if 2 * (pn - largest_acked) < 0x1_0000 {
            PacketNumber::U16((pn % 0x1_0000) as u16)
        } else if 2 * (pn - largest_acked) < 0x100_0000 {
            PacketNumber::U24((pn % 0x100_0000) as u32)
        } else {
            PacketNumber::U32((pn % 0x1_0000_0000) as u32)
        }
    }

    /// Truncates `pn` for a peer that has acknowledged everything it will up to
    /// `largest_acked`. A gap that four bytes cannot tell apart has no encoding.
    pub fn encode(pn: u64, largest_acked: u64) -> (encoded: PacketNumber)
        requires
            largest_acked <= pn,
            2 * (pn - largest_acked) < 0x1_0000_0000,
        ensures
            encoded == PacketNumber::encoded(pn, largest_acked),
            encoded.wf(),
            encoded.truncated() == pn as int % encoded.window(),
            2 * (pn - largest_acked) < encoded.window(),
            2 <= encoded.bytes() <= 4,
    {
        let gap: u64 = pn - largest_acked;
        if gap < 0x8000 {
            PacketNumber::U16((pn % 0x1_0000) as u16)
        } else if gap < 0x80_0000 {
            PacketNumber::U24((pn % 0x100_0000) as u32)
        } else {
            PacketNumber::U32((pn % 0x1_0000_0000) as u32)
        }
    }

    pub fn size(self) -> (size: usize)
        ensures
            size == self.bytes(),
    {
        match self {
            PacketNumber::U8(_) => 1,
            PacketNumber::U16(_) => 2,
            PacketNumber::U24(_) => 3,
            PacketNumber::U32(_) => 4,
        }
    }

    /// Restores the full packet number around the `expected` one.
    pub fn decode(self, expected: u64) -> (pn: u64)
        requires
            self.wf(),
        ensures
            pn == decoded(self.truncated(), self.window(), expected as int),
    {
        let (truncated, window): (u64, u64) = match self {
            PacketNumber::U8(value) => (value as u64, 0x100),
            PacketNumber::U16(value) => (value as u64, 0x1_0000),
            PacketNumber::U24(value) => (value as u64, 0x100_0000),
            PacketNumber::U32(value) => (value as u64, 0x1_0000_0000),
        };
        let base: u64 = expected - expected % window;
        assert(base + truncated <= u64::MAX) by {
            if window == 0x100 {
                assert(base == expected - expected % 0x100);
            } else if window == 0x1_0000 {
                assert(base == expected - expected % 0x1_0000);
            } else if window == 0x100_0000 {
                assert(base == expected - expected % 0x100_0000);
            } else {
                assert(base == expected - expected % 0x1_0000_0000);
            }
        }
        let candidate: u64 = base + truncated;
        let half: u64 = window / 2;
        if expected >= half && candidate <= expected - half && candidate < PN_LIMIT - window {
            candidate + window
        } else if candidate > expected && candidate - expected > half && candidate >= window {
            candidate - window
        } else {
            candidate
        }
    }

    /// The big-endian bytes that stand in the header.
    pub open spec fn wire(self) -> Seq<u8> {
        match self {
            PacketNumber::U8(value) => seq![value],
            PacketNumber::U16(value) => seq![(value / 0x100) as u8, (value % 0x100) as u8],
            PacketNumber::U24(value) => seq![
                ((value / 0x1_0000) % 0x100) as u8,
                ((value / 0x100) % 0x100) as u8,
                (value % 0x100) as u8,
            ],
            PacketNumber::U32(value) => seq![
                (value / 0x100_0000) as u8,
                ((value / 0x1_0000) % 0x100) as u8,
                ((value / 0x100) % 0x100) as u8,
                (value % 0x100) as u8,
            ],
        }
    }

    /// The number that one to four header bytes stand for.
    pub open spec fn from_wire(bytes: Seq<u8>) -> PacketNumber {
        if bytes.len() == 1 {
            PacketNumber::U8(bytes[0])
        } else if bytes.len() == 2 {
            PacketNumber::U16((bytes[0] * 0x100 + bytes[1]) as u16)
        } else if bytes.len() == 3 {
            PacketNumber::U24((bytes[0] * 0x1_0000 + bytes[1] * 0x100 + bytes[2]) as u32)
        } else {
            PacketNumber::U32(
                (bytes[0] * 0x100_0000 + bytes[1] * 0x1_0000 + bytes[2] * 0x100 + bytes[3]) as u32,
            )
        }
    }

    pub fn from_bytes(bytes: &[u8]) -> (number: PacketNumber)
        requires
            1 <= bytes@.len() <= 4,
        ensures
            number == PacketNumber::from_wire(bytes@),
            number.wf(),
            number.bytes() == bytes@.len(),
    {
        if bytes.len() == 1 {
            PacketNumber::U8(bytes[0])
        } else if bytes.len() == 2 {
            PacketNumber::U16(bytes[0] as u16 * 0x100 + bytes[1] as u16)
        } else if bytes.len() == 3 {
            PacketNumber::U24(bytes[0] as u32 * 0x1_0000 + bytes[1] as u32 * 0x100 + bytes[2] as u32)
        } else {
            PacketNumber::U32(
                bytes[0] as u32 * 0x100_0000 + bytes[1] as u32 * 0x1_0000 + bytes[2] as u32 * 0x100
                    + bytes[3] as u32,
            )
        }
    }

    pub fn to_bytes(self) -> (bytes: Vec<u8>)
        ensures
            bytes@ == self.wire(),
            bytes.len() == self.bytes(),
    {
        match self {
            PacketNumber::U8(value) => vec![value],
            PacketNumber::U16(value) => vec![(value / 0x100) as u8, (value % 0x100) as u8],
            PacketNumber::U24(value) => vec![
                ((value / 0x1_0000) % 0x100) as u8,
                ((value / 0x100) % 0x100) as u8,
                (value % 0x100) as u8,
            ],
            PacketNumber::U32(value) => vec![
                (value / 0x100_0000) as u8,
                ((value / 0x1_0000) % 0x100) as u8,
                ((value / 0x100) % 0x100) as u8,
                (value % 0x100) as u8,
            ],
        }
    }
}

/// A truncated packet number comes back whole wherever the receiver's expectation is less than
/// half a window ahead of it and at most half a window behind it.
pub proof fn truncated_number_round_trips(pn: u64, largest_acked: u64, expected: u64)
    requires
        largest_acked <= pn < PN_LIMIT,
        2 * (pn - largest_acked) < 0x1_0000_0000,
        ({
            let half = PacketNumber::encoded(pn, largest_acked).window() / 2;
            expected - half < pn <= expected + half
        }),
    ensures
        ({
            let encoded = PacketNumber::encoded(pn, largest_acked);
            decoded(encoded.truncated(), encoded.window(), expected as int) == pn
        }),
{
    let encoded = PacketNumber::encoded(pn, largest_acked);
    if encoded.window() == 0x1_0000 {
        assert(encoded.truncated() == pn as int % 0x1_0000);
    } else if encoded.window() == 0x100_0000 {
        assert(encoded.truncated() == pn as int % 0x100_0000);
    } else {
        assert(encoded.truncated() == pn as int % 0x1_0000_0000);
    }
}

/// In particular it comes back whole to a receiver that expects the number after the largest it
/// has seen, when everything the sender knows to be acknowledged is among what it has seen.
pub proof fn truncated_number_reaches_in_order_receiver(
    pn: u64,
    largest_acked: u64,
    largest_seen: u64,
)
    requires
        largest_acked <= largest_seen < pn < PN_LIMIT,
        2 * (pn - largest_acked) < 0x1_0000_0000,
    ensures
        ({
            let encoded = PacketNumber::encoded(pn, largest_acked);
            decoded(encoded.truncated(), encoded.window(), largest_seen + 1) == pn
        }),
{
    truncated_number_round_trips(pn, largest_acked, (largest_seen + 1) as u64);
}

/// Header bytes give back the truncated number that was written to them.
pub proof fn wire_bytes_round_trip(number: PacketNumber)
    requires
        number.wf(),
    ensures
        PacketNumber::from_wire(number.wire()) == number,
        number.wire().len() == number.bytes(),
{
}

/// A restored packet number fits in 64 bits.
pub proof fn decoded_number_fits(number: PacketNumber, expected: int)
    requires
        number.wf(),
        0 <= expected <= u64::MAX,
    ensures
        0 <= decoded(number.truncated(), number.window(), expected) <= u64::MAX,
{
    let window = number.window();
    if window == 0x100 {
        assert(0 <= expected % 0x100 <= expected);
    } else if window == 0x1_0000 {
        assert(0 <= expected % 0x1_0000 <= expected);
    } else if window == 0x100_0000 {
        assert(0 <= expected % 0x100_0000 <= expected);
    } else {
        assert(0 <= expected % 0x1_0000_0000 <= expected);
    }
}

/// A packet number is written highest byte first, in two to four bytes: in as few as tell it from every number
/// up to twice the distance to the largest that was acknowledged.
pub proof fn packet_number_is_written_highest_byte_first(pn: u64, largest_acked: u64)
    requires
        largest_acked <= pn,
        2 * (pn - largest_acked) < 0x1_0000_0000,
    ensures
        ({
            let number = PacketNumber::encoded(pn, largest_acked);
            let bytes = number.wire();
            let gap = 2 * (pn - largest_acked);
            &&& bytes.len() == 2 <==> gap < 256 * 256
            &&& bytes.len() == 3 <==> 256 * 256 <= gap < 256 * 256 * 256
            &&& bytes.len() == 4 <==> 256 * 256 * 256 <= gap
            &&& bytes.len() == 2 ==> bytes[0] as int * 256 + bytes[1] as int == pn as int % 0x1_0000
            &&& bytes.len() == 3 ==> bytes[0] as int * 256 * 256 + bytes[1] as int * 256 + bytes[2] as int == pn as int
                % 0x100_0000
            &&& bytes.len() == 4 ==> bytes[0] as int * 256 * 256 * 256 + bytes[1] as int * 256 * 256 + bytes[2] as int
                * 256 + bytes[3] as int == pn as int % 0x1_0000_0000
        }),
{
}

/// A restored number ends as it was written, and lies within half a window of the expected one, unless that
/// would be below zero or beyond what a packet number can be.
pub proof fn restored_number_is_the_nearest(number: PacketNumber, expected: int)
    requires
        number.wf(),
        0 <= expected < PN_LIMIT,
    ensures
        ({
            let pn = decoded(number.truncated(), number.window(), expected);
            let half = number.window() / 2;
            &&& pn % number.window() == number.truncated()
            &&& pn > expected + half ==> pn < number.window()
            &&& pn <= expected - half ==> pn + number.window() >= PN_LIMIT
        }),
{
    match number {
        PacketNumber::U8(_) => lemma_restored_100(number.truncated(), expected),
        PacketNumber::U16(_) => lemma_restored_10000(number.truncated(), expected),
        PacketNumber::U24(_) => lemma_restored_1000000(number.truncated(), expected),
        PacketNumber::U32(_) => lemma_restored_100000000(number.truncated(), expected),
    }
}

proof fn lemma_restored_100(truncated: int, expected: int)
    requires
        0 <= truncated < 0x100,
        0 <= expected < PN_LIMIT,
    ensures
        decoded(truncated, 0x100, expected) % 0x100 == truncated,
        decoded(truncated, 0x100, expected) > expected + 0x100int / 2 ==> decoded(truncated, 0x100, expected) < 0x100,
        decoded(truncated, 0x100, expected) <= expected - 0x100int / 2 ==> decoded(truncated, 0x100, expected) + 0x100
            >= PN_LIMIT,
{
    let candidate = expected - expected % 0x100 + truncated;
    assert(candidate % 0x100 == truncated);
    assert((candidate + 0x100) % 0x100 == truncated);
    assert((candidate - 0x100) % 0x100 == truncated);
}

proof fn lemma_restored_10000(truncated: int, expected: int)
    requires
        0 <= truncated < 0x1_0000,
        0 <= expected < PN_LIMIT,
    ensures
        decoded(truncated, 0x1_0000, expected) % 0x1_0000 == truncated,
        decoded(truncated, 0x1_0000, expected) > expected + 0x1_0000int / 2 ==> decoded(truncated, 0x1_0000, expected) < 0x1_0000,
        decoded(truncated, 0x1_0000, expected) <= expected - 0x1_0000int / 2 ==> decoded(truncated, 0x1_0000, expected) + 0x1_0000
            >= PN_LIMIT,
{
    let candidate = expected - expected % 0x1_0000 + truncated;
    assert(candidate % 0x1_0000 == truncated);
    assert((candidate + 0x1_0000) % 0x1_0000 == truncated);
    assert((candidate - 0x1_0000) % 0x1_0000 == truncated);
}

proof fn lemma_restored_1000000(truncated: int, expected: int)
    requires
        0 <= truncated < 0x100_0000,
        0 <= expected < PN_LIMIT,
    ensures
        decoded(truncated, 0x100_0000, expected) % 0x100_0000 == truncated,
        decoded(truncated, 0x100_0000, expected) > expected + 0x100_0000int / 2 ==> decoded(truncated, 0x100_0000, expected) < 0x100_0000,
        decoded(truncated, 0x100_0000, expected) <= expected - 0x100_0000int / 2 ==> decoded(truncated, 0x100_0000, expected) + 0x100_0000
            >= PN_LIMIT,
{
    let candidate = expected - expected % 0x100_0000 + truncated;
    assert(candidate % 0x100_0000 == truncated);
    assert((candidate + 0x100_0000) % 0x100_0000 == truncated);
    assert((candidate - 0x100_0000) % 0x100_0000 == truncated);
}

proof fn lemma_restored_100000000(truncated: int, expected: int)
    requires
        0 <= truncated < 0x1_0000_0000,
        0 <= expected < PN_LIMIT,
    ensures
        decoded(truncated, 0x1_0000_0000, expected) % 0x1_0000_0000 == truncated,
        decoded(truncated, 0x1_0000_0000, expected) > expected + 0x1_0000_0000int / 2 ==> decoded(truncated, 0x1_0000_0000, expected) < 0x1_0000_0000,
        decoded(truncated, 0x1_0000_0000, expected) <= expected - 0x1_0000_0000int / 2 ==> decoded(truncated, 0x1_0000_0000, expected) + 0x1_0000_0000
            >= PN_LIMIT,
{
    let candidate = expected - expected % 0x1_0000_0000 + truncated;
    assert(candidate % 0x1_0000_0000 == truncated);
    assert((candidate + 0x1_0000_0000) % 0x1_0000_0000 == truncated);
    assert((candidate - 0x1_0000_0000) % 0x1_0000_0000 == truncated);
}

} // verus!

use vstd::prelude::*;

verus! {

/// The largest value a variable-length integer can carry.
pub const VARINT_MAX: u64 = 0x3fff_ffff_ffff_ffff;

/// A QUIC variable-length integer.
#[derive(Clone, Copy, Debug, PartialEq, Eq, Structural)]
pub struct VarInt {
    pub value: u64,
}

/// The value does not fit in a variable-length integer.
#[derive(Clone, Copy, Debug, PartialEq, Eq, Structural)]
pub struct VarIntOverflow {
    pub value: u64,
}

/// Number of bytes in the shortest encoding of `value`.
pub open spec fn varint_size(value: int) -> int {
    if value < 0x40 {
        1
    } else if value < 0x4000 {
        2
    } else if value < 0x4000_0000 {
        4
    } else {
        8
    }
}

impl VarInt {
    pub open spec fn wf(self) -> bool {
        self.value <= VARINT_MAX
    }

    pub fn from_u64(value: u64) -> (result: Result<VarInt, VarIntOverflow>)
        ensures
            result == if value <= VARINT_MAX {
                Ok::<VarInt, VarIntOverflow>(VarInt { value })
            } else {
                Err(VarIntOverflow { value })
            },
    {
        if value <= VARINT_MAX {
            Ok(VarInt { value })
        } else {
            Err(VarIntOverflow { value })
        }
    }

    pub fn from_u32(value: u32) -> (result: VarInt)
        ensures
            result == (VarInt { value: value as u64 }),
            result.wf(),
    {
        VarInt { value: value as u64 }
    }

    pub fn into_u64(self) -> (value: u64)
        ensures
            value == self.value,
    {
        self.value
    }

    pub fn encoding_size(self) -> (size: usize)
        ensures
            size == varint_size(self.value as int),
    {
        if self.value < 0x40 {
            1
        } else if self.value < 0x4000 {
            2
        } else if self.value < 0x4000_0000 {
            4
        } else {
            8
        }
    }
}

/// An encoding of one, two, four or eight bytes has two bits for its length: the shortest is the first in which
/// the others hold the value.
pub proof fn shortest_encoding_holds_the_value(value: u64)
    requires
        value <= VARINT_MAX,
    ensures
        ({
            let size = varint_size(value as int);
            &&& size == 1 || size == 2 || size == 4 || size == 8
            &&& size == 1 <==> value < 64
            &&& size <= 2 <==> value < 64 * 256
            &&& size <= 4 <==> value < 64 * 256 * 256 * 256
        }),
        VARINT_MAX == 64 * 256 * 256 * 256 * 256 * 256 * 256 * 256 - 1,
{
}

} // verus!

//! Connection IDs as plain values.
use vstd::prelude::*;

verus! {

pub const MAX_CID_SIZE: usize = 20;

/// The number that big-endian bytes stand for.
pub open spec fn number_of(bytes: Seq<u8>) -> nat
    decreases bytes.len(),
{
    if bytes.len() == 0 {
        0
    } else {
        number_of(bytes.drop_last()) * 256 + bytes.last() as nat
    }
}

/// A connection ID of up to twenty bytes: its length, and the numbers that its first ten bytes
/// and the others stand for.
#[derive(Clone, Copy, Debug, PartialEq, Eq, Structural)]
pub struct ConnectionId {
    pub len: u8,
    pub head: u128,
    pub tail: u128,
}

pub open spec fn first_part(bytes: Seq<u8>) -> Seq<u8> {
    if bytes.len() <= 10 {
        bytes
    } else {
        bytes.take(10)
    }
}

pub open spec fn second_part(bytes: Seq<u8>) -> Seq<u8> {
    if bytes.len() <= 10 {
        Seq::empty()
    } else {
        bytes.skip(10)
    }
}

impl ConnectionId {
    /// The connection ID with these bytes.
    pub open spec fn of(bytes: Seq<u8>) -> ConnectionId {
        ConnectionId {
            len: bytes.len() as u8,
            head: number_of(first_part(bytes)) as u128,
            tail: number_of(second_part(bytes)) as u128,
        }
    }

    pub fn empty() -> (cid: ConnectionId)
        ensures
            cid == ConnectionId::of(Seq::empty()),
            cid == (ConnectionId { len: 0, head: 0, tail: 0 }),
    {
        ConnectionId { len: 0, head: 0, tail: 0 }
    }

    pub fn from_slice(bytes: &[u8]) -> (cid: ConnectionId)
        requires
            bytes@.len() <= MAX_CID_SIZE,
        ensures
            cid == ConnectionId::of(bytes@),
    {
        let middle: usize = if bytes.len() <= 10 {
            bytes.len()
        } else {
            10
        };
        let head: u128 = read_number(bytes, 0, middle);
        let tail: u128 = read_number(bytes, middle, bytes.len());
        assert(bytes@.subrange(0, middle as int) =~= first_part(bytes@));
        assert(bytes@.subrange(middle as int, bytes@.len() as int) =~= second_part(bytes@));
        ConnectionId { len: bytes.len() as u8, head, tail }
    }

    pub fn is_empty(&self) -> (empty: bool)
        ensures
            empty == (self.len == 0),
    {
        self.len == 0
    }
}

fn read_number(bytes: &[u8], start: usize, end: usize) -> (number: u128)
    requires
        start <= end <= bytes@.len(),
        end - start <= 10,
    ensures
        number == number_of(bytes@.subrange(start as int, end as int)),
{
    let mut number: u128 = 0;
    let mut at: usize = start;
    assert(bytes@.subrange(start as int, start as int) =~= Seq::<u8>::empty());
    while at < end
        invariant
            start <= at <= end <= bytes@.len(),
            end - start <= 10,
            number == number_of(bytes@.subrange(start as int, at as int)),
            number < pow256((at - start) as nat),
        decreases end - at,
    {
        proof {
            let longer = bytes@.subrange(start as int, at + 1);
            assert(longer.drop_last() =~= bytes@.subrange(start as int, at as int));
            lemma_pow256((at - start) as nat);
        }
        number = number * 256 + bytes[at] as u128;
        at = at + 1;
    }
    number
}

spec fn pow256(count: nat) -> nat
    decreases count,
{
    if count == 0 {
        1
    } else {
        256 * pow256((count - 1) as nat)
    }
}

proof fn lemma_pow256(count: nat)
    requires
        count < 10,
    ensures
        pow256(count) * 256 <= 0x1_0000_0000_0000_0000_0000,
        pow256(count + 1) == pow256(count) * 256,
{
    reveal_with_fuel(pow256, 11);
    assert(pow256(0) == 1);
    assert(pow256(1) == 0x100);
    assert(pow256(2) == 0x1_0000);
    assert(pow256(3) == 0x100_0000);
    assert(pow256(4) == 0x1_0000_0000);
    assert(pow256(5) == 0x100_0000_0000);
    assert(pow256(6) == 0x1_0000_0000_0000);
    assert(pow256(7) == 0x100_0000_0000_0000);
    assert(pow256(8) == 0x1_0000_0000_0000_0000);
    assert(pow256(9) == 0x100_0000_0000_0000_0000);
}

proof fn lemma_number_injective(left: Seq<u8>, right: Seq<u8>)
    requires
        left.len() == right.len(),
        number_of(left) == number_of(right),
    ensures
        left == right,
    decreases left.len(),
{
    if left.len() > 0 {
        lemma_number_injective(left.drop_last(), right.drop_last());
        assert(left =~= left.drop_last().push(left.last()));
        assert(right =~= right.drop_last().push(right.last()));
    } else {
        assert(left =~= right);
    }
}

proof fn lemma_number_bounded(bytes: Seq<u8>)
    requires
        bytes.len() <= 10,
    ensures
        number_of(bytes) < 0x1_0000_0000_0000_0000_0000,
{
    lemma_number_below_pow(bytes);
    if bytes.len() < 10 {
        lemma_pow256(bytes.len());
    } else {
        lemma_pow256(9);
    }
}

proof fn lemma_number_below_pow(bytes: Seq<u8>)
    ensures
        number_of(bytes) < pow256(bytes.len()),
    decreases bytes.len(),
{
    if bytes.len() > 0 {
        lemma_number_below_pow(bytes.drop_last());
    }
}

/// Two connection IDs are equal exactly if their bytes are.
pub proof fn connection_ids_are_their_bytes(left: Seq<u8>, right: Seq<u8>)
    requires
        left.len() <= MAX_CID_SIZE,
        right.len() <= MAX_CID_SIZE,
        ConnectionId::of(left) == ConnectionId::of(right),
    ensures
        left == right,
{
    lemma_number_bounded(first_part(left));
    lemma_number_bounded(first_part(right));
    lemma_number_bounded(second_part(left));
    lemma_number_bounded(second_part(right));
    lemma_number_injective(first_part(left), first_part(right));
    lemma_number_injective(second_part(left), second_part(right));
    assert(left =~= first_part(left) + second_part(left));
    assert(right =~= first_part(right) + second_part(right));
}

} // verus!

use vstd::prelude::*;

verus! {

/// A datagram this long can always carry a packet of every kind.
pub const MIN_DATAGRAM: usize = 1200;

/// Fixed limits for one packet; putting the packet together does not use them up.
#[derive(Clone, Copy, Debug, PartialEq, Eq, Structural)]
pub struct Constraints {
    pub capacity: usize,
    pub congestion: usize,
    pub anti_amplification: usize,
}

pub open spec fn least(left: int, right: int) -> int {
    if left < right {
        left
    } else {
        right
    }
}

pub fn lesser(left: usize, right: usize) -> (value: usize)
    ensures
        value == least(left as int, right as int),
{
    if left < right {
        left
    } else {
        right
    }
}

/// How much may be sent to a peer whose address is not validated: three times what it sent. Only
/// successful submissions count against it.
#[derive(Clone, Copy, Debug, PartialEq, Eq, Structural)]
pub struct AntiAmplifier {
    pub received: u64,
    pub sent: u64,
    pub validated: bool,
    /// Whether loss probes are held back for want of credit.
    pub limited: bool,
}

impl AntiAmplifier {
    /// What may still be sent.
    pub open spec fn credit(self) -> int {
        let earned = if self.received * 3 > u64::MAX { u64::MAX as int } else { self.received * 3 };
        if self.validated {
            usize::MAX as int
        } else if earned <= self.sent {
            0
        } else {
            least(earned - self.sent, usize::MAX as int)
        }
    }

    pub fn new(limited: bool) -> (amplifier: AntiAmplifier)
        ensures
            amplifier == (AntiAmplifier { received: 0, sent: 0, validated: false, limited }),
            amplifier.credit() == 0,
    {
        AntiAmplifier { received: 0, sent: 0, validated: false, limited }
    }

    pub fn balance(&self) -> (credit: usize)
        ensures
            credit == self.credit(),
    {
        if self.validated {
            return usize::MAX;
        }
        let earned: u64 = if self.received > u64::MAX / 3 {
            u64::MAX
        } else {
            self.received * 3
        };
        if earned <= self.sent {
            return 0;
        }
        let credit: u64 = earned - self.sent;
        if credit > usize::MAX as u64 {
            usize::MAX
        } else {
            credit as usize
        }
    }

    /// Counts a received datagram. With room for a whole datagram, probes need not wait.
    pub fn on_received(&mut self, bytes: usize)
        ensures
            final(self).received == (old(self).received + bytes) % 0x1_0000_0000_0000_0000,
            final(self).sent == old(self).sent,
            final(self).validated == old(self).validated,
            final(self).limited <==> old(self).limited && final(self).credit() < MIN_DATAGRAM,
    {
        self.received = self.received.wrapping_add(bytes as u64);
        if self.balance() >= MIN_DATAGRAM {
            self.limited = false;
        }
    }

    /// Lifts the limit for good.
    pub fn grant(&mut self)
        ensures
            *final(self) == (AntiAmplifier { validated: true, limited: false, ..*old(self) }),
            final(self).credit() == usize::MAX,
    {
        self.validated = true;
        self.limited = false;
    }

    /// Counts a submitted datagram. Without room for another whole one, probes must wait.
    pub fn on_sent(&mut self, bytes: usize)
        ensures
            final(self).sent == (old(self).sent + bytes) % 0x1_0000_0000_0000_0000,
            final(self).received == old(self).received,
            final(self).validated == old(self).validated,
            final(self).limited <==> old(self).limited || final(self).credit() < MIN_DATAGRAM,
    {
        self.sent = self.sent.wrapping_add(bytes as u64);
        if self.balance() < MIN_DATAGRAM {
            self.limited = true;
        }
    }
}

/// An unvalidated peer is never sent more than three times what it sent: staying within the
/// credit keeps the total within the bound.
pub proof fn amplification_is_bounded(before: AntiAmplifier, bytes: usize)
    requires
        !before.validated,
        before.sent <= 3 * before.received <= u64::MAX,
        bytes <= before.credit(),
    ensures
        before.sent + bytes <= 3 * before.received,
{
}

/// A peer whose address is not validated may be sent exactly as much as is missing to three times what it
/// sent, and nothing beyond that. Once it is validated there is no limit.
pub proof fn credit_is_three_times_what_came(amplifier: AntiAmplifier)
    requires
        amplifier.received + amplifier.received + amplifier.received <= usize::MAX <= u64::MAX,
    ensures
        amplifier.validated ==> amplifier.credit() == usize::MAX,
        !amplifier.validated && amplifier.sent <= amplifier.received + amplifier.received + amplifier.received
            ==> amplifier.sent + amplifier.credit() == amplifier.received + amplifier.received + amplifier.received,
        !amplifier.validated && amplifier.sent > amplifier.received + amplifier.received + amplifier.received
            ==> amplifier.credit() == 0,
{
}

/// The lesser of two numbers is one of them, and neither is less.
pub proof fn lesser_of_two(left: int, right: int)
    ensures
        least(left, right) <= left && least(left, right) <= right,
        least(left, right) == left || least(left, right) == right,
{
}

} // verus!

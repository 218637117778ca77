//! Bursts: which waiting packets are submitted, and what follows from the outcome.
use vstd::prelude::*;

use crate::base::error::{ErrorKind, QuicError};
use crate::base::signals::Signals;
use crate::transport::assembly::{epoch, epoch_of, Epoch, PacketType, PendingPacket};
use crate::transport::constraints::{AntiAmplifier, Constraints, MIN_DATAGRAM};
use crate::transport::records::{others_keep_waiting, SentRecord};
use crate::transport::sender::{reduced, Journals, PerEpoch, Sender};

verus! {

/// Packet types that may still be sent.
#[derive(Clone, Copy, Debug, PartialEq, Eq, Structural)]
pub struct Allowed {
    pub initial: bool,
    pub zero_rtt: bool,
    pub handshake: bool,
    pub one_rtt: bool,
}

impl Allowed {
    pub open spec fn allows(self, packet_type: PacketType) -> bool {
        match packet_type {
            PacketType::Initial => self.initial,
            PacketType::ZeroRtt => self.zero_rtt,
            PacketType::Handshake => self.handshake,
            PacketType::OneRtt => self.one_rtt,
        }
    }

    pub fn get(self, packet_type: PacketType) -> (allowed: bool)
        ensures
            allowed == self.allows(packet_type),
    {
        match packet_type {
            PacketType::Initial => self.initial,
            PacketType::ZeroRtt => self.zero_rtt,
            PacketType::Handshake => self.handshake,
            PacketType::OneRtt => self.one_rtt,
        }
    }
}

/// What the socket made of a submission.
#[derive(Debug)]
pub enum Submission {
    /// It took nothing yet.
    Pending,
    /// It took this many datagrams from the front.
    Sent(usize),
    /// It failed, and said why.
    Failed(String),
}

/// What a submission came to.
#[derive(Debug)]
pub enum Settled {
    Pending,
    /// These packets are on their way.
    Sent(Vec<PendingPacket>),
    /// The path cannot be used: the socket failed, or took nothing, which a socket must not do.
    Failed(QuicError),
}

/// Whether anything can be submitted.
#[derive(Clone, Copy, Debug, PartialEq, Eq, Structural)]
pub enum Readiness {
    /// No packet waits.
    Empty,
    /// Neither credit nor congestion quota lets the first packet go.
    Held,
    /// This many packets from the front can go.
    Ready(usize),
}

/// The waiting packets of allowed types.
pub open spec fn kept(pending: Seq<PendingPacket>, allowed: Allowed) -> Seq<PendingPacket>
    decreases pending.len(),
{
    if pending.len() == 0 {
        pending
    } else if allowed.allows(pending.last().packet_type) {
        kept(pending.drop_last(), allowed).push(pending.last())
    } else {
        kept(pending.drop_last(), allowed)
    }
}

/// The waiting packets of other types.
pub open spec fn dropped(pending: Seq<PendingPacket>, allowed: Allowed) -> Seq<PendingPacket>
    decreases pending.len(),
{
    if pending.len() == 0 {
        pending
    } else if allowed.allows(pending.last().packet_type) {
        dropped(pending.drop_last(), allowed)
    } else {
        dropped(pending.drop_last(), allowed).push(pending.last())
    }
}

/// How many packets from the front may be submitted now: each within the anti-amplification
/// credit, and within the congestion quota if it is in flight, unless it serves as a loss probe
/// that is due.
pub open spec fn admissible(
    pending: Seq<PendingPacket>,
    overhead: int,
    credit: int,
    congestion: int,
    probes: PerEpoch,
) -> nat
    decreases pending.len(),
{
    if pending.len() == 0 {
        0
    } else {
        let packet = pending[0];
        let space = epoch_of(packet.packet_type);
        let length = packet.msg@.len() + overhead;
        if length > credit || (packet.in_flight && length > congestion && !(packet.content.elicits() && probes.of(
            space,
        ) > 0)) {
            0
        } else {
            1 + admissible(
                pending.drop_first(),
                overhead,
                credit - length,
                if packet.in_flight { reduced(congestion, length as int) } else { congestion },
                if packet.content.elicits() {
                    probes.with(space, reduced(probes.of(space) as int, 1) as u64)
                } else {
                    probes
                },
            )
        }
    }
}

impl<T: Copy> Journals<T> {
    /// Every journal but the one of `space` is that of `other`.
    pub open spec fn differs_only_in(&self, other: &Self, space: Epoch) -> bool {
        &&& space == Epoch::Initial || self.initial == other.initial
        &&& space == Epoch::Handshake || self.handshake == other.handshake
        &&& space == Epoch::Data || self.data == other.data
    }

    /// Whether the record of each packet waits in the journal of its space, once.
    pub open spec fn await_all(&self, packets: Seq<PendingPacket>) -> bool {
        &&& forall|i: int|
            #![trigger packets[i]]
            0 <= i < packets.len() ==> self.of(epoch_of(packets[i].packet_type)).awaits(packets[i].pn)
        &&& forall|i: int, j: int|
            #![trigger packets[i], packets[j]]
            0 <= i < j < packets.len() && epoch_of(packets[i].packet_type) == epoch_of(packets[j].packet_type)
                ==> packets[i].pn != packets[j].pn
    }

    /// Whether abandoning one packet leads from `self` to `after` and hands back `frames`.
    pub open spec fn cancels_one(&self, after: &Self, packet: PendingPacket, frames: Seq<T>) -> bool {
        let space = epoch_of(packet.packet_type);
        after.differs_only_in(self, space) && self.of(space).abandoned(&after.of(space), packet.pn, frames)
    }

    /// Whether abandoning the packets in turn passes through the states of `trace`, each step
    /// handing back its piece.
    pub open spec fn cancel_trace(
        &self,
        after: &Self,
        packets: Seq<PendingPacket>,
        trace: Seq<Self>,
        pieces: Seq<Seq<T>>,
    ) -> bool {
        &&& trace.len() == packets.len() + 1
        &&& pieces.len() == packets.len()
        &&& trace[0] == *self
        &&& trace.last() == *after
        &&& forall|i: int|
            #![trigger packets[i]]
            0 <= i < packets.len() ==> trace[i].cancels_one(&trace[i + 1], packets[i], pieces[i])
    }

    /// Whether abandoning the packets in turn leads to `after` and hands back `frames`.
    pub open spec fn cancels(&self, after: &Self, packets: Seq<PendingPacket>, frames: Seq<T>) -> bool {
        exists|trace: Seq<Self>, pieces: Seq<Seq<T>>|
            #[trigger] self.cancel_trace(after, packets, trace, pieces) && frames == joined(pieces)
    }

    /// Whether submitting one packet leads from `self` to `after`.
    pub open spec fn submits_one(
        &self,
        after: &Self,
        packet: PendingPacket,
        now: u64,
        delays: PerEpoch,
        retentions: PerEpoch,
    ) -> bool {
        let space = epoch_of(packet.packet_type);
        after.differs_only_in(self, space) && self.of(space).submitted(
            &after.of(space),
            packet.pn,
            packet.in_flight,
            now,
            delays.of(space),
            retentions.of(space),
        )
    }

    /// Whether submitting the packets in turn passes through the states of `trace`.
    pub open spec fn submit_trace(
        &self,
        after: &Self,
        packets: Seq<PendingPacket>,
        now: u64,
        delays: PerEpoch,
        retentions: PerEpoch,
        trace: Seq<Self>,
    ) -> bool {
        &&& trace.len() == packets.len() + 1
        &&& trace[0] == *self
        &&& trace.last() == *after
        &&& forall|i: int|
            #![trigger packets[i]]
            0 <= i < packets.len() ==> trace[i].submits_one(&trace[i + 1], packets[i], now, delays, retentions)
    }

    /// Whether submitting the packets in turn leads to `after`.
    pub open spec fn submits(
        &self,
        after: &Self,
        packets: Seq<PendingPacket>,
        now: u64,
        delays: PerEpoch,
        retentions: PerEpoch,
    ) -> bool {
        exists|trace: Seq<Self>| #[trigger] self.submit_trace(after, packets, now, delays, retentions, trace)
    }

    fn cancel_one(&mut self, space: Epoch, pn: u64) -> (frames: Vec<T>)
        requires
            old(self).wf(),
        ensures
            final(self).wf(),
            final(self).differs_only_in(old(self), space),
            old(self).of(space).abandoned(&final(self).of(space), pn, frames@),
    {
        match space {
            Epoch::Initial => self.initial.cancel(pn),
            Epoch::Handshake => self.handshake.cancel(pn),
            Epoch::Data => self.data.cancel(pn),
        }
    }

    fn submit_one(&mut self, space: Epoch, pn: u64, in_flight: bool, now: u64, delay: u64, retention: u64)
        requires
            old(self).wf(),
            old(self).of(space).awaits(pn),
            now + delay <= u64::MAX,
            now + retention <= u64::MAX,
        ensures
            final(self).wf(),
            final(self).differs_only_in(old(self), space),
            old(self).of(space).submitted(&final(self).of(space), pn, in_flight, now, delay, retention),
    {
        match space {
            Epoch::Initial => self.initial.mark_sent(pn, in_flight, now, delay, retention),
            Epoch::Handshake => self.handshake.mark_sent(pn, in_flight, now, delay, retention),
            Epoch::Data => self.data.mark_sent(pn, in_flight, now, delay, retention),
        }
    }
}

/// The credit after the packets were sent.
pub open spec fn charged(amplifier: AntiAmplifier, packets: Seq<PendingPacket>, overhead: int) -> AntiAmplifier
    decreases packets.len(),
{
    if packets.len() == 0 {
        amplifier
    } else {
        let before = charged(amplifier, packets.drop_last(), overhead);
        let sent = AntiAmplifier {
            sent: ((before.sent + packets.last().msg@.len() + overhead) % 0x1_0000_0000_0000_0000) as u64,
            ..before
        };
        AntiAmplifier { limited: sent.limited || sent.credit() < MIN_DATAGRAM, ..sent }
    }
}

impl<T: Copy> Sender<T> {
    /// Whether the waiting packets fit their journals and the machine.
    pub open spec fn queue_wf(&self, journals: &Journals<T>) -> bool {
        &&& journals.wf()
        &&& journals.await_all(self.pending@)
        &&& forall|i: int|
            #![trigger self.pending@[i]]
            0 <= i < self.pending@.len() ==> self.pending@[i].msg@.len() + self.overhead <= usize::MAX
    }

    /// Starts a burst: the limits for its packets, or nothing while packets wait already.
    pub fn burst_start(&mut self, quota: Result<usize, Signals>) -> (limits: Option<Constraints>)
        ensures
            final(self).same_queue(old(self)),
            if old(self).pending@.len() > 0 {
                limits is None && final(self).signals == old(self).signals
            } else {
                let waits = Signals { transport: true, keys: true, path_validate: true, ping: true, ..Signals::none() };
                &&& limits == Some(
                    Constraints {
                        capacity: MIN_DATAGRAM,
                        congestion: match quota {
                            Ok(quota) => quota,
                            Err(_) => 0,
                        },
                        anti_amplification: old(self).anti_amplifier.credit() as usize,
                    },
                )
                &&& final(self).signals == match quota {
                    Ok(_) => waits,
                    Err(signals) => waits.join(signals),
                }
            },
    {
        if self.pending.len() > 0 {
            return None;
        }
        let mut signals: Signals = Signals::empty();
        signals.transport = true;
        signals.keys = true;
        signals.path_validate = true;
        signals.ping = true;
        let congestion: usize = match quota {
            Ok(quota) => quota,
            Err(blocked) => {
                signals = signals.union(blocked);
                0
            },
        };
        self.signals = signals;
        Some(
            Constraints {
                capacity: MIN_DATAGRAM,
                congestion,
                anti_amplification: self.anti_amplifier.balance(),
            },
        )
    }

    /// Whether the burst has room for another packet.
    pub fn burst_has_room(&self) -> (room: bool)
        ensures
            room <==> self.pending@.len() < self.max_datagrams,
    {
        self.pending.len() < self.max_datagrams
    }

    /// Adds a packet to the burst and takes it off the limits for the next ones.
    pub fn burst_push(&mut self, constraints: &mut Constraints, packet: PendingPacket)
        requires
            packet.msg@.len() + old(self).overhead <= usize::MAX,
        ensures
            final(self).overhead == old(self).overhead,
            final(self).max_datagrams == old(self).max_datagrams,
            final(self).anti_amplifier == old(self).anti_amplifier,
            final(self).frames@ == old(self).frames@,
            final(self).signals == old(self).signals,
            final(self).pending@ == old(self).pending@.push(packet),
            ({
                let length = packet.msg@.len() + old(self).overhead;
                *final(constraints) == (Constraints {
                    capacity: old(constraints).capacity,
                    congestion: if packet.in_flight {
                        reduced(old(constraints).congestion as int, length as int) as usize
                    } else {
                        old(constraints).congestion
                    },
                    anti_amplification: reduced(old(constraints).anti_amplification as int, length as int) as usize,
                })
            }),
    {
        let length: usize = packet.msg.len() + self.overhead;
        constraints.anti_amplification = if constraints.anti_amplification < length {
            0
        } else {
            constraints.anti_amplification - length
        };
        if packet.in_flight {
            constraints.congestion = if constraints.congestion < length {
                0
            } else {
                constraints.congestion - length
            };
        }
        self.pending.push(packet);
    }

    /// Drops the waiting packets whose type may no longer be sent, and hands back their frames.
    /// Packets of other spaces stay.
    pub fn retain_allowed(&mut self, allowed: Allowed, journals: &mut Journals<T>) -> (recovered: Vec<T>)
        requires
            old(self).queue_wf(old(journals)),
        ensures
            final(self).queue_wf(final(journals)),
            final(self).overhead == old(self).overhead,
            final(self).max_datagrams == old(self).max_datagrams,
            final(self).anti_amplifier == old(self).anti_amplifier,
            final(self).frames@ == old(self).frames@,
            final(self).signals == old(self).signals,
            final(self).pending@ == kept(old(self).pending@, allowed),
            old(journals).cancels(final(journals), dropped(old(self).pending@, allowed), recovered@),
    {
        let ghost before = self.pending@;
        let ghost start = *journals;
        let mut recovered: Vec<T> = Vec::new();
        let mut seen: usize = 0;
        let mut index: usize = 0;
        let count: usize = self.pending.len();
        proof {
            assert(before.take(0) =~= Seq::<PendingPacket>::empty());
            assert(self.pending@ =~= kept(before.take(0), allowed) + before.skip(0));
            assert(start.cancel_trace(journals, Seq::empty(), seq![start], Seq::empty()));
            assert(joined(Seq::<Seq<T>>::empty()) =~= recovered@);
        }
        while seen < count
            invariant
                journals.wf(),
                journals.await_all(self.pending@),
                count == before.len(),
                index <= seen <= count,
                index == kept(before.take(seen as int), allowed).len(),
                self.pending@ == kept(before.take(seen as int), allowed) + before.skip(seen as int),
                start.cancels(journals, dropped(before.take(seen as int), allowed), recovered@),
                self.overhead == old(self).overhead,
                self.max_datagrams == old(self).max_datagrams,
                self.anti_amplifier == old(self).anti_amplifier,
                self.frames@ == old(self).frames@,
                self.signals == old(self).signals,
                forall|i: int|
                    #![trigger before[i]]
                    0 <= i < before.len() ==> before[i].msg@.len() + self.overhead <= usize::MAX,
                forall|i: int|
                    #![trigger self.pending@[i]]
                    0 <= i < self.pending@.len() ==> self.pending@[i].msg@.len() + self.overhead <= usize::MAX,
            decreases count - seen,
        {
            let ghost left = kept(before.take(seen as int), allowed);
            assert(before.take(seen + 1).drop_last() =~= before.take(seen as int));
            assert(self.pending@[index as int] == before[seen as int]);
            let packet_type: PacketType = self.pending[index].packet_type;
            if allowed.get(packet_type) {
                index = index + 1;
                assert(self.pending@ =~= left.push(before[seen as int]) + before.skip(seen + 1));
            } else {
                let ghost waiting = self.pending@;
                let ghost middle = *journals;
                let ghost earlier = recovered@;
                let packet: PendingPacket = self.pending.remove(index);
                assert(self.pending@ =~= left + before.skip(seen + 1));
                let mut frames: Vec<T> = journals.cancel_one(epoch(packet.packet_type), packet.pn);
                let ghost returned = frames@;
                recovered.append(&mut frames);
                proof {
                    lemma_await_rest(&middle, journals, waiting, index as int);
                    let gone = dropped(before.take(seen + 1), allowed);
                    assert(gone.drop_last() =~= dropped(before.take(seen as int), allowed));
                    lemma_cancels_more(&start, &middle, journals, gone.drop_last(), packet, earlier, returned);
                    assert(gone =~= gone.drop_last().push(packet));
                }
            }
            seen = seen + 1;
        }
        assert(before.take(seen as int) =~= before);
        assert(self.pending@ =~= kept(before, allowed));
        recovered
    }

    /// How many of the waiting packets may be submitted now. `quota` is what congestion control
    /// allows, `probes` how many loss probes are due in each space.
    pub fn submittable(&self, quota: usize, probes: PerEpoch) -> (count: usize)
        requires
            forall|i: int|
                #![trigger self.pending@[i]]
                0 <= i < self.pending@.len() ==> self.pending@[i].msg@.len() + self.overhead <= usize::MAX,
        ensures
            count <= self.pending@.len(),
            count == admissible(
                self.pending@,
                self.overhead as int,
                self.anti_amplifier.credit(),
                quota as int,
                probes,
            ),
    {
        let mut credit: usize = self.anti_amplifier.balance();
        let mut congestion: usize = quota;
        let mut due: PerEpoch = probes;
        let mut count: usize = 0;
        let mut open: bool = true;
        assert(self.pending@.skip(0) =~= self.pending@);
        while count < self.pending.len() && open
            invariant
                count <= self.pending@.len(),
                forall|i: int|
                    #![trigger self.pending@[i]]
                    0 <= i < self.pending@.len() ==> self.pending@[i].msg@.len() + self.overhead <= usize::MAX,
                admissible(
                    self.pending@,
                    self.overhead as int,
                    self.anti_amplifier.credit(),
                    quota as int,
                    probes,
                ) == count + if open {
                    admissible(
                        self.pending@.skip(count as int),
                        self.overhead as int,
                        credit as int,
                        congestion as int,
                        due,
                    )
                } else {
                    0
                },
            decreases self.pending@.len() - count + if open { 1int } else { 0int },
        {
            let packet: &PendingPacket = &self.pending[count];
            let space: Epoch = packet.epoch();
            let length: usize = packet.msg.len() + self.overhead;
            let elicits: bool = packet.content.is_ack_eliciting();
            assert(self.pending@.skip(count as int)[0] == self.pending@[count as int]);
            assert(self.pending@.skip(count as int).drop_first() =~= self.pending@.skip(count + 1));
            if length > credit || (packet.in_flight && length > congestion && !(elicits && due.get(space) > 0)) {
                open = false;
            } else {
                credit = credit - length;
                if packet.in_flight {
                    congestion = if congestion < length {
                        0
                    } else {
                        congestion - length
                    };
                }
                if elicits {
                    let left: u64 = due.get(space);
                    due.set(
                        space,
                        if left == 0 {
                            0
                        } else {
                            left - 1
                        },
                    );
                }
                count = count + 1;
            }
        }
        count
    }

    /// Notes that nothing may be submitted for want of credit or congestion quota.
    pub fn wait_for_credit(&mut self)
        ensures
            final(self).same_queue(old(self)),
            final(self).signals == old(self).signals.join(
                Signals::only_credit().join(Signals::only_congestion()),
            ),
    {
        self.signals = self.signals.union(Signals::credit().union(Signals::congestion()));
    }

    /// Decides what to submit: packets whose type may no longer be sent are dropped, their frames handed
    /// back, and of the others as many go as credit and congestion allow. Where none may, the sender
    /// waits for either.
    pub fn poll_send(&mut self, allowed: Allowed, quota: usize, probes: PerEpoch, journals: &mut Journals<T>) -> (decided: (
        Readiness,
        Vec<T>,
    ))
        requires
            old(self).queue_wf(old(journals)),
        ensures
            final(self).queue_wf(final(journals)),
            final(self).overhead == old(self).overhead,
            final(self).max_datagrams == old(self).max_datagrams,
            final(self).anti_amplifier == old(self).anti_amplifier,
            final(self).frames@ == old(self).frames@,
            final(self).pending@ == kept(old(self).pending@, allowed),
            old(journals).cancels(final(journals), dropped(old(self).pending@, allowed), decided.1@),
            ({
                let count = admissible(
                    kept(old(self).pending@, allowed),
                    old(self).overhead as int,
                    old(self).anti_amplifier.credit(),
                    quota as int,
                    probes,
                );
                let held = final(self).pending@.len() > 0 && count == 0;
                &&& decided.0 == if final(self).pending@.len() == 0 {
                    Readiness::Empty
                } else if held {
                    Readiness::Held
                } else {
                    Readiness::Ready(count as usize)
                }
                &&& final(self).signals == if held {
                    old(self).signals.join(Signals::only_credit().join(Signals::only_congestion()))
                } else {
                    old(self).signals
                }
            }),
    {
        let recovered: Vec<T> = self.retain_allowed(allowed, journals);
        if self.pending.len() == 0 {
            return (Readiness::Empty, recovered);
        }
        let count: usize = self.submittable(quota, probes);
        if count == 0 {
            self.wait_for_credit();
            return (Readiness::Held, recovered);
        }
        (Readiness::Ready(count), recovered)
    }

    /// Abandons every waiting packet and hands back their frames.
    pub fn cancel_pending(&mut self, journals: &mut Journals<T>) -> (recovered: Vec<T>)
        requires
            old(self).queue_wf(old(journals)),
        ensures
            final(journals).wf(),
            final(self).pending@ == Seq::<PendingPacket>::empty(),
            final(self).overhead == old(self).overhead,
            final(self).max_datagrams == old(self).max_datagrams,
            final(self).anti_amplifier == old(self).anti_amplifier,
            final(self).frames@ == old(self).frames@,
            final(self).signals == old(self).signals,
            old(journals).cancels(final(journals), old(self).pending@, recovered@),
    {
        let nothing = Allowed { initial: false, zero_rtt: false, handshake: false, one_rtt: false };
        proof {
            lemma_nothing_allowed(self.pending@, nothing);
        }
        self.retain_allowed(nothing, journals)
    }

    /// Takes account of what the socket made of the first `count` packets, at `now`. Packets that
    /// were taken are committed to their journals and charged to the credit before anything else;
    /// the others stay in front of the queue. After a failure all waiting packets are abandoned
    /// and their frames handed back in `recovered`.
    pub fn settle_submission(
        &mut self,
        outcome: Submission,
        journals: &mut Journals<T>,
        now: u64,
        delays: PerEpoch,
        retentions: PerEpoch,
        recovered: &mut Vec<T>,
    ) -> (settled: Settled)
        requires
            old(self).queue_wf(old(journals)),
            outcome matches Submission::Sent(count) ==> count <= old(self).pending@.len(),
            forall|space: Epoch|
                #![trigger delays.of(space)]
                now + delays.of(space) <= u64::MAX && now + retentions.of(space) <= u64::MAX,
        ensures
            final(self).queue_wf(final(journals)),
            final(self).overhead == old(self).overhead,
            final(self).max_datagrams == old(self).max_datagrams,
            final(self).frames@ == old(self).frames@,
            final(self).signals == old(self).signals,
            match outcome {
                Submission::Pending => {
                    &&& settled is Pending
                    &&& *final(self) == *old(self)
                    &&& *final(journals) == *old(journals)
                    &&& final(recovered)@ == old(recovered)@
                },
                Submission::Sent(count) if count > 0 => {
                    &&& settled matches Settled::Sent(packets) && packets@ == old(self).pending@.take(count as int)
                    &&& final(self).pending@ == old(self).pending@.skip(count as int)
                    &&& final(self).anti_amplifier == charged(
                        old(self).anti_amplifier,
                        old(self).pending@.take(count as int),
                        old(self).overhead as int,
                    )
                    &&& old(journals).submits(
                        final(journals),
                        old(self).pending@.take(count as int),
                        now,
                        delays,
                        retentions,
                    )
                    &&& final(recovered)@ == old(recovered)@
                },
                _ => {
                    &&& settled matches Settled::Failed(error) && error.says(
                        ErrorKind::NoViablePath,
                        match outcome {
                            Submission::Failed(reason) => reason@,
                            _ => "UDP submitted zero datagrams"@,
                        },
                    )
                    &&& final(self).pending@ == Seq::<PendingPacket>::empty()
                    &&& final(self).anti_amplifier == old(self).anti_amplifier
                    &&& exists|returned: Seq<T>|
                        {
                            &&& #[trigger] old(journals).cancels(final(journals), old(self).pending@, returned)
                            &&& final(recovered)@ == old(recovered)@ + returned
                        }
                },
            },
    {
        let count: usize = match outcome {
            Submission::Pending => return Settled::Pending,
            Submission::Failed(reason) => {
                let mut returned: Vec<T> = self.cancel_pending(journals);
                recovered.append(&mut returned);
                return Settled::Failed(QuicError::new(ErrorKind::NoViablePath, reason.as_str()));
            },
            Submission::Sent(count) => count,
        };
        if count == 0 {
            let mut returned: Vec<T> = self.cancel_pending(journals);
            recovered.append(&mut returned);
            return Settled::Failed(QuicError::new(ErrorKind::NoViablePath, "UDP submitted zero datagrams"));
        }
        let ghost before = self.pending@;
        let ghost start = *journals;
        let mut index: usize = 0;
        proof {
            assert(before.take(0) =~= Seq::<PendingPacket>::empty());
            assert(before.skip(0) =~= before);
            assert(start.submit_trace(journals, before.take(0), now, delays, retentions, seq![start]));
        }
        while index < count
            invariant
                self.pending@ == before,
                index <= count <= before.len(),
                journals.wf(),
                journals.await_all(before.skip(index as int)),
                start.submits(journals, before.take(index as int), now, delays, retentions),
                self.overhead == old(self).overhead,
                self.max_datagrams == old(self).max_datagrams,
                self.frames@ == old(self).frames@,
                self.signals == old(self).signals,
                self.anti_amplifier == charged(
                    old(self).anti_amplifier,
                    before.take(index as int),
                    self.overhead as int,
                ),
                forall|i: int|
                    #![trigger before[i]]
                    0 <= i < before.len() ==> before[i].msg@.len() + self.overhead <= usize::MAX,
                forall|space: Epoch|
                    #![trigger delays.of(space)]
                    now + delays.of(space) <= u64::MAX && now + retentions.of(space) <= u64::MAX,
            decreases count - index,
        {
            let ghost middle = *journals;
            let ghost rest = before.skip(index as int);
            assert(before.take(index + 1).drop_last() =~= before.take(index as int));
            let packet: &PendingPacket = &self.pending[index];
            let space: Epoch = packet.epoch();
            let pn: u64 = packet.pn;
            let in_flight: bool = packet.in_flight;
            let length: usize = packet.msg.len() + self.overhead;
            assert(rest[0] == before[index as int]);
            assert(now + delays.of(space) <= u64::MAX);
            journals.submit_one(space, pn, in_flight, now, delays.get(space), retentions.get(space));
            self.anti_amplifier.on_sent(length);
            proof {
                lemma_await_rest(&middle, journals, rest, 0);
                assert(rest.remove(0) =~= before.skip(index + 1));
                lemma_submits_more(
                    &start,
                    &middle,
                    journals,
                    before.take(index as int),
                    before[index as int],
                    now,
                    delays,
                    retentions,
                );
                assert(before.take(index + 1) =~= before.take(index as int).push(before[index as int]));
            }
            index = index + 1;
        }
        let mut sent: Vec<PendingPacket> = self.pending.split_off(count);
        std::mem::swap(&mut sent, &mut self.pending);
        assert(sent@ =~= before.take(count as int));
        assert(self.pending@ =~= before.skip(count as int));
        Settled::Sent(sent)
    }
}

/// The pieces, one after the other.
pub open spec fn joined<T>(pieces: Seq<Seq<T>>) -> Seq<T>
    decreases pieces.len(),
{
    if pieces.len() == 0 {
        Seq::empty()
    } else {
        joined(pieces.drop_last()) + pieces.last()
    }
}

proof fn lemma_cancels_more<T: Copy>(
    start: &Journals<T>,
    middle: &Journals<T>,
    after: &Journals<T>,
    packets: Seq<PendingPacket>,
    packet: PendingPacket,
    earlier: Seq<T>,
    returned: Seq<T>,
)
    requires
        start.cancels(middle, packets, earlier),
        middle.cancels_one(after, packet, returned),
    ensures
        start.cancels(after, packets.push(packet), earlier + returned),
{
    let (trace, pieces) = choose|trace: Seq<Journals<T>>, pieces: Seq<Seq<T>>|
        #[trigger] start.cancel_trace(middle, packets, trace, pieces) && earlier == joined(pieces);
    let longer = trace.push(*after);
    let more = pieces.push(returned);
    let all = packets.push(packet);
    assert forall|i: int|
        #![trigger all[i]]
        0 <= i < all.len() implies longer[i].cancels_one(&longer[i + 1], all[i], more[i]) by {
        if i < packets.len() {
            assert(all[i] == packets[i]);
        }
    }
    assert(start.cancel_trace(after, all, longer, more));
    assert(more.drop_last() =~= pieces);
}

proof fn lemma_submits_more<T: Copy>(
    start: &Journals<T>,
    middle: &Journals<T>,
    after: &Journals<T>,
    packets: Seq<PendingPacket>,
    packet: PendingPacket,
    now: u64,
    delays: PerEpoch,
    retentions: PerEpoch,
)
    requires
        start.submits(middle, packets, now, delays, retentions),
        middle.submits_one(after, packet, now, delays, retentions),
    ensures
        start.submits(after, packets.push(packet), now, delays, retentions),
{
    let trace = choose|trace: Seq<Journals<T>>|
        #[trigger] start.submit_trace(middle, packets, now, delays, retentions, trace);
    let longer = trace.push(*after);
    let all = packets.push(packet);
    assert forall|i: int|
        #![trigger all[i]]
        0 <= i < all.len() implies longer[i].submits_one(&longer[i + 1], all[i], now, delays, retentions) by {
        if i < packets.len() {
            assert(all[i] == packets[i]);
        }
    }
    assert(start.submit_trace(after, all, now, delays, retentions, longer));
}

proof fn lemma_await_rest<T: Copy>(
    before: &Journals<T>,
    after: &Journals<T>,
    packets: Seq<PendingPacket>,
    index: int,
)
    requires
        before.wf(),
        after.wf(),
        before.await_all(packets),
        0 <= index < packets.len(),
        ({
            let packet = packets[index];
            let space = epoch_of(packet.packet_type);
            let old_journal = before.of(space);
            let new_journal = after.of(space);
            &&& after.differs_only_in(before, space)
            &&& new_journal.records() == old_journal.records().remove(old_journal.index_of(packet.pn)) || exists|
                record: SentRecord<T>,
            |
                #![trigger old_journal.records().update(old_journal.index_of(packet.pn), record)]
                new_journal.records() == old_journal.records().update(old_journal.index_of(packet.pn), record)
                    && record.pn == packet.pn
        }),
    ensures
        after.await_all(packets.remove(index)),
{
    let packet = packets[index];
    let space = epoch_of(packet.packet_type);
    let rest = packets.remove(index);
    assert forall|i: int|
        #![trigger rest[i]]
        0 <= i < rest.len() implies after.of(epoch_of(rest[i].packet_type)).awaits(rest[i].pn) by {
        let j = if i < index { i } else { i + 1 };
        assert(rest[i] == packets[j]);
        if epoch_of(packets[j].packet_type) == space {
            assert(packets[j].pn != packet.pn);
            others_keep_waiting(&before.of(space), &after.of(space), packet.pn, packets[j].pn);
        }
    }
    assert forall|i: int, j: int|
        #![trigger rest[i], rest[j]]
        0 <= i < j < rest.len() && epoch_of(rest[i].packet_type) == epoch_of(rest[j].packet_type) implies rest[i].pn
        != rest[j].pn by {
        let k = if i < index { i } else { i + 1 };
        let l = if j < index { j } else { j + 1 };
        assert(rest[i] == packets[k] && rest[j] == packets[l]);
    }
}

proof fn lemma_nothing_allowed(pending: Seq<PendingPacket>, allowed: Allowed)
    requires
        allowed == (Allowed { initial: false, zero_rtt: false, handshake: false, one_rtt: false }),
    ensures
        kept(pending, allowed) == Seq::<PendingPacket>::empty(),
        dropped(pending, allowed) == pending,
    decreases pending.len(),
{
    if pending.len() > 0 {
        lemma_nothing_allowed(pending.drop_last(), allowed);
        assert(pending =~= pending.drop_last().push(pending.last()));
    }
}

} // verus!

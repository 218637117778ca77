//! Validation of one path. Instants are in microseconds; a challenge is known by its eight bytes.
use vstd::prelude::*;

use crate::base::addr::Pathway;
use crate::base::cid::ConnectionId;
use crate::base::error::{ErrorKind, QuicError};
use crate::base::signals::Signals;
use crate::transport::assembly::PendingPacket;
use crate::transport::constraints::{AntiAmplifier, Constraints, MIN_DATAGRAM};

verus! {

/// Most responses that wait to be sent.
pub const MAX_RESPONSES: usize = 8;

/// Challenges sent before validation fails.
pub const MAX_ATTEMPTS: u8 = 3;

/// Least time taken for one round trip of validation.
pub const MIN_VALIDATION_DELAY: u64 = 100_000;

#[derive(Clone, Copy, Debug, PartialEq, Eq, Structural)]
pub enum PathState {
    Unvalidated,
    Validating { challenge: u64, attempts: u8, retry_at: u64 },
    Validated,
    Retired,
}

/// One path: where it leads, whether the peer was shown to be there, and what it is owed.
#[derive(Debug)]
pub struct Path {
    pub pathway: Pathway,
    pub dcid: ConnectionId,
    pub state: PathState,
    /// Responses to the peer's challenges, oldest first.
    pub responses: Vec<u64>,
    pub anti_amplifier: AntiAmplifier,
}

/// No two of the values are equal.
pub open spec fn distinct(values: Seq<u64>) -> bool {
    forall|i: int, j: int| #![trigger values[i], values[j]] 0 <= i < j < values.len() ==> values[i] != values[j]
}

/// The responses after a challenge came: once each, and the oldest goes when there are too many.
pub open spec fn answered(responses: Seq<u64>, challenge: u64) -> Seq<u64> {
    if responses.contains(challenge) {
        responses
    } else if responses.len() == MAX_RESPONSES {
        responses.drop_first().push(challenge)
    } else {
        responses.push(challenge)
    }
}

impl Path {
    pub open spec fn wf(&self) -> bool {
        self.responses@.len() <= MAX_RESPONSES && distinct(self.responses@)
    }

    /// All but the state and the credit is that of `other`.
    pub open spec fn same_route(&self, other: &Path) -> bool {
        self.pathway == other.pathway && self.dcid == other.dcid
    }

    pub fn new(pathway: Pathway, dcid: ConnectionId, limited: bool) -> (path: Path)
        ensures
            path.wf(),
            path.pathway == pathway,
            path.dcid == dcid,
            path.state == PathState::Unvalidated,
            path.responses@ == Seq::<u64>::empty(),
            path.anti_amplifier == (AntiAmplifier { received: 0, sent: 0, validated: false, limited }),
    {
        Path {
            pathway,
            dcid,
            state: PathState::Unvalidated,
            responses: Vec::new(),
            anti_amplifier: AntiAmplifier::new(limited),
        }
    }

    pub fn dcid(&self) -> (dcid: ConnectionId)
        ensures
            dcid == self.dcid,
    {
        self.dcid
    }

    pub fn state(&self) -> (state: PathState)
        ensures
            state == self.state,
    {
        self.state
    }

    /// Uses another connection ID of the peer from now on; returns what to wake.
    pub fn set_dcid(&mut self, dcid: ConnectionId) -> (wake: Signals)
        ensures
            final(self).dcid == dcid,
            final(self).pathway == old(self).pathway,
            final(self).state == old(self).state,
            final(self).responses@ == old(self).responses@,
            final(self).anti_amplifier == old(self).anti_amplifier,
            wake == Signals::only_connection_id(),
    {
        self.dcid = dcid;
        Signals::connection_id()
    }

    pub fn is_validated(&self) -> (validated: bool)
        ensures
            validated == (self.state == PathState::Validated),
    {
        match self.state {
            PathState::Validated => true,
            _ => false,
        }
    }

    pub fn amplification_credit(&self) -> (credit: usize)
        ensures
            credit == self.anti_amplifier.credit(),
    {
        self.anti_amplifier.balance()
    }

    /// Counts a received datagram, once; returns what to wake.
    pub fn on_datagram_received(&mut self, bytes: usize) -> (wake: Signals)
        requires
            old(self).wf(),
        ensures
            final(self).wf(),
            final(self).same_route(old(self)),
            final(self).state == old(self).state,
            final(self).responses@ == old(self).responses@,
            final(self).anti_amplifier.received == (old(self).anti_amplifier.received + bytes)
                % 0x1_0000_0000_0000_0000,
            final(self).anti_amplifier.sent == old(self).anti_amplifier.sent,
            final(self).anti_amplifier.validated == old(self).anti_amplifier.validated,
            final(self).anti_amplifier.limited <==> old(self).anti_amplifier.limited
                && final(self).anti_amplifier.credit() < MIN_DATAGRAM,
            wake == Signals::only_credit(),
    {
        self.anti_amplifier.on_received(bytes);
        Signals::credit()
    }

    /// Lifts the anti-amplification limit. That alone does not let business traffic onto the path.
    pub fn grant_amplification(&mut self) -> (wake: Signals)
        requires
            old(self).wf(),
        ensures
            final(self).wf(),
            final(self).same_route(old(self)),
            final(self).state == old(self).state,
            final(self).responses@ == old(self).responses@,
            final(self).anti_amplifier == (AntiAmplifier {
                validated: true,
                limited: false,
                ..old(self).anti_amplifier
            }),
            wake == Signals::only_credit(),
    {
        self.anti_amplifier.grant();
        Signals::credit()
    }

    /// Takes the path as validated, unless it is retired; returns what to wake.
    pub fn validate(&mut self) -> (wake: Signals)
        requires
            old(self).wf(),
        ensures
            final(self).wf(),
            final(self).same_route(old(self)),
            final(self).responses@ == old(self).responses@,
            if old(self).state is Retired {
                &&& final(self).state == old(self).state
                &&& final(self).anti_amplifier == old(self).anti_amplifier
                &&& wake == Signals::only_path_validate()
            } else {
                &&& final(self).state == PathState::Validated
                &&& final(self).anti_amplifier == (AntiAmplifier {
                    validated: true,
                    limited: false,
                    ..old(self).anti_amplifier
                })
                &&& wake == Signals::only_credit().join(Signals::only_path_validate())
            },
    {
        match self.state {
            PathState::Retired => Signals::path_validate(),
            _ => {
                self.state = PathState::Validated;
                self.anti_amplifier.grant();
                Signals::credit().union(Signals::path_validate())
            },
        }
    }

    /// Starts validation with a fresh challenge, if it has not begun; returns what to wake.
    pub fn start_validation(&mut self, challenge: u64, now: u64) -> (wake: Signals)
        requires
            old(self).wf(),
        ensures
            final(self).wf(),
            final(self).same_route(old(self)),
            final(self).responses@ == old(self).responses@,
            final(self).anti_amplifier == old(self).anti_amplifier,
            if old(self).state is Unvalidated {
                final(self).state == (PathState::Validating { challenge, attempts: 0, retry_at: now }) && wake
                    == Signals::only_transport()
            } else {
                final(self).state == old(self).state && wake == Signals::none()
            },
    {
        match self.state {
            PathState::Unvalidated => {
                self.state = PathState::Validating { challenge, attempts: 0, retry_at: now };
                Signals::transport()
            },
            _ => Signals::empty(),
        }
    }

    /// Gives the path up for good; returns what to wake.
    pub fn retire(&mut self) -> (wake: Signals)
        ensures
            final(self).wf(),
            final(self).same_route(old(self)),
            final(self).state == PathState::Retired,
            final(self).responses@ == Seq::<u64>::empty(),
            final(self).anti_amplifier == old(self).anti_amplifier,
            wake == Signals::every(),
    {
        self.state = PathState::Retired;
        self.responses.clear();
        Signals::all()
    }

    /// The limits for a packet, given what congestion control allows. A probe may exceed that.
    pub fn constraints(&self, capacity: usize, quota: usize, probe: bool) -> (limits: Constraints)
        ensures
            limits == (Constraints {
                capacity,
                congestion: if probe && quota < MIN_DATAGRAM { MIN_DATAGRAM } else { quota },
                anti_amplification: self.anti_amplifier.credit() as usize,
            }),
    {
        Constraints {
            capacity,
            congestion: if probe && quota < MIN_DATAGRAM {
                MIN_DATAGRAM
            } else {
                quota
            },
            anti_amplification: self.anti_amplifier.balance(),
        }
    }

    /// The challenge that is due at `now`. After the last attempt validation has failed.
    pub fn challenge(&self, now: u64) -> (result: Result<Option<u64>, QuicError>)
        ensures
            match self.state {
                PathState::Validating { challenge, attempts, retry_at } if retry_at <= now => if attempts
                    >= MAX_ATTEMPTS {
                    result matches Err(error) && error.says(ErrorKind::NoViablePath, "path validation timed out"@)
                } else {
                    result == Ok::<Option<u64>, QuicError>(Some(challenge))
                },
                _ => result == Ok::<Option<u64>, QuicError>(None),
            },
    {
        match self.state {
            PathState::Validating { challenge, attempts, retry_at } => {
                if now < retry_at {
                    Ok(None)
                } else if attempts >= MAX_ATTEMPTS {
                    Err(QuicError::new(ErrorKind::NoViablePath, "path validation timed out"))
                } else {
                    Ok(Some(challenge))
                }
            },
            _ => Ok(None),
        }
    }

    /// The oldest response that waits to be sent.
    pub fn response(&self) -> (response: Option<u64>)
        ensures
            response == if self.responses@.len() == 0 { None } else { Some(self.responses@[0]) },
    {
        if self.responses.len() == 0 {
            None
        } else {
            Some(self.responses[0])
        }
    }

    /// Confirms the validation frames of a packet that reached the socket at `now`. `pto` is the
    /// probe timeout of the path. Attempts beyond what can be counted change nothing: validation has
    /// failed long before.
    pub fn on_packet_sent(&mut self, packet: &PendingPacket, now: u64, pto: u64)
        requires
            old(self).wf(),
            now + 3 * (if pto < MIN_VALIDATION_DELAY { MIN_VALIDATION_DELAY } else { pto }) <= u64::MAX,
        ensures
            final(self).wf(),
            final(self).same_route(old(self)),
            final(self).anti_amplifier == old(self).anti_amplifier,
            final(self).responses@ == if packet.response is Some && old(self).responses@.len() > 0
                && packet.response == Some(old(self).responses@[0]) {
                old(self).responses@.drop_first()
            } else {
                old(self).responses@
            },
            final(self).state == match old(self).state {
                PathState::Validating { challenge, attempts, .. } if packet.challenge == Some(challenge) =>
                    PathState::Validating {
                    challenge,
                    attempts: if attempts == u8::MAX { attempts } else { (attempts + 1) as u8 },
                    retry_at: (now + 3 * (if pto < MIN_VALIDATION_DELAY { MIN_VALIDATION_DELAY } else { pto })) as u64,
                },
                state => state,
            },
    {
        if let Some(sent) = packet.response {
            if self.responses.len() > 0 && self.responses[0] == sent {
                let ghost before = self.responses@;
                self.responses.remove(0);
                assert(self.responses@ =~= before.drop_first());
            }
        }
        if let Some(sent) = packet.challenge {
            if let PathState::Validating { challenge, attempts, .. } = self.state {
                if challenge == sent {
                    let delay: u64 = if pto < MIN_VALIDATION_DELAY {
                        MIN_VALIDATION_DELAY
                    } else {
                        pto
                    };
                    let attempts: u8 = if attempts == u8::MAX {
                        attempts
                    } else {
                        attempts + 1
                    };
                    self.state = PathState::Validating { challenge, attempts, retry_at: now + 3 * delay };
                }
            }
        }
    }

    /// Takes a challenge of the peer: it is answered once; returns what to wake.
    pub fn recv_challenge(&mut self, challenge: u64) -> (wake: Signals)
        requires
            old(self).wf(),
        ensures
            final(self).wf(),
            final(self).same_route(old(self)),
            final(self).state == old(self).state,
            final(self).anti_amplifier == old(self).anti_amplifier,
            final(self).responses@ == answered(old(self).responses@, challenge),
            wake == Signals::only_transport(),
    {
        let mut known: bool = false;
        let mut index: usize = 0;
        while index < self.responses.len() && !known
            invariant
                *self == *old(self),
                index <= self.responses@.len(),
                known ==> self.responses@.contains(challenge),
                !known ==> forall|i: int| #![trigger self.responses@[i]] 0 <= i < index ==> self.responses@[i] != challenge,
            decreases self.responses@.len() - index,
        {
            if self.responses[index] == challenge {
                assert(self.responses@[index as int] == challenge);
                known = true;
            }
            index = index + 1;
        }
        if !known {
            let ghost before = self.responses@;
            if self.responses.len() == MAX_RESPONSES {
                self.responses.remove(0);
                assert(self.responses@ =~= before.drop_first());
            }
            self.responses.push(challenge);
        }
        Signals::transport()
    }

    /// Takes a response of the peer: one that answers a challenge that was sent validates the
    /// path. Returns what to wake.
    pub fn recv_response(&mut self, response: u64) -> (wake: Signals)
        requires
            old(self).wf(),
        ensures
            final(self).wf(),
            final(self).same_route(old(self)),
            final(self).responses@ == old(self).responses@,
            if old(self).state matches PathState::Validating { challenge, attempts, .. } && attempts >= 1 && challenge
                == response {
                &&& final(self).state == PathState::Validated
                &&& final(self).anti_amplifier == (AntiAmplifier {
                    validated: true,
                    limited: false,
                    ..old(self).anti_amplifier
                })
                &&& wake == Signals::only_credit().join(Signals::only_path_validate())
            } else {
                *final(self) == *old(self) && wake == Signals::none()
            },
    {
        let matches: bool = match self.state {
            PathState::Validating { challenge, attempts, .. } => attempts >= 1 && challenge == response,
            _ => false,
        };
        if matches {
            self.validate()
        } else {
            Signals::empty()
        }
    }
}

/// A challenge of the peer is answered once: its answer waits behind all others, unless it waits already. Up to
/// eight answers wait; for the ninth the oldest is given up, and no other.
pub proof fn challenge_is_answered_once(responses: Seq<u64>, challenge: u64)
    requires
        responses.len() <= 8,
        distinct(responses),
    ensures
        ({
            let after = answered(responses, challenge);
            &&& after.contains(challenge)
            &&& after.len() <= 8
            &&& distinct(after)
            &&& responses.contains(challenge) ==> after == responses
            &&& !responses.contains(challenge) ==> after.last() == challenge && after.drop_last() == if responses.len()
                < 8 {
                responses
            } else {
                responses.skip(1)
            }
        }),
{
    let after = answered(responses, challenge);
    if responses.contains(challenge) {
    } else {
        assert(after[after.len() - 1] == challenge);
        assert(after.drop_last() =~= if responses.len() < 8 {
            responses
        } else {
            responses.skip(1)
        });
        assert forall|i: int| #![trigger responses[i]] 0 <= i < responses.len() implies responses[i] != challenge by {
            if responses[i] == challenge {
                assert(responses.contains(challenge));
            }
        }
    }
}

/// Validation is given up after three challenges; at least a tenth of a second is left for each round trip.
pub proof fn validation_is_tried_three_times()
    ensures
        MAX_ATTEMPTS == 3,
        MIN_VALIDATION_DELAY == 100_000,
        MAX_RESPONSES == 8,
        MIN_DATAGRAM == 1200,
{
}

} // verus!

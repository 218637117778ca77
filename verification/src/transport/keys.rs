//! Readiness and retirement of keys, and the generations of one-RTT packet protection.
use std::sync::Arc;

use vstd::prelude::*;

use crate::base::error::{ErrorKind, PacketError, QuicError};
use crate::base::packet_number::PacketNumber;
use crate::base::signals::Signals;
use crate::base::varint::VARINT_MAX;
use crate::transport::protection::{
    confidentiality_limit, derive_next, derived, failure_limit, integrity_limit, open_in_place, opened, seal_limit,
    share, share_updated, tag_len, tag_size,
};
use crate::transport::records::{ArcSendJournal, SentPacketState, SentRecord};

verus! {

/// The keys are gone for good.
#[derive(Clone, Copy, Debug, PartialEq, Eq, Structural)]
pub struct KeyRetired;

/// Keys that are awaited, at hand or gone. A waiter is known by a number of the caller's.
#[derive(Debug)]
pub enum KeyState<K> {
    Pending,
    Waiting(u64),
    Ready(K),
    Retired,
}

/// What waiting for keys comes to.
#[derive(Clone, Copy, Debug, PartialEq, Eq, Structural)]
pub enum KeyPoll {
    Ready,
    Pending,
    Retired,
}

impl<K> KeyState<K> {
    pub open spec fn is_awaited(self) -> bool {
        self is Pending || self is Waiting
    }

    /// Whoever waits for the keys.
    pub open spec fn waiter(self) -> Option<u64> {
        match self {
            KeyState::Waiting(waker) => Some(waker),
            _ => None,
        }
    }

    /// Looks for the keys; while they are awaited, `waker` becomes the one that waits.
    pub fn poll_ready(&mut self, waker: u64) -> (poll: KeyPoll)
        ensures
            match *old(self) {
                KeyState::Ready(_) => poll == KeyPoll::Ready && *final(self) == *old(self),
                KeyState::Retired => poll == KeyPoll::Retired && *final(self) == *old(self),
                _ => poll == KeyPoll::Pending && *final(self) == KeyState::<K>::Waiting(waker),
            },
    {
        match self {
            KeyState::Ready(_) => KeyPoll::Ready,
            KeyState::Retired => KeyPoll::Retired,
            _ => {
                *self = KeyState::Waiting(waker);
                KeyPoll::Pending
            },
        }
    }
}

/// The keys of one packet-number space, for all who wait for them or use them.
#[derive(Debug)]
pub struct ArcKeys<K> {
    pub state: KeyState<K>,
}

impl<K> ArcKeys<K> {
    pub fn new_pending() -> (keys: Self)
        ensures
            keys.state == KeyState::<K>::Pending,
    {
        ArcKeys { state: KeyState::Pending }
    }

    /// Looks for the keys and leaves whoever waits for them in place.
    pub fn try_get(&self) -> (result: Result<Option<&K>, KeyRetired>)
        ensures
            match self.state {
                KeyState::Ready(keys) => result matches Ok(Some(found)) && *found == keys,
                KeyState::Retired => result == Err::<Option<&K>, KeyRetired>(KeyRetired),
                _ => result == Ok::<Option<&K>, KeyRetired>(None),
            },
    {
        match &self.state {
            KeyState::Ready(keys) => Ok(Some(keys)),
            KeyState::Retired => Err(KeyRetired),
            _ => Ok(None),
        }
    }

    /// Waits for the keys.
    pub fn poll(&mut self, waker: u64) -> (poll: KeyPoll)
        ensures
            match old(self).state {
                KeyState::Ready(_) => poll == KeyPoll::Ready && *final(self) == *old(self),
                KeyState::Retired => poll == KeyPoll::Retired && *final(self) == *old(self),
                _ => poll == KeyPoll::Pending && final(self).state == KeyState::<K>::Waiting(waker),
            },
    {
        self.state.poll_ready(waker)
    }

    /// Installs the keys, once, and returns whom to wake.
    pub fn install(&mut self, keys: K) -> (result: Result<Option<u64>, QuicError>)
        ensures
            match result {
                Ok(woken) => {
                    &&& old(self).state.is_awaited()
                    &&& woken == old(self).state.waiter()
                    &&& final(self).state == KeyState::Ready(keys)
                },
                Err(error) => {
                    &&& !old(self).state.is_awaited()
                    &&& error.says(ErrorKind::Internal, "keys already installed or retired"@)
                    &&& *final(self) == *old(self)
                },
            },
    {
        let woken: Option<u64> = match &self.state {
            KeyState::Pending => None,
            KeyState::Waiting(waker) => Some(*waker),
            _ => return Err(QuicError::new(ErrorKind::Internal, "keys already installed or retired")),
        };
        self.state = KeyState::Ready(keys);
        Ok(woken)
    }

    /// Retires the keys for good, and returns whom to wake.
    pub fn retire(&mut self) -> (woken: Option<u64>)
        ensures
            woken == old(self).state.waiter(),
            final(self).state == KeyState::<K>::Retired,
    {
        let woken: Option<u64> = match &self.state {
            KeyState::Waiting(waker) => Some(*waker),
            _ => None,
        };
        self.state = KeyState::Retired;
        woken
    }
}

/// Header protection does not change when packet keys are updated.
pub struct HeaderKeys {
    pub opening: Arc<rustls::quic::DirectionalKeys>,
    pub sealing: Arc<rustls::quic::DirectionalKeys>,
}

/// The keys of one generation; the first generation uses the keys that the handshake gave, which
/// are kept with those of header protection.
pub struct PacketKeys {
    pub generation: u64,
    /// The least and the greatest authenticated packet number, not all that is acceptable.
    pub received: Option<(u64, u64)>,
    pub expires: Option<u64>,
    pub updated: Option<Arc<rustls::quic::PacketKeySet>>,
}

impl PacketKeys {
    fn has_expired(&self, now: u64) -> (expired: bool)
        ensures
            expired == is_expired(*self, now),
    {
        match self.expires {
            Some(until) => until <= now,
            None => false,
        }
    }

    fn reaches(&self, pn: u64) -> (found: bool)
        ensures
            found == reached(*self, pn),
    {
        match self.received {
            Some((low, _)) => low <= pn,
            None => false,
        }
    }
}

/// The payload that an attempt to open `body` where it stands gave, from how long it is.
pub open spec fn payload_of(outcome: Result<Option<usize>, QuicError>, body: Seq<u8>) -> Result<
    Option<Seq<u8>>,
    QuicError,
> {
    match outcome {
        Ok(Some(length)) => Ok(Some(body.take(length as int))),
        Ok(None) => Ok(None),
        Err(error) => Err(error),
    }
}

pub struct OneRttPacketKeys {
    pub keys: Vec<PacketKeys>,
    pub next_secret: rustls::quic::Secrets,
    pub sealed_count: u64,
    pub failed_opened: u64,
    pub can_update: bool,
}

/// The key phase bit that packets of a generation bear.
pub open spec fn phase_of(generation: u64) -> bool {
    generation % 2 == 1
}

/// Until when an older generation can still open packets once a newer one was heard of.
pub open spec fn retained_until(now: u64, pto: u64) -> u64 {
    (now + 3 * pto) as u64
}

/// Whether a generation may no longer open packets.
pub open spec fn is_expired(keys: PacketKeys, now: u64) -> bool {
    keys.expires matches Some(until) && until <= now
}

/// The generations left when the expired ones at the front are gone.
pub open spec fn unexpired(keys: Seq<PacketKeys>, now: u64) -> Seq<PacketKeys>
    decreases keys.len(),
{
    if keys.len() == 0 || !is_expired(keys[0], now) {
        keys
    } else {
        unexpired(keys.drop_first(), now)
    }
}

/// Whether `pn` is not below the least number authenticated in a generation.
pub open spec fn reached(keys: PacketKeys, pn: u64) -> bool {
    keys.received matches Some((low, _)) && low <= pn
}

/// The latest generation known to start at or before `pn`, else the oldest.
pub open spec fn latest_reached(keys: Seq<PacketKeys>, pn: u64) -> int
    decreases keys.len(),
{
    if keys.len() <= 1 || reached(keys.last(), pn) {
        keys.len() - 1
    } else {
        latest_reached(keys.drop_last(), pn)
    }
}

/// Which generation a packet belongs to: one of `keys`, the one to come, or none where its phase
/// contradicts what was authenticated around its number.
pub open spec fn located(keys: Seq<PacketKeys>, pn: u64, phase: bool) -> Option<int> {
    let index = latest_reached(keys, pn);
    if phase == phase_of(keys[index].generation) {
        Some(index)
    } else if keys[index].received matches Some((_, high)) && pn <= high {
        None
    } else {
        Some(index + 1)
    }
}

/// The generations after a new one came; no more than three are kept.
pub open spec fn pushed(keys: Seq<PacketKeys>, updated: Arc<rustls::quic::PacketKeySet>) -> Seq<PacketKeys> {
    let kept = if keys.len() == 3 { keys.drop_first() } else { keys };
    kept.push(
        PacketKeys {
            generation: (keys.last().generation + 1) as u64,
            received: None,
            expires: None,
            updated: Some(updated),
        },
    )
}

/// The generations after `pn` was authenticated in the one at `index`: older ones expire at
/// `until` unless they do so already.
pub open spec fn authenticated(keys: Seq<PacketKeys>, index: int, pn: u64, until: u64) -> Seq<PacketKeys> {
    Seq::new(
        keys.len(),
        |i: int|
            if i < index {
                PacketKeys {
                    expires: match keys[i].expires {
                        Some(at) => Some(at),
                        None => Some(until),
                    },
                    ..keys[i]
                }
            } else if i == index {
                PacketKeys {
                    received: match keys[i].received {
                        Some((low, high)) => Some(
                            (if pn < low { pn } else { low }, if pn > high { pn } else { high }),
                        ),
                        None => Some((pn, pn)),
                    },
                    ..keys[i]
                }
            } else {
                keys[i]
            },
    )
}

/// What comes of a packet that belongs to a generation, given what opening it gave.
pub enum Settlement {
    /// It was not authentic.
    Refused,
    /// It was not authentic, once too often.
    Exhausted,
    /// It was authentic, but no further generation can be counted.
    Uncounted,
    Authentic,
}

impl OneRttPacketKeys {
    pub open spec fn wf(&self) -> bool {
        &&& 1 <= self.keys@.len() <= 3
        &&& self.keys@.last().expires is None
        &&& forall|i: int|
            #![trigger self.keys@[i]]
            0 <= i < self.keys@.len() ==> self.keys@[i].generation == self.keys@[0].generation + i
        &&& forall|i: int|
            #![trigger self.keys@[i]]
            0 <= i < self.keys@.len() ==> (self.keys@[i].received matches Some((low, high)) ==> low <= high)
        &&& forall|i: int|
            #![trigger self.keys@[i]]
            0 <= i < self.keys@.len() ==> (self.keys@[i].updated is None <==> self.keys@[i].generation == 0)
    }

    /// All but the generations is that of `other`.
    pub open spec fn same_counts(&self, other: &Self) -> bool {
        &&& self.next_secret == other.next_secret
        &&& self.sealed_count == other.sealed_count
        &&& self.failed_opened == other.failed_opened
        &&& self.can_update == other.can_update
    }

    /// The state after a new generation came.
    pub open spec fn advanced(
        &self,
        after: &Self,
        updated: Arc<rustls::quic::PacketKeySet>,
        next_secret: rustls::quic::Secrets,
    ) -> bool {
        &&& after.keys@ == pushed(self.keys@, updated)
        &&& after.next_secret == next_secret
        &&& after.sealed_count == 0
        &&& after.failed_opened == self.failed_opened
        &&& !after.can_update
    }

    fn push(&mut self, updated: Arc<rustls::quic::PacketKeySet>, next_secret: rustls::quic::Secrets) -> (result: Result<
        (),
        QuicError,
    >)
        requires
            old(self).wf(),
        ensures
            final(self).wf(),
            match result {
                Ok(()) => old(self).keys@.last().generation < u64::MAX && old(self).advanced(
                    final(self),
                    updated,
                    next_secret,
                ),
                Err(error) => old(self).keys@.last().generation == u64::MAX && error.says(
                    ErrorKind::KeyUpdate,
                    "key generation exhausted"@,
                ) && *final(self) == *old(self),
            },
    {
        let last: u64 = self.keys[self.keys.len() - 1].generation;
        if last == u64::MAX {
            return Err(QuicError::new(ErrorKind::KeyUpdate, "key generation exhausted"));
        }
        let ghost before = self.keys@;
        if self.keys.len() == 3 {
            self.keys.remove(0);
            assert(self.keys@ =~= before.drop_first());
        }
        self.keys.push(
            PacketKeys { generation: last + 1, received: None, expires: None, updated: Some(updated) },
        );
        self.next_secret = next_secret;
        self.sealed_count = 0;
        self.can_update = false;
        assert(self.keys@ =~= pushed(before, updated));
        Ok(())
    }

    /// Starts a new generation, if that is permitted.
    pub fn update(&mut self) -> (result: Result<(), QuicError>)
        requires
            old(self).wf(),
        ensures
            final(self).wf(),
            match result {
                Ok(()) => {
                    let (updated, next_secret) = derived(old(self).next_secret);
                    &&& old(self).can_update && old(self).keys@.last().generation < u64::MAX
                    &&& old(self).advanced(final(self), Arc::new(updated), next_secret)
                },
                Err(error) => {
                    &&& *final(self) == *old(self)
                    &&& if old(self).can_update {
                        old(self).keys@.last().generation == u64::MAX && error.says(
                            ErrorKind::KeyUpdate,
                            "key generation exhausted"@,
                        )
                    } else {
                        error.says(ErrorKind::KeyUpdate, "local key update is not permitted"@)
                    }
                },
            },
    {
        if !self.can_update {
            return Err(QuicError::new(ErrorKind::KeyUpdate, "local key update is not permitted"));
        }
        let (updated, next_secret) = derive_next(&self.next_secret);
        self.push(Arc::new(updated), next_secret)
    }

    /// How many packets the current generation may seal.
    pub open spec fn limit(&self, sealing: rustls::quic::DirectionalKeys) -> u64 {
        seal_limit(sealing, self.keys@.last().updated)
    }

    /// Whether the next packet would be the last that the current generation may seal, or more.
    pub open spec fn near_limit(&self, sealing: rustls::quic::DirectionalKeys) -> bool {
        self.sealed_count + 1 >= self.limit(sealing)
    }

    /// Makes sure that one more packet can be sealed, with a new generation where the current one
    /// is nearly used up and an update is permitted.
    pub fn prepare_sealing(&mut self, sealing: &rustls::quic::DirectionalKeys) -> (result: Result<(), QuicError>)
        requires
            old(self).wf(),
        ensures
            final(self).wf(),
            ({
                let renews = old(self).near_limit(*sealing) && old(self).can_update;
                match result {
                    Ok(()) => {
                        &&& final(self).sealed_count < final(self).limit(*sealing)
                        &&& if renews {
                            let (updated, next_secret) = derived(old(self).next_secret);
                            old(self).advanced(final(self), Arc::new(updated), next_secret)
                        } else {
                            *final(self) == *old(self)
                        }
                    },
                    Err(error) => {
                        if renews && old(self).keys@.last().generation == u64::MAX {
                            error.says(ErrorKind::KeyUpdate, "key generation exhausted"@) && *final(self) == *old(
                                self,
                            )
                        } else {
                            &&& error.says(
                                ErrorKind::AeadLimitReached,
                                "packet protection confidentiality limit"@,
                            )
                            &&& final(self).sealed_count >= final(self).limit(*sealing)
                            &&& if renews {
                                let (updated, next_secret) = derived(old(self).next_secret);
                                old(self).advanced(final(self), Arc::new(updated), next_secret)
                            } else {
                                *final(self) == *old(self)
                            }
                        }
                    },
                }
            }),
    {
        let limit: u64 = confidentiality_limit(sealing, &self.keys[self.keys.len() - 1].updated);
        let nearing_limit: bool = limit == 0 || self.sealed_count >= limit - 1;
        if nearing_limit && self.can_update {
            if let Err(error) = self.update() {
                return Err(error);
            }
        }
        let limit: u64 = confidentiality_limit(sealing, &self.keys[self.keys.len() - 1].updated);
        if self.sealed_count >= limit {
            return Err(QuicError::new(ErrorKind::AeadLimitReached, "packet protection confidentiality limit"));
        }
        Ok(())
    }

    fn drop_expired(&mut self, now: u64)
        requires
            old(self).wf(),
        ensures
            final(self).wf(),
            final(self).keys@ == unexpired(old(self).keys@, now),
            final(self).same_counts(old(self)),
            final(self).keys@.last() == old(self).keys@.last(),
    {
        while self.keys.len() > 1 && self.keys[0].has_expired(now)
            invariant
                self.wf(),
                unexpired(self.keys@, now) == unexpired(old(self).keys@, now),
                self.same_counts(old(self)),
                self.keys@.last() == old(self).keys@.last(),
            decreases self.keys@.len(),
        {
            let ghost before = self.keys@;
            self.keys.remove(0);
            assert(self.keys@ =~= before.drop_first());
        }
    }

    /// Which generation `pn` belongs to.
    fn locate(&self, pn: u64, phase: bool) -> (found: Option<usize>)
        requires
            self.wf(),
        ensures
            match found {
                Some(index) => located(self.keys@, pn, phase) == Some(index as int) && index <= self.keys@.len(),
                None => located(self.keys@, pn, phase) is None,
            },
    {
        let mut index: usize = self.keys.len() - 1;
        assert(self.keys@.take(index + 1) =~= self.keys@);
        while index > 0 && !self.keys[index].reaches(pn)
            invariant
                self.wf(),
                index < self.keys@.len(),
                latest_reached(self.keys@, pn) == latest_reached(self.keys@.take(index + 1), pn),
            decreases index,
        {
            assert(self.keys@.take(index + 1).drop_last() =~= self.keys@.take(index as int));
            index = index - 1;
        }
        assert(latest_reached(self.keys@, pn) == index);
        if phase != (self.keys[index].generation % 2 == 1) {
            if let Some((_, high)) = self.keys[index].received {
                if pn <= high {
                    return None;
                }
            }
            Some(index + 1)
        } else {
            Some(index)
        }
    }

    /// Notes that `pn` was authenticated in the generation at `index`.
    fn note_authenticated(&mut self, index: usize, pn: u64, until: u64)
        requires
            old(self).wf(),
            index < old(self).keys@.len(),
        ensures
            final(self).wf(),
            final(self).keys@ == authenticated(old(self).keys@, index as int, pn, until),
            final(self).same_counts(old(self)),
    {
        let ghost before = self.keys@;
        let mut at: usize = 0;
        while at < index
            invariant
                index < before.len(),
                at <= index,
                self.keys@.len() == before.len(),
                self.same_counts(old(self)),
                forall|i: int|
                    #![trigger self.keys@[i]]
                    0 <= i < before.len() ==> self.keys@[i] == if i < at {
                        authenticated(before, index as int, pn, until)[i]
                    } else {
                        before[i]
                    },
            decreases index - at,
        {
            let expires: Option<u64> = self.keys[at].expires;
            if expires.is_none() {
                self.keys[at].expires = Some(until);
            }
            at = at + 1;
        }
        let received: (u64, u64) = match self.keys[index].received {
            Some((low, high)) => (
                if pn < low {
                    pn
                } else {
                    low
                },
                if pn > high {
                    pn
                } else {
                    high
                },
            ),
            None => (pn, pn),
        };
        self.keys[index].received = Some(received);
        assert(self.keys@ =~= authenticated(before, index as int, pn, until));
    }

    /// Takes account of what opening a packet gave. `index` is the generation that the packet
    /// belongs to, which may be the one to come; in that case `candidate` holds its keys. A
    /// generation to come is taken up only when one of its packets is authentic.
    pub fn settle(
        &mut self,
        opening: &rustls::quic::DirectionalKeys,
        pn: u64,
        index: usize,
        candidate: Option<(Arc<rustls::quic::PacketKeySet>, rustls::quic::Secrets)>,
        authentic: bool,
        until: u64,
    ) -> (settlement: Settlement)
        requires
            old(self).wf(),
            index <= old(self).keys@.len(),
            candidate is Some <==> index == old(self).keys@.len(),
            old(self).failed_opened < u64::MAX,
        ensures
            final(self).wf(),
            ({
                let updated = match candidate {
                    Some((keys, _)) => Some(keys),
                    None => old(self).keys@[index as int].updated,
                };
                if !authentic {
                    &&& settlement == if old(self).failed_opened + 1 >= failure_limit(*opening, updated) {
                        Settlement::Exhausted
                    } else {
                        Settlement::Refused
                    }
                    &&& final(self).keys@ == old(self).keys@
                    &&& final(self).failed_opened == old(self).failed_opened + 1
                    &&& final(self).next_secret == old(self).next_secret
                    &&& final(self).sealed_count == old(self).sealed_count
                    &&& final(self).can_update == old(self).can_update
                } else {
                    match candidate {
                        None => {
                            &&& settlement == Settlement::Authentic
                            &&& final(self).keys@ == authenticated(old(self).keys@, index as int, pn, until)
                            &&& final(self).same_counts(old(self))
                        },
                        Some((keys, next_secret)) => {
                            if old(self).keys@.last().generation == u64::MAX {
                                settlement == Settlement::Uncounted && *final(self) == *old(self)
                            } else {
                                let grown = pushed(old(self).keys@, keys);
                                &&& settlement == Settlement::Authentic
                                &&& final(self).keys@ == authenticated(grown, grown.len() - 1, pn, until)
                                &&& final(self).next_secret == next_secret
                                &&& final(self).sealed_count == 0
                                &&& final(self).failed_opened == old(self).failed_opened
                                &&& !final(self).can_update
                            }
                        },
                    }
                }
            }),
    {
        if !authentic {
            self.failed_opened = self.failed_opened + 1;
            let limit: u64 = match candidate {
                Some((keys, _)) => integrity_limit(opening, &Some(keys)),
                None => integrity_limit(opening, &self.keys[index].updated),
            };
            return if self.failed_opened >= limit {
                Settlement::Exhausted
            } else {
                Settlement::Refused
            };
        }
        match candidate {
            Some((keys, next_secret)) => {
                if let Err(_) = self.push(keys, next_secret) {
                    return Settlement::Uncounted;
                }
                let last: usize = self.keys.len() - 1;
                self.note_authenticated(last, pn, until);
            },
            None => {
                self.note_authenticated(index, pn, until);
            },
        }
        Settlement::Authentic
    }

    /// What opening a packet of one-RTT protection comes to.
    pub open spec fn decrypted(
        &self,
        after: &Self,
        opening: rustls::quic::DirectionalKeys,
        pn: u64,
        phase: bool,
        header: Seq<u8>,
        body: Seq<u8>,
        now: u64,
        until: u64,
        result: Result<Option<Seq<u8>>, QuicError>,
    ) -> bool {
        let live = unexpired(self.keys@, now);
        match located(live, pn, phase) {
            None => {
                &&& result == Ok::<Option<Seq<u8>>, QuicError>(None)
                &&& after.keys@ == live
                &&& after.same_counts(self)
            },
            Some(index) => {
                let (next_keys, next_secret) = derived(self.next_secret);
                let tentative = index == live.len();
                let updated = if tentative { Some(Arc::new(next_keys)) } else { live[index].updated };
                match opened(opening, updated, pn, header, body) {
                    None => {
                        &&& after.keys@ == live
                        &&& after.failed_opened == self.failed_opened + 1
                        &&& after.next_secret == self.next_secret
                        &&& after.sealed_count == self.sealed_count
                        &&& after.can_update == self.can_update
                        &&& if after.failed_opened >= failure_limit(opening, updated) {
                            result matches Err(error) && error.says(
                                ErrorKind::AeadLimitReached,
                                "packet protection integrity limit"@,
                            )
                        } else {
                            result == Ok::<Option<Seq<u8>>, QuicError>(None)
                        }
                    },
                    Some(plain) => {
                        if !tentative {
                            &&& result == Ok::<Option<Seq<u8>>, QuicError>(Some(plain))
                            &&& after.keys@ == authenticated(live, index, pn, until)
                            &&& after.same_counts(self)
                        } else if live.last().generation == u64::MAX {
                            &&& result matches Err(error) && error.says(
                                ErrorKind::KeyUpdate,
                                "key generation exhausted"@,
                            )
                            &&& after.keys@ == live
                            &&& after.same_counts(self)
                        } else {
                            let grown = pushed(live, Arc::new(next_keys));
                            &&& result == Ok::<Option<Seq<u8>>, QuicError>(Some(plain))
                            &&& after.keys@ == authenticated(grown, grown.len() - 1, pn, until)
                            &&& after.next_secret == next_secret
                            &&& after.sealed_count == 0
                            &&& after.failed_opened == self.failed_opened
                            &&& !after.can_update
                        }
                    },
                }
            },
        }
    }

    /// Opens the packet `pn` of the given key phase in place. Returns the length of its payload,
    /// or nothing for a packet that is not authentic. Older generations can still open packets
    /// for three probe timeouts after a newer one was heard of.
    pub fn decrypt(
        &mut self,
        opening: &rustls::quic::DirectionalKeys,
        pn: u64,
        phase: bool,
        header: &[u8],
        body: &mut Vec<u8>,
        now: u64,
        pto: u64,
    ) -> (result: Result<Option<usize>, QuicError>)
        requires
            old(self).wf(),
            old(self).failed_opened < u64::MAX,
            now + 3 * pto <= u64::MAX,
        ensures
            final(self).wf(),
            final(body)@.len() == old(body)@.len(),
            result matches Ok(Some(length)) ==> length <= final(body)@.len(),
            old(self).decrypted(
                final(self),
                *opening,
                pn,
                phase,
                header@,
                old(body)@,
                now,
                retained_until(now, pto),
                payload_of(result, final(body)@),
            ),
    {
        let until: u64 = now + 3 * pto;
        self.drop_expired(now);
        let index: usize = match self.locate(pn, phase) {
            Some(index) => index,
            None => return Ok(None),
        };
        let candidate: Option<(Arc<rustls::quic::PacketKeySet>, rustls::quic::Secrets)> = if index
            == self.keys.len() {
            let (keys, next_secret) = derive_next(&self.next_secret);
            Some((Arc::new(keys), next_secret))
        } else {
            None
        };
        let updated: Option<Arc<rustls::quic::PacketKeySet>> = match &candidate {
            Some((keys, _)) => Some(share(keys)),
            None => share_updated(&self.keys[index].updated),
        };
        let plain: Option<usize> = open_in_place(opening, &updated, pn, header, body);
        match self.settle(opening, pn, index, candidate, plain.is_some(), until) {
            Settlement::Refused => Ok(None),
            Settlement::Exhausted => Err(
                QuicError::new(ErrorKind::AeadLimitReached, "packet protection integrity limit"),
            ),
            Settlement::Uncounted => Err(QuicError::new(ErrorKind::KeyUpdate, "key generation exhausted")),
            Settlement::Authentic => Ok(plain),
        }
    }
}

/// A sending generation, fixed together with the packet number it was reserved for.
pub struct OneRttSealingKey {
    pub sealing: Arc<rustls::quic::DirectionalKeys>,
    pub updated: Option<Arc<rustls::quic::PacketKeySet>>,
    pub generation: u64,
}

/// One-RTT keys: header protection, and the generations of packet protection.
pub struct OneRttKeys {
    pub headers: HeaderKeys,
    pub packets: OneRttPacketKeys,
}

impl OneRttKeys {
    pub open spec fn wf(&self) -> bool {
        self.packets.wf()
    }

    /// Whether `key` is the current sending generation.
    pub open spec fn is_current(&self, key: OneRttSealingKey) -> bool {
        &&& key.sealing == self.headers.sealing
        &&& key.updated == self.packets.keys@.last().updated
        &&& key.generation == self.packets.keys@.last().generation
    }

    /// The state of the packet keys once one more packet can be sealed.
    pub open spec fn prepared(&self, after: &OneRttPacketKeys) -> bool {
        if self.packets.near_limit(*self.headers.sealing) && self.packets.can_update {
            let (updated, next_secret) = derived(self.packets.next_secret);
            self.packets.advanced(after, Arc::new(updated), next_secret)
        } else {
            *after == self.packets
        }
    }

    /// Whether `key` was reserved for one packet.
    pub open spec fn reserves(&self, after: &Self, key: OneRttSealingKey) -> bool {
        &&& after.is_current(key)
        &&& after.headers == self.headers
        &&& exists|prepared: OneRttPacketKeys|
            {
                &&& #[trigger] self.prepared(&prepared)
                &&& prepared.sealed_count < prepared.limit(*self.headers.sealing)
                &&& after.packets.keys@ == prepared.keys@
                &&& after.packets.next_secret == prepared.next_secret
                &&& after.packets.failed_opened == prepared.failed_opened
                &&& after.packets.can_update == prepared.can_update
                &&& after.packets.sealed_count == prepared.sealed_count + 1
            }
    }

    /// Whether a packet could be sealed, but nothing was reserved.
    pub open spec fn ready(&self, after: &Self) -> bool {
        &&& self.prepared(&after.packets)
        &&& after.packets.sealed_count < after.packets.limit(*self.headers.sealing)
        &&& after.headers == self.headers
    }

    /// Keys as the handshake gives them.
    pub fn new(
        opening: rustls::quic::DirectionalKeys,
        sealing: rustls::quic::DirectionalKeys,
        next_secret: rustls::quic::Secrets,
    ) -> (keys: OneRttKeys)
        ensures
            keys.wf(),
            keys.headers.opening == Arc::new(opening),
            keys.headers.sealing == Arc::new(sealing),
            keys.packets.keys@ == seq![
                PacketKeys { generation: 0, received: None, expires: None, updated: None },
            ],
            keys.packets.next_secret == next_secret,
            keys.packets.sealed_count == 0,
            keys.packets.failed_opened == 0,
            !keys.packets.can_update,
    {
        let mut keys: Vec<PacketKeys> = Vec::with_capacity(3);
        keys.push(PacketKeys { generation: 0, received: None, expires: None, updated: None });
        assert(keys@ =~= seq![PacketKeys { generation: 0, received: None, expires: None, updated: None }]);
        OneRttKeys {
            headers: HeaderKeys { opening: Arc::new(opening), sealing: Arc::new(sealing) },
            packets: OneRttPacketKeys { keys, next_secret, sealed_count: 0, failed_opened: 0, can_update: false },
        }
    }

    /// Permits the first local update, once the handshake is confirmed. Later ones are permitted
    /// by acknowledgements for the current generation.
    pub fn allow_update(&mut self)
        requires
            old(self).wf(),
        ensures
            final(self).wf(),
            final(self).packets.can_update,
            final(self).packets.keys@ == old(self).packets.keys@,
            final(self).packets.next_secret == old(self).packets.next_secret,
            final(self).packets.sealed_count == old(self).packets.sealed_count,
            final(self).packets.failed_opened == old(self).packets.failed_opened,
            final(self).headers == old(self).headers,
    {
        self.packets.can_update = true;
    }

    /// Uses up the permission and at once seals with a new generation.
    pub fn update(&mut self) -> (result: Result<(), QuicError>)
        requires
            old(self).wf(),
        ensures
            final(self).wf(),
            final(self).headers == old(self).headers,
            match result {
                Ok(()) => {
                    let (updated, next_secret) = derived(old(self).packets.next_secret);
                    &&& old(self).packets.can_update && old(self).packets.keys@.last().generation < u64::MAX
                    &&& old(self).packets.advanced(&final(self).packets, Arc::new(updated), next_secret)
                },
                Err(error) => {
                    &&& final(self).packets == old(self).packets
                    &&& if old(self).packets.can_update {
                        old(self).packets.keys@.last().generation == u64::MAX && error.says(
                            ErrorKind::KeyUpdate,
                            "key generation exhausted"@,
                        )
                    } else {
                        error.says(ErrorKind::KeyUpdate, "local key update is not permitted"@)
                    }
                },
            },
    {
        self.packets.update()
    }

    /// Notes that a packet of `generation` was acknowledged: one of the current generation, other
    /// than the first, permits the next update.
    pub fn on_ack(&mut self, generation: u64)
        requires
            old(self).wf(),
        ensures
            final(self).wf(),
            final(self).headers == old(self).headers,
            final(self).packets.keys@ == old(self).packets.keys@,
            final(self).packets.next_secret == old(self).packets.next_secret,
            final(self).packets.sealed_count == old(self).packets.sealed_count,
            final(self).packets.failed_opened == old(self).packets.failed_opened,
            final(self).packets.can_update <==> old(self).packets.can_update || (generation != 0 && generation
                == old(self).packets.keys@.last().generation),
    {
        if generation != 0 && self.packets.keys[self.packets.keys.len() - 1].generation == generation {
            self.packets.can_update = true;
        }
    }

    /// How long the tag of the next packet is.
    pub fn tag_len(&self) -> (length: usize)
        requires
            self.wf(),
        ensures
            length == tag_size(*self.headers.sealing, self.packets.keys@.last().updated),
    {
        tag_len(&self.headers.sealing, &self.packets.keys[self.packets.keys.len() - 1].updated)
    }

    fn current_key(&self) -> (key: OneRttSealingKey)
        requires
            self.wf(),
        ensures
            self.is_current(key),
    {
        let last: usize = self.packets.keys.len() - 1;
        OneRttSealingKey {
            sealing: share(&self.headers.sealing),
            updated: share_updated(&self.packets.keys[last].updated),
            generation: self.packets.keys[last].generation,
        }
    }

    /// Reserves one use of the current generation.
    pub fn reserve_use(&mut self) -> (result: Result<OneRttSealingKey, QuicError>)
        requires
            old(self).wf(),
        ensures
            final(self).wf(),
            final(self).headers == old(self).headers,
            match result {
                Ok(key) => {
                    &&& old(self).reserves(final(self), key)
                },
                Err(error) => old(self).unprepared(&final(self).packets, error),
            },
    {
        if let Err(error) = self.packets.prepare_sealing(&self.headers.sealing) {
            return Err(error);
        }
        let ghost prepared = self.packets;
        assert(old(self).prepared(&prepared));
        let key: OneRttSealingKey = self.current_key();
        self.packets.sealed_count = self.packets.sealed_count + 1;
        Ok(key)
    }

    /// Why no further packet can be sealed, and what that leaves.
    pub open spec fn unprepared(&self, after: &OneRttPacketKeys, error: QuicError) -> bool {
        let renews = self.packets.near_limit(*self.headers.sealing) && self.packets.can_update;
        if renews && self.packets.keys@.last().generation == u64::MAX {
            error.says(ErrorKind::KeyUpdate, "key generation exhausted"@) && *after == self.packets
        } else {
            &&& error.says(ErrorKind::AeadLimitReached, "packet protection confidentiality limit"@)
            &&& after.sealed_count >= after.limit(*self.headers.sealing)
            &&& self.prepared(after)
        }
    }

    /// Records a pending packet while the generation is fixed, then reserves one use of it. A
    /// packet that could not be recorded uses up nothing. The key stays good across later
    /// updates.
    pub fn reserve<T: Copy>(&mut self, journal: &mut ArcSendJournal<T>, frames: &mut Vec<T>) -> (result: Result<
        ((u64, PacketNumber), OneRttSealingKey),
        PacketError,
    >)
        requires
            old(self).wf(),
            old(journal).wf(),
            old(journal).next_frame() + old(frames)@.len() <= u64::MAX,
            2 * (old(journal).next_pn - old(journal).largest_acked) < 0x1_0000_0000,
        ensures
            final(self).wf(),
            final(journal).wf(),
            final(self).headers == old(self).headers,
            match result {
                Ok(((pn, encoded), key)) => {
                    &&& old(self).reserves(final(self), key)
                    &&& !old(journal).is_full(old(frames)@.len()) && old(journal).next_pn <= VARINT_MAX
                    &&& pn == old(journal).next_pn
                    &&& encoded == PacketNumber::encoded(pn, old(journal).largest_acked)
                    &&& final(journal).records() == old(journal).records().push(
                        (SentRecord {
                            pn,
                            generation: Some(key.generation),
                            frames: old(frames)@,
                            state: SentPacketState::Pending,
                        }),
                    )
                    &&& final(journal).next_pn == pn + 1
                    &&& final(journal).largest_acked == old(journal).largest_acked
                    &&& final(journal).skipped_pns@ == old(journal).skipped_pns@
                    &&& final(journal).slots@.len() == old(journal).slots@.len() + old(frames)@.len()
                    &&& final(journal).next_frame() == old(journal).next_frame() + old(frames)@.len()
                    &&& final(frames)@ == Seq::<T>::empty()
                },
                Err(error) => {
                    &&& *final(journal) == *old(journal)
                    &&& final(frames)@ == old(frames)@
                    &&& match error {
                        PacketError::Connection(error) => {
                            ||| old(self).unprepared(&final(self).packets, error)
                            ||| old(self).ready(final(self)) && old(journal).next_pn > VARINT_MAX && error.says(
                                ErrorKind::AeadLimitReached,
                                "packet numbers exhausted"@,
                            ) && !old(journal).is_full(old(frames)@.len())
                        },
                        PacketError::Blocked(signals) => old(self).ready(final(self)) && signals
                            == Signals::only_transport() && old(journal).is_full(old(frames)@.len()),
                        _ => false,
                    }
                },
            },
    {
        if let Err(error) = self.packets.prepare_sealing(&self.headers.sealing) {
            return Err(PacketError::Connection(error));
        }
        let ghost prepared = self.packets;
        assert(old(self).prepared(&prepared));
        let key: OneRttSealingKey = self.current_key();
        match journal.record_pending(Some(key.generation), frames) {
            Ok(allocated) => {
                self.packets.sealed_count = self.packets.sealed_count + 1;
                Ok((allocated, key))
            },
            Err(error) => Err(error),
        }
    }
}

/// The one-RTT keys of a connection, for all who wait for them or use them.
pub struct ArcOneRttKeys {
    pub inner: ArcKeys<OneRttKeys>,
}

impl ArcOneRttKeys {
    pub fn new_pending() -> (keys: Self)
        ensures
            keys.inner.state == KeyState::<OneRttKeys>::Pending,
    {
        ArcOneRttKeys { inner: ArcKeys::new_pending() }
    }

    pub fn try_get(&self) -> (result: Result<Option<&OneRttKeys>, KeyRetired>)
        ensures
            match self.inner.state {
                KeyState::Ready(keys) => result matches Ok(Some(found)) && *found == keys,
                KeyState::Retired => result == Err::<Option<&OneRttKeys>, KeyRetired>(KeyRetired),
                _ => result == Ok::<Option<&OneRttKeys>, KeyRetired>(None),
            },
    {
        self.inner.try_get()
    }

    /// Installs what the handshake gave, once, and returns whom to wake.
    pub fn install(
        &mut self,
        opening: rustls::quic::DirectionalKeys,
        sealing: rustls::quic::DirectionalKeys,
        next_secret: rustls::quic::Secrets,
    ) -> (result: Result<Option<u64>, QuicError>)
        ensures
            match result {
                Ok(woken) => {
                    &&& old(self).inner.state.is_awaited()
                    &&& woken == old(self).inner.state.waiter()
                    &&& final(self).inner.state matches KeyState::Ready(keys) && keys.wf()
                        && keys.headers.opening == Arc::new(opening) && keys.headers.sealing == Arc::new(sealing)
                        && keys.packets.next_secret == next_secret && keys.packets.keys@ == seq![
                        PacketKeys { generation: 0, received: None, expires: None, updated: None },
                    ] && keys.packets.sealed_count == 0 && keys.packets.failed_opened == 0
                        && !keys.packets.can_update
                },
                Err(error) => {
                    &&& !old(self).inner.state.is_awaited()
                    &&& error.says(ErrorKind::Internal, "keys already installed or retired"@)
                    &&& *final(self) == *old(self)
                },
            },
    {
        self.inner.install(OneRttKeys::new(opening, sealing, next_secret))
    }

    pub fn retire(&mut self) -> (woken: Option<u64>)
        ensures
            woken == old(self).inner.state.waiter(),
            final(self).inner.state == KeyState::<OneRttKeys>::Retired,
    {
        self.inner.retire()
    }
}

/// No more than three generations are ever kept, the newest never expires on its own, and the
/// newest is the only one used for sealing.
pub proof fn generations_are_bounded(keys: &OneRttPacketKeys, updated: Arc<rustls::quic::PacketKeySet>)
    requires
        keys.wf(),
        keys.keys@.last().generation < u64::MAX,
    ensures
        pushed(keys.keys@, updated).len() <= 3,
        pushed(keys.keys@, updated).last().generation == keys.keys@.last().generation + 1,
        pushed(keys.keys@, updated).last().expires is None,
{
}

/// No generation seals more packets than its keys may: a use is counted and stays within the limit, and
/// a new generation, taken where the old one is nearly used up and an update is permitted, begins to
/// count anew.
pub proof fn no_key_seals_beyond_its_limit(before: &OneRttKeys, after: &OneRttKeys, key: OneRttSealingKey)
    requires
        before.wf(),
        before.packets.keys@.last().generation < u64::MAX,
        before.reserves(after, key),
    ensures
        after.packets.sealed_count <= after.packets.limit(*after.headers.sealing),
        if before.packets.near_limit(*before.headers.sealing) && before.packets.can_update {
            key.generation == before.packets.keys@.last().generation + 1 && after.packets.sealed_count == 1
        } else {
            key.generation == before.packets.keys@.last().generation && after.packets.sealed_count
                == before.packets.sealed_count + 1
        },
{
    let prepared = choose|prepared: OneRttPacketKeys|
        {
            &&& #[trigger] before.prepared(&prepared)
            &&& prepared.sealed_count < prepared.limit(*before.headers.sealing)
            &&& after.packets.keys@ == prepared.keys@
            &&& after.packets.next_secret == prepared.next_secret
            &&& after.packets.failed_opened == prepared.failed_opened
            &&& after.packets.can_update == prepared.can_update
            &&& after.packets.sealed_count == prepared.sealed_count + 1
        };
    assert(after.packets.limit(*after.headers.sealing) == prepared.limit(*before.headers.sealing));
}

/// A forged packet advances nothing: the generations that can open packets, the next secret and
/// the right to update stay what they were, and only the count of failures grows.
pub proof fn forgery_advances_nothing(
    before: &OneRttPacketKeys,
    after: &OneRttPacketKeys,
    opening: rustls::quic::DirectionalKeys,
    pn: u64,
    phase: bool,
    header: Seq<u8>,
    body: Seq<u8>,
    now: u64,
    until: u64,
    result: Result<Option<Seq<u8>>, QuicError>,
)
    requires
        before.wf(),
        before.decrypted(after, opening, pn, phase, header, body, now, until, result),
        !(result matches Ok(Some(_))),
    ensures
        after.keys@ == unexpired(before.keys@, now),
        after.next_secret == before.next_secret,
        after.sealed_count == before.sealed_count,
        after.can_update == before.can_update,
        before.failed_opened <= after.failed_opened <= before.failed_opened + 1,
{
}

/// Hearing from the peer never grants the right to update.
pub proof fn opening_grants_no_update(
    before: &OneRttPacketKeys,
    after: &OneRttPacketKeys,
    opening: rustls::quic::DirectionalKeys,
    pn: u64,
    phase: bool,
    header: Seq<u8>,
    body: Seq<u8>,
    now: u64,
    until: u64,
    result: Result<Option<Seq<u8>>, QuicError>,
)
    requires
        before.wf(),
        before.decrypted(after, opening, pn, phase, header, body, now, until, result),
    ensures
        after.can_update ==> before.can_update,
{
}

/// Keys are awaited until they are there or gone, and whoever waits for them is known.
pub proof fn awaited_keys_know_their_waiter<K>(state: KeyState<K>, waker: u64)
    ensures
        state.is_awaited() <==> !(state is Ready) && !(state is Retired),
        state.waiter() == Some(waker) <==> state == KeyState::<K>::Waiting(waker),
        state.waiter() is None <==> !(state is Waiting),
{
}

/// Where no key can seal another packet, the limit of the newest keys is reached, or the generations are used
/// up; the connection then fails.
pub proof fn sealing_fails_at_the_limit(keys: &OneRttKeys, after: &OneRttPacketKeys, error: QuicError)
    requires
        keys.wf(),
        keys.unprepared(after, error),
    ensures
        error.kind == ErrorKind::AeadLimitReached || error.kind == ErrorKind::KeyUpdate,
        error.kind == ErrorKind::KeyUpdate ==> keys.packets.keys@.last().generation == u64::MAX && *after == keys.packets,
        error.kind == ErrorKind::AeadLimitReached ==> after.sealed_count >= match after.keys@.last().updated {
            Some(updated) => crate::transport::protection::seal_limit_of_set(*updated),
            None => crate::transport::protection::seal_limit_of_first(*keys.headers.sealing),
        },
{
}

} // verus!

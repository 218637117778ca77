//! Which generation of keys opens a packet, and how generations follow each other.
use std::sync::Arc;

use vstd::prelude::*;

use crate::base::error::{ErrorKind, QuicError};
use crate::transport::keys::{
    latest_reached, located, pushed, retained_until, unexpired, OneRttKeys, OneRttPacketKeys,
    OneRttSealingKey, PacketKeys,
};
use crate::transport::protection::{
    derived, failure_limit_of_first, failure_limit_of_set, opened, opened_by_first, opened_by_set, seal_limit_of_first,
    seal_limit_of_set,
};
use crate::transport::sealing::accepted;

verus! {

proof fn lemma_latest(keys: Seq<PacketKeys>, pn: u64, index: int)
    requires
        0 <= index < keys.len(),
        index == 0 || (keys[index].received matches Some((low, _)) && low <= pn),
        forall|later: int|
            #![trigger keys[later]]
            index < later < keys.len() ==> (keys[later].received matches Some((low, _)) ==> pn < low),
    ensures
        latest_reached(keys, pn) == index,
    decreases keys.len(),
{
    let last = keys.len() - 1;
    assert(keys[last] == keys.last());
    if index < last {
        let rest = keys.drop_last();
        assert(rest[index] == keys[index]);
        assert forall|later: int| #![trigger rest[later]] index < later < rest.len() implies (rest[later].received
            matches Some((low, _)) ==> pn < low) by {
            assert(rest[later] == keys[later]);
        }
        lemma_latest(rest, pn, index);
    }
}

/// A packet belongs to the latest generation that was heard of at or before its number, or else to the oldest,
/// if it bears its key phase. If it bears the other, it belongs to the generation after that one, unless a
/// later packet of that one was authentic: then it belongs to none.
pub proof fn packet_belongs_to_the_generation_around_it(keys: Seq<PacketKeys>, pn: u64, phase: bool, index: int)
    requires
        0 <= index < keys.len(),
        index == 0 || (keys[index].received matches Some((low, _)) && low <= pn),
        forall|later: int|
            #![trigger keys[later]]
            index < later < keys.len() ==> (keys[later].received matches Some((low, _)) ==> pn < low),
    ensures
        phase == (keys[index].generation % 2 == 1) ==> located(keys, pn, phase) == Some(index),
        phase != (keys[index].generation % 2 == 1) ==> located(keys, pn, phase) == match keys[index].received {
            Some((_, high)) if pn <= high => None,
            _ => Some(index + 1),
        },
{
    lemma_latest(keys, pn, index);
}

/// Which generation is found bears the phase of the packet.
pub proof fn found_generation_bears_the_phase(keys: &OneRttPacketKeys, pn: u64, phase: bool)
    requires
        keys.wf(),
    ensures
        located(keys.keys@, pn, phase) matches Some(index) ==> {
            &&& 0 <= index <= keys.keys@.len()
            &&& phase == ((keys.keys@[0].generation + index) % 2 == 1)
        },
{
    let index = latest_reached(keys.keys@, pn);
    lemma_latest_in_range(keys.keys@, pn);
    assert(keys.keys@[index].generation == keys.keys@[0].generation + index);
}

proof fn lemma_latest_in_range(keys: Seq<PacketKeys>, pn: u64)
    requires
        keys.len() > 0,
    ensures
        0 <= latest_reached(keys, pn) < keys.len(),
    decreases keys.len(),
{
    if keys.len() > 1 {
        lemma_latest_in_range(keys.drop_last(), pn);
    }
}

/// Generations whose time is over are gone, up to the first whose time is not. The newest has no end.
pub proof fn only_generations_whose_time_is_over_are_gone(keys: Seq<PacketKeys>, now: u64, count: int)
    requires
        0 <= count < keys.len(),
        keys[count].expires matches Some(until) ==> now < until,
        forall|i: int| #![trigger keys[i]] 0 <= i < count ==> (keys[i].expires matches Some(until) && until <= now),
    ensures
        unexpired(keys, now) == keys.skip(count),
    decreases count,
{
    if count == 0 {
        assert(keys.skip(0) =~= keys);
    } else {
        let rest = keys.drop_first();
        assert(keys[0].expires is Some);
        assert(rest[count - 1] == keys[count]);
        assert forall|i: int| #![trigger rest[i]] 0 <= i < count - 1 implies (rest[i].expires matches Some(until)
            && until <= now) by {
            assert(rest[i] == keys[i + 1]);
        }
        only_generations_whose_time_is_over_are_gone(rest, now, count - 1);
        assert(rest.skip(count - 1) =~= keys.skip(count));
    }
}

proof fn lemma_unexpired(keys: &OneRttPacketKeys, now: u64)
    requires
        keys.wf(),
    ensures
        ({
            let live = unexpired(keys.keys@, now);
            &&& 0 < live.len() <= keys.keys@.len()
            &&& live.last() == keys.keys@.last()
            &&& forall|i: int|
                #![trigger live[i]]
                0 <= i < live.len() ==> live[i] == keys.keys@[keys.keys@.len() - live.len() + i]
        }),
{
    lemma_unexpired_suffix(keys.keys@, now);
}

proof fn lemma_unexpired_suffix(keys: Seq<PacketKeys>, now: u64)
    requires
        keys.len() > 0,
        keys.last().expires is None,
    ensures
        ({
            let live = unexpired(keys, now);
            &&& 0 < live.len() <= keys.len()
            &&& forall|i: int| #![trigger live[i]] 0 <= i < live.len() ==> live[i] == keys[keys.len() - live.len() + i]
        }),
    decreases keys.len(),
{
    if keys[0].expires matches Some(until) && until <= now {
        let rest = keys.drop_first();
        assert(rest.last() == keys.last());
        lemma_unexpired_suffix(rest, now);
        let live = unexpired(rest, now);
        assert forall|i: int| #![trigger live[i]] 0 <= i < live.len() implies live[i] == keys[keys.len() - live.len()
            + i] by {
            assert(live[i] == rest[rest.len() - live.len() + i]);
        }
    }
}

/// A packet that is opened was opened with the keys of one generation, whose phase it bears. From then on that
/// generation is known to reach its number, and every older one comes to an end, three probe timeouts later
/// where it had none. A generation that was not there before is the next after the newest: its keys and the
/// secret for the one after it come of the secret that was kept; sealing counts anew and no update is
/// permitted. Otherwise no key changes, and nothing that is counted.
pub proof fn opened_packet_settles_its_generation(
    before: &OneRttPacketKeys,
    after: &OneRttPacketKeys,
    opening: rustls::quic::DirectionalKeys,
    pn: u64,
    phase: bool,
    header: Seq<u8>,
    body: Seq<u8>,
    now: u64,
    until: u64,
    payload: Seq<u8>,
) -> (index: int)
    requires
        before.wf(),
        before.decrypted(after, opening, pn, phase, header, body, now, until, Ok(Some(payload))),
    ensures
        0 <= index < after.keys@.len() <= 3,
        ({
            let used = after.keys@[index];
            &&& phase == (used.generation % 2 == 1)
            &&& payload == match used.updated {
                Some(keys) => opened_by_set(*keys, pn, header, body)->Some_0,
                None => opened_by_first(opening, pn, header, body)->Some_0,
            }
            &&& match used.updated {
                Some(keys) => opened_by_set(*keys, pn, header, body) is Some,
                None => opened_by_first(opening, pn, header, body) is Some,
            }
            &&& used.received matches Some((low, high)) && low <= pn <= high
        }),
        forall|older: int|
            #![trigger after.keys@[older]]
            0 <= older < index ==> after.keys@[older].expires is Some,
        forall|i: int|
            #![trigger after.keys@[i]]
            0 <= i < after.keys@.len() ==> exists|j: int|
                #![trigger before.keys@[j]]
                0 <= j < before.keys@.len() && after.keys@[i].generation == before.keys@[j].generation
                    && after.keys@[i].updated == before.keys@[j].updated && (after.keys@[i].expires
                    == before.keys@[j].expires || (before.keys@[j].expires is None && after.keys@[i].expires == Some(
                    until,
                ) && i < index)) || i == index && index == after.keys@.len() - 1,
        after.keys@.last().expires is None,
        after.keys@.last().generation == before.keys@.last().generation || after.keys@.last().generation
            == before.keys@.last().generation + 1,
        after.keys@.last().generation == before.keys@.last().generation ==> after.next_secret == before.next_secret
            && after.sealed_count == before.sealed_count && after.can_update == before.can_update
            && after.keys@.last().updated == before.keys@.last().updated,
        after.keys@.last().generation != before.keys@.last().generation ==> index == after.keys@.len() - 1
            && after.next_secret == derived(before.next_secret).1 && after.keys@.last().updated == Some(
            Arc::new(derived(before.next_secret).0),
        ) && after.sealed_count == 0 && !after.can_update,
        after.failed_opened == before.failed_opened,
{
    let live = unexpired(before.keys@, now);
    lemma_unexpired(before, now);
    let found = located(live, pn, phase)->Some_0;
    let latest = latest_reached(live, pn);
    lemma_latest_in_range(live, pn);
    assert(live[latest].generation == live[0].generation + latest) by {
        let skipped = before.keys@.len() - live.len();
        assert(before.keys@[skipped + latest].generation == before.keys@[0].generation + skipped + latest);
        assert(before.keys@[skipped].generation == before.keys@[0].generation + skipped);
    }
    let (next_keys, next_secret) = derived(before.next_secret);
    let grown = pushed(live, Arc::new(next_keys));
    if found < live.len() {
        let skipped = before.keys@.len() - live.len();
        assert(before.keys@[skipped + found].generation == before.keys@[0].generation + skipped + found);
        assert(before.keys@[skipped + latest].generation == before.keys@[0].generation + skipped + latest);
        assert(live[found].generation == live[latest].generation + found - latest);
        assert forall|i: int| #![trigger after.keys@[i]] 0 <= i < after.keys@.len() implies exists|j: int|
            #![trigger before.keys@[j]]
            0 <= j < before.keys@.len() && after.keys@[i].generation == before.keys@[j].generation
                && after.keys@[i].updated == before.keys@[j].updated && (after.keys@[i].expires == before.keys@[j].expires
                || (before.keys@[j].expires is None && after.keys@[i].expires == Some(until) && i < found)) || i == found
                && found == after.keys@.len() - 1 by {
            assert(live[i] == before.keys@[skipped + i]);
        }
        found
    } else {
        let last = grown.len() - 1;
        let skipped = before.keys@.len() - live.len();
        let dropped: int = if live.len() == 3 {
            1
        } else {
            0
        };
        assert(after.keys@.len() == grown.len());
        assert(live[live.len() - 1] == before.keys@[before.keys@.len() - 1]);
        assert(latest == live.len() - 1);
        assert(after.keys@[last].generation == before.keys@.last().generation + 1);
        assert forall|i: int| #![trigger after.keys@[i]] 0 <= i < after.keys@.len() implies exists|j: int|
            #![trigger before.keys@[j]]
            0 <= j < before.keys@.len() && after.keys@[i].generation == before.keys@[j].generation
                && after.keys@[i].updated == before.keys@[j].updated && (after.keys@[i].expires == before.keys@[j].expires
                || (before.keys@[j].expires is None && after.keys@[i].expires == Some(until) && i < last)) || i == last
                && last == after.keys@.len() - 1 by {
            if i < last {
                assert(grown[i] == live[i + dropped]);
                assert(live[i + dropped] == before.keys@[skipped + dropped + i]);
            }
        }
        last
    }
}

/// A packet that cannot be opened is dropped, and it is counted where a generation was found for it. Once as
/// many failed as the keys permit, the connection fails.
pub proof fn failures_are_counted_up_to_the_limit(
    before: &OneRttPacketKeys,
    after: &OneRttPacketKeys,
    opening: rustls::quic::DirectionalKeys,
    pn: u64,
    phase: bool,
    header: Seq<u8>,
    body: Seq<u8>,
    now: u64,
    until: u64,
    result: Result<Option<Seq<u8>>, QuicError>,
)
    requires
        before.wf(),
        before.decrypted(after, opening, pn, phase, header, body, now, until, result),
        before.keys@.last().generation < u64::MAX,
    ensures
        result matches Ok(Some(_)) ==> after.failed_opened == before.failed_opened,
        result is Err ==> after.failed_opened == before.failed_opened + 1 && result->Err_0.says(
            ErrorKind::AeadLimitReached,
            "packet protection integrity limit"@,
        ),
        after.failed_opened != before.failed_opened ==> exists|updated: Option<Arc<rustls::quic::PacketKeySet>>|
            #[trigger] opened(opening, updated, pn, header, body) is None && (result is Err <==> after.failed_opened
                >= match updated {
                Some(keys) => failure_limit_of_set(*keys),
                None => failure_limit_of_first(opening),
            }),
        after.failed_opened == before.failed_opened && result == Ok::<Option<Seq<u8>>, QuicError>(None)
            ==> located(unexpired(before.keys@, now), pn, phase) is None,
{
    let live = unexpired(before.keys@, now);
    lemma_unexpired(before, now);
    if let Some(index) = located(live, pn, phase) {
        let (next_keys, _) = derived(before.next_secret);
        let updated = if index == live.len() {
            Some(Arc::new(next_keys))
        } else {
            live[index].updated
        };
        assert(opened(opening, updated, pn, header, body) is None || opened(opening, updated, pn, header, body) is Some);
    }
}

/// The newest keys seal, each use is counted, and no more packets are sealed than they permit. A new generation
/// is begun exactly if only one use or none is left and an update is permitted.
pub proof fn newest_keys_seal_within_their_limit(before: &OneRttKeys, after: &OneRttKeys, key: OneRttSealingKey)
    requires
        before.wf(),
        before.packets.keys@.last().generation < u64::MAX,
        before.reserves(after, key),
    ensures
        ({
            let limit = |updated: Option<Arc<rustls::quic::PacketKeySet>>|
                match updated {
                    Some(keys) => seal_limit_of_set(*keys),
                    None => seal_limit_of_first(*before.headers.sealing),
                };
            let newest = before.packets.keys@.last();
            let renews = before.packets.can_update && before.packets.sealed_count + 1 >= limit(newest.updated);
            &&& after.packets.sealed_count <= limit(key.updated)
            &&& key.sealing == before.headers.sealing
            &&& key.generation == after.packets.keys@.last().generation
            &&& key.updated == after.packets.keys@.last().updated
            &&& renews ==> key.generation == newest.generation + 1 && key.updated == Some(
                Arc::new(derived(before.packets.next_secret).0),
            ) && after.packets.next_secret == derived(before.packets.next_secret).1 && after.packets.sealed_count == 1
                && !after.packets.can_update
            &&& !renews ==> key.generation == newest.generation && key.updated == newest.updated
                && after.packets.next_secret == before.packets.next_secret && after.packets.sealed_count
                == before.packets.sealed_count + 1 && after.packets.can_update == before.packets.can_update
            &&& after.packets.failed_opened == before.packets.failed_opened
        }),
{
    let prepared = choose|prepared: OneRttPacketKeys|
        {
            &&& #[trigger] before.prepared(&prepared)
            &&& prepared.sealed_count < prepared.limit(*before.headers.sealing)
            &&& after.packets.keys@ == prepared.keys@
            &&& after.packets.next_secret == prepared.next_secret
            &&& after.packets.failed_opened == prepared.failed_opened
            &&& after.packets.can_update == prepared.can_update
            &&& after.packets.sealed_count == prepared.sealed_count + 1
        };
    assert(after.packets.keys@.last() == prepared.keys@.last());
}

/// An older generation is kept for three probe timeouts.
pub proof fn older_generation_is_kept_for_three_timeouts(now: u64, pto: u64)
    requires
        now + pto + pto + pto <= u64::MAX,
    ensures
        retained_until(now, pto) == now + pto + pto + pto,
{
}

/// An authentic packet is delivered exactly if it has a payload and none of the bits is set that stand next to
/// the packet-number length in a long header, and next to the key phase in a short one.
pub proof fn authentic_packet_is_delivered(
    first: u8,
    long: bool,
    pn: u64,
    payload: Seq<u8>,
    result: Result<Option<(u64, Seq<u8>)>, QuicError>,
)
    requires
        accepted(first, long, pn, payload, result),
    ensures
        result is Ok <==> payload.len() > 0 && if long {
            first / 4 % 4 == 0
        } else {
            first / 8 % 4 == 0
        },
        result is Ok ==> result == Ok::<Option<(u64, Seq<u8>)>, QuicError>(Some((pn, payload))),
{
    assert(first & 0x0c == 0 <==> first / 4 % 4 == 0) by (bit_vector);
    assert(first & 0x18 == 0 <==> first / 8 % 4 == 0) by (bit_vector);
}

/// Keys that are made ready without sealing count no use: they are as they were, or begin a new generation where
/// only one use or none was left and an update is permitted.
pub proof fn ready_keys_count_no_use(before: &OneRttKeys, after: &OneRttKeys)
    requires
        before.wf(),
        before.packets.keys@.last().generation < u64::MAX,
        before.ready(after),
    ensures
        after.headers == before.headers,
        ({
            let newest = before.packets.keys@.last();
            let limit = |updated: Option<Arc<rustls::quic::PacketKeySet>>|
                match updated {
                    Some(keys) => seal_limit_of_set(*keys),
                    None => seal_limit_of_first(*before.headers.sealing),
                };
            let renews = before.packets.can_update && before.packets.sealed_count + 1 >= limit(newest.updated);
            &&& !renews ==> after.packets == before.packets
            &&& renews ==> after.packets.keys@.last().generation == newest.generation + 1 && after.packets.sealed_count
                == 0 && !after.packets.can_update
            &&& after.packets.sealed_count < limit(after.packets.keys@.last().updated)
        }),
{
}

} // verus!

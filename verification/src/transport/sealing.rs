//! Protecting assembled packets and opening received ones.
use std::sync::Arc;

use vstd::prelude::*;
use vstd::slice::{slice_subrange, slice_to_vec};

use crate::base::error::{CryptoError, ErrorKind, PacketError, QuicError};
use crate::base::packet_number::{decoded_number_fits, InvalidPacketNumber, PacketNumber};
use crate::base::varint::VARINT_MAX;
use crate::recovery::rcvd::ArcRcvdJournal;
use crate::transport::keys::{
    located, payload_of, retained_until, unexpired, OneRttKeys, OneRttPacketKeys, OneRttSealingKey,
};
use crate::transport::protection::{
    derived, header_protected, header_unprotected, open_in_place, opened, protect_header, sample_len, sample_size, seal_in_place,
    sealed, unprotect_header,
};

verus! {

/// A packet sealed where it stands: its bytes, or why that failed. The sample for header
/// protection starts four bytes behind the start of the packet number.
pub open spec fn sealed_packet(
    sealing: rustls::quic::DirectionalKeys,
    updated: Option<Arc<rustls::quic::PacketKeySet>>,
    pn: u64,
    buffer: Seq<u8>,
    pn_offset: int,
    body_offset: int,
    tag_len: int,
) -> Result<Seq<u8>, PacketError> {
    let header = buffer.take(body_offset);
    let body = buffer.subrange(body_offset, buffer.len() - tag_len);
    match sealed(sealing, updated, pn, header, body) {
        Some((cipher, tag)) if tag.len() == tag_len => {
            let protected = cipher + tag;
            let start = 4 - (body_offset - pn_offset);
            let end = start + sample_size(sealing);
            if end > protected.len() {
                Err(PacketError::Layout)
            } else {
                match header_protected(
                    sealing,
                    protected.subrange(start, end),
                    header[0],
                    header.subrange(pn_offset, body_offset),
                ) {
                    Some((first, number)) => Ok(header.update(0, first).take(pn_offset) + number + protected),
                    None => Err(PacketError::Crypto(CryptoError::HeaderProtection)),
                }
            }
        },
        _ => Err(PacketError::Crypto(CryptoError::Seal)),
    }
}

/// Protects the packet in `buffer`, whose last `tag_len` bytes are reserved for the tag, and its
/// packet number, which stands between `pn_offset` and `body_offset`. A packet that is too short
/// for a sample does not fit the layout.
fn seal_with(
    sealing: &rustls::quic::DirectionalKeys,
    updated: &Option<Arc<rustls::quic::PacketKeySet>>,
    pn: u64,
    buffer: &Vec<u8>,
    pn_offset: usize,
    body_offset: usize,
    tag_len: usize,
) -> (result: Result<Vec<u8>, PacketError>)
    requires
        0 < pn_offset < body_offset <= pn_offset + 4,
        body_offset + tag_len <= buffer@.len(),
    ensures
        match result {
            Ok(bytes) => sealed_packet(
                *sealing,
                *updated,
                pn,
                buffer@,
                pn_offset as int,
                body_offset as int,
                tag_len as int,
            ) == Ok::<Seq<u8>, PacketError>(bytes@) && bytes@.len() == buffer@.len(),
            Err(error) => sealed_packet(
                *sealing,
                *updated,
                pn,
                buffer@,
                pn_offset as int,
                body_offset as int,
                tag_len as int,
            ) == Err::<Seq<u8>, PacketError>(error),
        },
{
    let header: Vec<u8> = slice_to_vec(slice_subrange(buffer.as_slice(), 0, body_offset));
    let mut body: Vec<u8> = slice_to_vec(slice_subrange(buffer.as_slice(), body_offset, buffer.len() - tag_len));
    assert(header@ =~= buffer@.take(body_offset as int));
    let mut tag: Vec<u8> = match seal_in_place(sealing, updated, pn, header.as_slice(), &mut body) {
        Some(tag) => tag,
        None => return Err(PacketError::Crypto(CryptoError::Seal)),
    };
    if tag.len() != tag_len {
        return Err(PacketError::Crypto(CryptoError::Seal));
    }
    body.append(&mut tag);
    let start: usize = 4 - (body_offset - pn_offset);
    let size: usize = sample_len(sealing);
    if start > body.len() || size > body.len() - start {
        return Err(PacketError::Layout);
    }
    let mut first: u8 = header[0];
    let mut number: Vec<u8> = slice_to_vec(slice_subrange(header.as_slice(), pn_offset, body_offset));
    if !protect_header(sealing, slice_subrange(body.as_slice(), start, start + size), &mut first, &mut number) {
        return Err(PacketError::Crypto(CryptoError::HeaderProtection));
    }
    let mut bytes: Vec<u8> = slice_to_vec(slice_subrange(header.as_slice(), 0, pn_offset));
    bytes.set(0, first);
    assert(bytes@ =~= header@.update(0, first).take(pn_offset as int));
    bytes.append(&mut number);
    bytes.append(&mut body);
    Ok(bytes)
}

/// Protects a packet with keys that have one generation only.
pub fn seal_long(
    sealing: &rustls::quic::DirectionalKeys,
    pn: u64,
    buffer: &Vec<u8>,
    pn_offset: usize,
    body_offset: usize,
    tag_len: usize,
) -> (result: Result<Vec<u8>, PacketError>)
    requires
        0 < pn_offset < body_offset <= pn_offset + 4,
        body_offset + tag_len <= buffer@.len(),
    ensures
        match result {
            Ok(bytes) => sealed_packet(
                *sealing,
                None,
                pn,
                buffer@,
                pn_offset as int,
                body_offset as int,
                tag_len as int,
            ) == Ok::<Seq<u8>, PacketError>(bytes@) && bytes@.len() == buffer@.len(),
            Err(error) => sealed_packet(
                *sealing,
                None,
                pn,
                buffer@,
                pn_offset as int,
                body_offset as int,
                tag_len as int,
            ) == Err::<Seq<u8>, PacketError>(error),
        },
{
    seal_with(sealing, &None, pn, buffer, pn_offset, body_offset, tag_len)
}

/// The first byte of a short header with its key phase bit.
pub open spec fn with_phase(first: u8, phase: bool) -> u8 {
    if phase {
        first | 0x04
    } else {
        first & 0xfb
    }
}

/// The key phase bit of a short header's first byte.
pub open spec fn phase_bit(first: u8) -> bool {
    first & 0x04 != 0
}

/// The phase bit that is put into a first byte can be read from it, and nothing else changes.
pub proof fn phase_bit_round_trips(first: u8, phase: bool)
    ensures
        phase_bit(with_phase(first, phase)) == phase,
        with_phase(first, phase) & 0xfb == first & 0xfb,
{
    assert((first | 0x04) & 0x04 != 0) by (bit_vector);
    assert((first & 0xfb) & 0x04 == 0) by (bit_vector);
    assert((first | 0x04) & 0xfb == first & 0xfb) by (bit_vector);
    assert((first & 0xfb) & 0xfb == first & 0xfb) by (bit_vector);
}

impl OneRttSealingKey {
    /// Protects a packet and returns its bytes, its generation and its key phase.
    pub fn seal(
        &self,
        pn: u64,
        buffer: &Vec<u8>,
        pn_offset: usize,
        body_offset: usize,
        tag_len: usize,
    ) -> (result: Result<(Vec<u8>, u64, bool), PacketError>)
        requires
            0 < pn_offset < body_offset <= pn_offset + 4,
            body_offset + tag_len <= buffer@.len(),
        ensures
            ({
                let phase = self.generation % 2 == 1;
                let outcome = sealed_packet(
                    *self.sealing,
                    self.updated,
                    pn,
                    buffer@.update(0, with_phase(buffer@[0], phase)),
                    pn_offset as int,
                    body_offset as int,
                    tag_len as int,
                );
                match result {
                    Ok((bytes, generation, bit)) => {
                        &&& outcome == Ok::<Seq<u8>, PacketError>(bytes@)
                        &&& bytes@.len() == buffer@.len()
                        &&& generation == self.generation
                        &&& bit == phase
                    },
                    Err(error) => outcome == Err::<Seq<u8>, PacketError>(error),
                }
            }),
    {
        let phase: bool = self.generation % 2 == 1;
        let mut phased: Vec<u8> = slice_to_vec(buffer.as_slice());
        let first: u8 = buffer[0];
        phased.set(
            0,
            if phase {
                first | 0x04
            } else {
                first & 0xfb
            },
        );
        assert(phased@ =~= buffer@.update(0, with_phase(buffer@[0], phase)));
        match seal_with(&self.sealing, &self.updated, pn, &phased, pn_offset, body_offset, tag_len) {
            Ok(bytes) => Ok((bytes, self.generation, phase)),
            Err(error) => Err(error),
        }
    }
}

/// A received packet: its bytes, and where its packet number starts.
#[derive(Debug)]
pub struct DataPacket {
    pub bytes: Vec<u8>,
    pub offset: usize,
    pub long: bool,
}

/// A packet without header protection, and the number that stands in it.
pub struct Revealed {
    pub first: u8,
    pub number: PacketNumber,
    pub header: Seq<u8>,
    pub body: Seq<u8>,
}

/// A packet without header protection, with its packet number restored.
pub struct Unprotected {
    pub first: u8,
    pub pn: u64,
    pub header: Seq<u8>,
    pub body: Seq<u8>,
}

/// How many bytes the packet number takes, by the first byte of a header.
pub open spec fn number_len(first: u8) -> int {
    (first & 3) + 1
}

/// Takes header protection off. Nothing comes of a packet that is too short for a sample.
pub open spec fn revealed(key: rustls::quic::DirectionalKeys, bytes: Seq<u8>, offset: int) -> Option<Revealed> {
    if offset == 0 || offset + 4 + sample_size(key) > bytes.len() {
        None
    } else {
        match header_unprotected(
            key,
            bytes.subrange(offset + 4, offset + 4 + sample_size(key)),
            bytes[0],
            bytes.subrange(offset, offset + 4),
        ) {
            None => None,
            Some((first, number)) => {
                let plain = bytes.update(0, first).take(offset) + number + bytes.skip(offset + 4);
                let end = offset + number_len(first);
                Some(
                    Revealed {
                        first,
                        number: PacketNumber::from_wire(plain.subrange(offset, end)),
                        header: plain.take(end),
                        body: plain.skip(end),
                    },
                )
            },
        }
    }
}

/// Takes header protection off and restores the packet number. Nothing comes of a packet whose
/// number is not acceptable.
pub open spec fn unprotected(
    key: rustls::quic::DirectionalKeys,
    bytes: Seq<u8>,
    offset: int,
    journal: ArcRcvdJournal,
) -> Option<Unprotected> {
    match revealed(key, bytes, offset) {
        None => None,
        Some(plain) => match journal.admitted(plain.number) {
            Ok(pn) if pn <= VARINT_MAX => Some(
                Unprotected { first: plain.first, pn, header: plain.header, body: plain.body },
            ),
            _ => None,
        },
    }
}

/// Whether the first byte has a reserved bit set.
pub open spec fn reserved_bits(first: u8, long: bool) -> bool {
    if long {
        first & 0x0c != 0
    } else {
        first & 0x18 != 0
    }
}

/// What comes of an authentic payload. Reserved bits are an error only once the packet is known
/// to be authentic.
pub open spec fn accepted(
    first: u8,
    long: bool,
    pn: u64,
    payload: Seq<u8>,
    result: Result<Option<(u64, Seq<u8>)>, QuicError>,
) -> bool {
    if reserved_bits(first, long) {
        result matches Err(error) && error.says(ErrorKind::ProtocolViolation, "reserved header bits are set"@)
    } else if payload.len() == 0 {
        result matches Err(error) && error.says(ErrorKind::ProtocolViolation, "empty packet payload"@)
    } else {
        result == Ok::<Option<(u64, Seq<u8>)>, QuicError>(Some((pn, payload)))
    }
}

/// What comes of a packet, given what opening it gave.
pub open spec fn delivered(
    decrypted: Result<Option<Seq<u8>>, QuicError>,
    first: u8,
    long: bool,
    pn: u64,
    result: Result<Option<(u64, Seq<u8>)>, QuicError>,
) -> bool {
    match decrypted {
        Ok(Some(payload)) => accepted(first, long, pn, payload, result),
        Ok(None) => result == Ok::<Option<(u64, Seq<u8>)>, QuicError>(None),
        Err(error) => result == Err::<Option<(u64, Seq<u8>)>, QuicError>(error),
    }
}

/// The packet number and the payload of a result, as plain values.
pub open spec fn opened_view(result: Result<Option<(u64, Vec<u8>)>, QuicError>) -> Result<
    Option<(u64, Seq<u8>)>,
    QuicError,
> {
    match result {
        Ok(Some((pn, payload))) => Ok(Some((pn, payload@))),
        Ok(None) => Ok(None),
        Err(error) => Err(error),
    }
}

/// Takes header protection off: the first byte, the number, and the bytes before and behind its
/// end.
pub(crate) fn take_protection_off(key: &rustls::quic::DirectionalKeys, bytes: &Vec<u8>, offset: usize) -> (result: Option<
    (u8, PacketNumber, Vec<u8>, Vec<u8>),
>)
    ensures
        match result {
            Some((first, number, header, body)) => number.wf() && number.bytes() == number_len(first) && header@.len()
                == offset + number_len(first) && header@.len() + body@.len() == bytes@.len() && revealed(
                *key,
                bytes@,
                offset as int,
            ) == Some(Revealed { first, number, header: header@, body: body@ }),
            None => revealed(*key, bytes@, offset as int) is None,
        },
{
    let size: usize = sample_len(key);
    let len: usize = bytes.len();
    if offset == 0 || len < 4 || offset > len - 4 || size > len - 4 - offset {
        return None;
    }
    let ghost given = bytes@;
    let bytes: &[u8] = bytes.as_slice();
    let mut first: u8 = bytes[0];
    let mut number: Vec<u8> = slice_to_vec(slice_subrange(bytes, offset, offset + 4));
    if !unprotect_header(key, slice_subrange(bytes, offset + 4, offset + 4 + size), &mut first, &mut number) {
        return None;
    }
    let mut plain: Vec<u8> = slice_to_vec(slice_subrange(bytes, 0, offset));
    plain.set(0, first);
    assert(plain@ =~= given.update(0, first).take(offset as int));
    plain.append(&mut number);
    let mut rest: Vec<u8> = slice_to_vec(slice_subrange(bytes, offset + 4, len));
    assert(rest@ =~= given.skip(offset + 4));
    plain.append(&mut rest);
    assert((first & 3) <= 3) by (bit_vector);
    let count: usize = ((first & 3) + 1) as usize;
    let end: usize = offset + count;
    let encoded: PacketNumber = PacketNumber::from_bytes(slice_subrange(plain.as_slice(), offset, end));
    let ghost whole = plain@;
    let body: Vec<u8> = plain.split_off(end);
    assert(plain@ =~= whole.take(end as int));
    assert(body@ =~= whole.skip(end as int));
    Some((first, encoded, plain, body))
}

fn remove_header_protection(
    key: &rustls::quic::DirectionalKeys,
    packet: &DataPacket,
    journal: &ArcRcvdJournal,
) -> (result: Option<(u8, u64, Vec<u8>, Vec<u8>)>)
    requires
        journal.wf(),
    ensures
        match result {
            Some((first, pn, header, body)) => unprotected(*key, packet.bytes@, packet.offset as int, *journal)
                == Some(Unprotected { first, pn, header: header@, body: body@ }),
            None => unprotected(*key, packet.bytes@, packet.offset as int, *journal) is None,
        },
{
    let (first, encoded, header, body) = match take_protection_off(key, &packet.bytes, packet.offset) {
        Some(plain) => plain,
        None => return None,
    };
    match journal.decode_pn(encoded) {
        Ok(pn) => {
            if pn > VARINT_MAX {
                return None;
            }
            Some((first, pn, header, body))
        },
        Err(_) => None,
    }
}

fn accept(first: u8, long: bool, pn: u64, payload: Vec<u8>) -> (result: Result<Option<(u64, Vec<u8>)>, QuicError>)
    ensures
        accepted(first, long, pn, payload@, opened_view(result)),
{
    let reserved: u8 = if long {
        first & 0x0c
    } else {
        first & 0x18
    };
    if reserved != 0 {
        return Err(QuicError::new(ErrorKind::ProtocolViolation, "reserved header bits are set"));
    }
    if payload.len() == 0 {
        return Err(QuicError::new(ErrorKind::ProtocolViolation, "empty packet payload"));
    }
    Ok(Some((pn, payload)))
}

/// What comes of a packet that is opened with keys of one generation.
pub open spec fn opens_long(
    opening: rustls::quic::DirectionalKeys,
    bytes: Seq<u8>,
    offset: int,
    long: bool,
    journal: ArcRcvdJournal,
    result: Result<Option<(u64, Seq<u8>)>, QuicError>,
) -> bool {
    match unprotected(opening, bytes, offset, journal) {
        None => result == Ok::<Option<(u64, Seq<u8>)>, QuicError>(None),
        Some(plain) => match opened(opening, None, plain.pn, plain.header, plain.body) {
            None => result == Ok::<Option<(u64, Seq<u8>)>, QuicError>(None),
            Some(payload) => accepted(plain.first, long, plain.pn, payload, result),
        },
    }
}

/// Opens a packet with keys that have one generation only. A packet whose number is retired or
/// on record is dropped before it is authenticated.
pub fn open_long(
    opening: &rustls::quic::DirectionalKeys,
    packet: &DataPacket,
    journal: &ArcRcvdJournal,
) -> (result: Result<Option<(u64, Vec<u8>)>, QuicError>)
    requires
        journal.wf(),
    ensures
        opens_long(*opening, packet.bytes@, packet.offset as int, packet.long, *journal, opened_view(result)),
{
    let (first, pn, header, body) = match remove_header_protection(opening, packet, journal) {
        Some(plain) => plain,
        None => return Ok(None),
    };
    let mut body: Vec<u8> = body;
    match open_in_place(opening, &None, pn, header.as_slice(), &mut body) {
        Some(length) => {
            body.truncate(length);
            accept(first, packet.long, pn, body)
        },
        None => Ok(None),
    }
}

impl OneRttKeys {
    /// What comes of a one-RTT packet without header protection.
    pub open spec fn opens(
        &self,
        after: &Self,
        plain: Unprotected,
        long: bool,
        now: u64,
        pto: u64,
        result: Result<Option<(u64, Seq<u8>)>, QuicError>,
    ) -> bool {
        exists|decrypted: Result<Option<Seq<u8>>, QuicError>|
            {
                &&& #[trigger] self.packets.decrypted(
                    &after.packets,
                    *self.headers.opening,
                    plain.pn,
                    phase_bit(plain.first),
                    plain.header,
                    plain.body,
                    now,
                    retained_until(now, pto),
                    decrypted,
                )
                &&& delivered(decrypted, plain.first, long, plain.pn, result)
            }
    }

    /// Opens a one-RTT packet received at `now`. A packet whose number is retired or on record is
    /// dropped before it is authenticated.
    pub fn open(
        &mut self,
        packet: &DataPacket,
        journal: &ArcRcvdJournal,
        now: u64,
        pto: u64,
    ) -> (result: Result<Option<(u64, Vec<u8>)>, QuicError>)
        requires
            old(self).wf(),
            journal.wf(),
            old(self).packets.failed_opened < u64::MAX,
            now + 3 * pto <= u64::MAX,
        ensures
            final(self).wf(),
            final(self).headers == old(self).headers,
            match unprotected(*old(self).headers.opening, packet.bytes@, packet.offset as int, *journal) {
                None => result == Ok::<Option<(u64, Vec<u8>)>, QuicError>(None) && *final(self) == *old(self),
                Some(plain) => old(self).opens(final(self), plain, packet.long, now, pto, opened_view(result)),
            },
    {
        let (first, pn, header, body) = match remove_header_protection(&self.headers.opening, packet, journal) {
            Some(plain) => plain,
            None => return Ok(None),
        };
        let mut body: Vec<u8> = body;
        let ghost plain = Unprotected { first, pn, header: header@, body: body@ };
        assert(unprotected(*old(self).headers.opening, packet.bytes@, packet.offset as int, *journal) == Some(plain));
        let phase: bool = first & 0x04 != 0;
        assert(phase == phase_bit(first));
        let outcome: Result<Option<usize>, QuicError> = self.packets.decrypt(
            &self.headers.opening,
            pn,
            phase,
            header.as_slice(),
            &mut body,
            now,
            pto,
        );
        let ghost decrypted = payload_of(outcome, body@);
        assert(old(self).packets.decrypted(
            &self.packets,
            *old(self).headers.opening,
            plain.pn,
            phase_bit(plain.first),
            plain.header,
            plain.body,
            now,
            retained_until(now, pto),
            decrypted,
        ));
        let result: Result<Option<(u64, Vec<u8>)>, QuicError> = match outcome {
            Ok(Some(length)) => {
                body.truncate(length);
                accept(first, packet.long, pn, body)
            },
            Ok(None) => Ok(None),
            Err(error) => Err(error),
        };
        assert(delivered(decrypted, first, packet.long, pn, opened_view(result)));
        assert(old(self).opens(self, plain, packet.long, now, pto, opened_view(result)));
        result
    }

    /// Reserves one use of the current generation and protects a packet with it.
    pub fn seal(
        &mut self,
        pn: u64,
        buffer: &Vec<u8>,
        pn_offset: usize,
        body_offset: usize,
        tag_len: usize,
    ) -> (result: Result<(Vec<u8>, u64, bool), PacketError>)
        requires
            old(self).wf(),
            0 < pn_offset < body_offset <= pn_offset + 4,
            body_offset + tag_len <= buffer@.len(),
        ensures
            final(self).wf(),
            final(self).headers == old(self).headers,
            match result {
                Ok((bytes, generation, phase)) => {
                    let key = final(self).packets.keys@.last();
                    &&& exists|used: OneRttSealingKey| #[trigger] old(self).reserves(final(self), used)
                    &&& generation == key.generation
                    &&& phase == (generation % 2 == 1)
                    &&& sealed_packet(
                        *old(self).headers.sealing,
                        key.updated,
                        pn,
                        buffer@.update(0, with_phase(buffer@[0], phase)),
                        pn_offset as int,
                        body_offset as int,
                        tag_len as int,
                    ) == Ok::<Seq<u8>, PacketError>(bytes@)
                },
                Err(PacketError::Connection(error)) => old(self).unprepared(&final(self).packets, error),
                Err(error) => {
                    let key = final(self).packets.keys@.last();
                    &&& exists|used: OneRttSealingKey| #[trigger] old(self).reserves(final(self), used)
                    &&& sealed_packet(
                        *old(self).headers.sealing,
                        key.updated,
                        pn,
                        buffer@.update(0, with_phase(buffer@[0], key.generation % 2 == 1)),
                        pn_offset as int,
                        body_offset as int,
                        tag_len as int,
                    ) == Err::<Seq<u8>, PacketError>(error)
                },
            },
    {
        match self.reserve_use() {
            Ok(key) => {
                assert(old(self).reserves(self, key));
                key.seal(pn, buffer, pn_offset, body_offset, tag_len)
            },
            Err(error) => Err(PacketError::Connection(error)),
        }
    }
}

/// Whether one key gives back the header that the other masks under a sample, with what follows the
/// packet number up to the fourth byte.
pub open spec fn unmasked(
    opening: rustls::quic::DirectionalKeys,
    sealing: rustls::quic::DirectionalKeys,
    sample: Seq<u8>,
    first: u8,
    number: Seq<u8>,
    rest: Seq<u8>,
) -> bool {
    match header_protected(sealing, sample, first, number) {
        Some((masked_first, masked)) => masked.len() == number.len() && header_unprotected(
            opening,
            sample,
            masked_first,
            masked + rest,
        ) == Some((first, number + rest)),
        None => true,
    }
}

/// Whether one key takes off the header protection that the other puts on.
pub open spec fn unmasks(opening: rustls::quic::DirectionalKeys, sealing: rustls::quic::DirectionalKeys) -> bool {
    &&& sample_size(opening) == sample_size(sealing)
    &&& forall|sample: Seq<u8>, first: u8, number: Seq<u8>, rest: Seq<u8>|
        number.len() == number_len(first) && number.len() + rest.len() == 4 ==> #[trigger] unmasked(
            opening,
            sealing,
            sample,
            first,
            number,
            rest,
        )
}

/// Whether one key gives back the payload that the other seals.
pub open spec fn deciphered(
    opening: rustls::quic::DirectionalKeys,
    opening_updated: Option<Arc<rustls::quic::PacketKeySet>>,
    sealing: rustls::quic::DirectionalKeys,
    sealing_updated: Option<Arc<rustls::quic::PacketKeySet>>,
    pn: u64,
    header: Seq<u8>,
    body: Seq<u8>,
) -> bool {
    match sealed(sealing, sealing_updated, pn, header, body) {
        Some((cipher, tag)) => opened(opening, opening_updated, pn, header, cipher + tag) == Some(body),
        None => true,
    }
}

/// Whether one key opens whatever the other seals.
pub open spec fn deciphers(
    opening: rustls::quic::DirectionalKeys,
    opening_updated: Option<Arc<rustls::quic::PacketKeySet>>,
    sealing: rustls::quic::DirectionalKeys,
    sealing_updated: Option<Arc<rustls::quic::PacketKeySet>>,
) -> bool {
    forall|pn: u64, header: Seq<u8>, body: Seq<u8>| #[trigger]
        deciphered(opening, opening_updated, sealing, sealing_updated, pn, header, body)
}

proof fn lemma_sealed_packet_is_unprotected(
    opening: &rustls::quic::DirectionalKeys,
    sealing: &rustls::quic::DirectionalKeys,
    updated: Option<Arc<rustls::quic::PacketKeySet>>,
    pn: u64,
    buffer: Seq<u8>,
    pn_offset: int,
    body_offset: int,
    tag_len: int,
    bytes: Seq<u8>,
    journal: ArcRcvdJournal,
)
    requires
        unmasks(*opening, *sealing),
        0 < pn_offset < body_offset,
        body_offset == pn_offset + number_len(buffer[0]),
        0 <= tag_len,
        body_offset + tag_len <= buffer.len(),
        sealed_packet(*sealing, updated, pn, buffer, pn_offset, body_offset, tag_len) == Ok::<Seq<u8>, PacketError>(
            bytes,
        ),
        journal.admitted(PacketNumber::from_wire(buffer.subrange(pn_offset, body_offset))) == Ok::<
            u64,
            InvalidPacketNumber,
        >(pn),
        pn <= VARINT_MAX,
    ensures
        sealed(
            *sealing,
            updated,
            pn,
            buffer.take(body_offset),
            buffer.subrange(body_offset, buffer.len() - tag_len),
        ) matches Some((cipher, tag)) && unprotected(*opening, bytes, pn_offset, journal) == Some(
            Unprotected { first: buffer[0], pn, header: buffer.take(body_offset), body: cipher + tag },
        ),
{
    let header = buffer.take(body_offset);
    let body = buffer.subrange(body_offset, buffer.len() - tag_len);
    let first = buffer[0];
    let count = body_offset - pn_offset;
    assert(0 < count <= 4) by {
        assert((first & 3) <= 3) by (bit_vector);
    }
    let (cipher, tag) = sealed(*sealing, updated, pn, header, body)->0;
    let protected = cipher + tag;
    let start = 4 - count;
    let size = sample_size(*sealing) as int;
    let sample = protected.subrange(start, start + size);
    let number = header.subrange(pn_offset, body_offset);
    let rest = protected.take(start);
    assert(unmasked(*opening, *sealing, sample, first, number, rest));
    let (masked_first, masked) = header_protected(*sealing, sample, first, number)->0;
    assert(bytes =~= header.update(0, masked_first).take(pn_offset) + masked + protected);
    assert(bytes.subrange(pn_offset + 4, pn_offset + 4 + size) =~= sample);
    assert(bytes.subrange(pn_offset, pn_offset + 4) =~= masked + rest);
    assert(bytes[0] == masked_first);
    let plain = bytes.update(0, first).take(pn_offset) + (number + rest) + bytes.skip(pn_offset + 4);
    assert(plain.take(body_offset) =~= header);
    assert(plain.skip(body_offset) =~= protected);
    assert(plain.subrange(pn_offset, body_offset) =~= buffer.subrange(pn_offset, body_offset));
}

/// What one end seals with keys of one generation, the other end opens: a receiver whose keys undo the
/// sender's, and to which the packet number is new and restored to the same value, gets the number
/// and the payload. The frames must not be missing, and the reserved bits not be set.
pub proof fn sealed_long_packet_comes_back(
    opening: rustls::quic::DirectionalKeys,
    sealing: rustls::quic::DirectionalKeys,
    pn: u64,
    buffer: Seq<u8>,
    pn_offset: int,
    body_offset: int,
    tag_len: int,
    bytes: Seq<u8>,
    journal: ArcRcvdJournal,
    long: bool,
    result: Result<Option<(u64, Seq<u8>)>, QuicError>,
)
    requires
        unmasks(opening, sealing),
        deciphers(opening, None, sealing, None),
        0 < pn_offset < body_offset,
        body_offset == pn_offset + number_len(buffer[0]),
        0 <= tag_len,
        body_offset + tag_len < buffer.len(),
        !reserved_bits(buffer[0], long),
        sealed_packet(sealing, None, pn, buffer, pn_offset, body_offset, tag_len) == Ok::<Seq<u8>, PacketError>(bytes),
        journal.admitted(PacketNumber::from_wire(buffer.subrange(pn_offset, body_offset))) == Ok::<
            u64,
            InvalidPacketNumber,
        >(pn),
        pn <= VARINT_MAX,
        opens_long(opening, bytes, pn_offset, long, journal, result),
    ensures
        result == Ok::<Option<(u64, Seq<u8>)>, QuicError>(
            Some((pn, buffer.subrange(body_offset, buffer.len() - tag_len))),
        ),
{
    lemma_sealed_packet_is_unprotected(
        &opening,
        &sealing,
        None,
        pn,
        buffer,
        pn_offset,
        body_offset,
        tag_len,
        bytes,
        journal,
    );
    let header = buffer.take(body_offset);
    let body = buffer.subrange(body_offset, buffer.len() - tag_len);
    assert(deciphered(opening, None, sealing, None, pn, header, body));
}

impl OneRttPacketKeys {
    /// Whether the generation that a packet belongs to by its number and key phase, or the one to come,
    /// opens what a sender's keys seal.
    pub open spec fn finds(
        &self,
        opening: rustls::quic::DirectionalKeys,
        sealing: rustls::quic::DirectionalKeys,
        sealing_updated: Option<Arc<rustls::quic::PacketKeySet>>,
        pn: u64,
        phase: bool,
        now: u64,
    ) -> bool {
        let live = unexpired(self.keys@, now);
        located(live, pn, phase) matches Some(index) && if index == live.len() {
            live.last().generation < u64::MAX && deciphers(
                opening,
                Some(Arc::new(derived(self.next_secret).0)),
                sealing,
                sealing_updated,
            )
        } else {
            deciphers(opening, live[index].updated, sealing, sealing_updated)
        }
    }
}

/// What one end seals with a generation of its one-RTT keys, the other end opens: a receiver that finds
/// by number and key phase a generation, or the one to come, whose keys undo the sender's, and to
/// which the packet number is new and restored to the same value, gets the number and the payload.
pub proof fn sealed_one_rtt_packet_comes_back(
    receiver: OneRttKeys,
    after: OneRttKeys,
    sender: OneRttSealingKey,
    pn: u64,
    buffer: Seq<u8>,
    pn_offset: int,
    body_offset: int,
    tag_len: int,
    bytes: Seq<u8>,
    journal: ArcRcvdJournal,
    now: u64,
    pto: u64,
    result: Result<Option<(u64, Seq<u8>)>, QuicError>,
)
    requires
        unmasks(*receiver.headers.opening, *sender.sealing),
        0 < pn_offset < body_offset,
        body_offset == pn_offset + number_len(buffer[0]),
        0 <= tag_len,
        body_offset + tag_len < buffer.len(),
        !reserved_bits(buffer[0], false),
        sealed_packet(
            *sender.sealing,
            sender.updated,
            pn,
            buffer.update(0, with_phase(buffer[0], sender.generation % 2 == 1)),
            pn_offset,
            body_offset,
            tag_len,
        ) == Ok::<Seq<u8>, PacketError>(bytes),
        journal.admitted(PacketNumber::from_wire(buffer.subrange(pn_offset, body_offset))) == Ok::<
            u64,
            InvalidPacketNumber,
        >(pn),
        pn <= VARINT_MAX,
        receiver.packets.finds(
            *receiver.headers.opening,
            *sender.sealing,
            sender.updated,
            pn,
            sender.generation % 2 == 1,
            now,
        ),
        unprotected(*receiver.headers.opening, bytes, pn_offset, journal) matches Some(plain) && receiver.opens(
            &after,
            plain,
            false,
            now,
            pto,
            result,
        ),
    ensures
        result == Ok::<Option<(u64, Seq<u8>)>, QuicError>(
            Some((pn, buffer.subrange(body_offset, buffer.len() - tag_len))),
        ),
{
    let first = with_phase(buffer[0], sender.generation % 2 == 1);
    let phased = buffer.update(0, first);
    phase_bit_round_trips(buffer[0], sender.generation % 2 == 1);
    let given = buffer[0];
    assert((given | 0x04) & 3 == given & 3 && (given & 0xfb) & 3 == given & 3) by (bit_vector);
    assert((given | 0x04) & 0x18 == given & 0x18 && (given & 0xfb) & 0x18 == given & 0x18) by (bit_vector);
    assert(phased.subrange(pn_offset, body_offset) =~= buffer.subrange(pn_offset, body_offset));
    lemma_sealed_packet_is_unprotected(
        &receiver.headers.opening,
        &sender.sealing,
        sender.updated,
        pn,
        phased,
        pn_offset,
        body_offset,
        tag_len,
        bytes,
        journal,
    );
    let header = phased.take(body_offset);
    let body = phased.subrange(body_offset, phased.len() - tag_len);
    assert(body =~= buffer.subrange(body_offset, buffer.len() - tag_len));
    let live = unexpired(receiver.packets.keys@, now);
    let index = located(live, pn, sender.generation % 2 == 1)->0;
    let updated = if index == live.len() {
        Some(Arc::new(derived(receiver.packets.next_secret).0))
    } else {
        live[index].updated
    };
    assert(deciphered(*receiver.headers.opening, updated, *sender.sealing, sender.updated, pn, header, body));
}

/// A packet whose number is on record or retired is dropped, whatever its payload.
pub proof fn duplicate_is_dropped(
    key: rustls::quic::DirectionalKeys,
    bytes: Seq<u8>,
    offset: int,
    journal: ArcRcvdJournal,
)
    requires
        journal.wf(),
        offset >= 0,
    ensures
        unprotected(key, bytes, offset, journal) matches Some(plain) ==> plain.pn
            >= journal.packets.retired_before && !journal.packets.has(plain.pn as int),
{
    if let Some(plain) = unprotected(key, bytes, offset, journal) {
        let sample = bytes.subrange(offset + 4, offset + 4 + sample_size(key));
        if let Some((first, number)) = header_unprotected(key, sample, bytes[0], bytes.subrange(offset, offset + 4)) {
            let whole = bytes.update(0, first).take(offset) + number + bytes.skip(offset + 4);
            let encoded = PacketNumber::from_wire(whole.subrange(offset, offset + number_len(first)));
            assert(number_len(first) <= 4) by {
                assert((first & 3) <= 3) by (bit_vector);
            }
            decoded_number_fits(encoded, journal.expected());
            assert(journal.admitted(encoded) == Ok::<u64, InvalidPacketNumber>(plain.pn));
        }
    }
}

/// The two lowest bits of a first byte tell how long the packet number is. The two above them are reserved in a
/// long header; in a short one the next is the key phase, and the two above that are reserved.
pub proof fn first_byte_is_read_by_its_bits(first: u8)
    ensures
        number_len(first) == first % 4 + 1,
        reserved_bits(first, true) <==> first / 4 % 4 != 0,
        phase_bit(first) <==> first / 4 % 2 == 1,
        reserved_bits(first, false) <==> first / 8 % 4 != 0,
{
    assert(first & 3 == first % 4) by (bit_vector);
    assert(first & 0x0c == 0 <==> first / 4 % 4 == 0) by (bit_vector);
    assert(first & 0x04 == 0 <==> first / 4 % 2 == 0) by (bit_vector);
    assert(first & 0x18 == 0 <==> first / 8 % 4 == 0) by (bit_vector);
}

/// What opening gave decides what is delivered: nothing without an authentic payload, the error where the
/// connection failed, and else the payload under its number, or an error where the header or the payload is
/// wrong.
pub proof fn only_authentic_payloads_are_delivered(
    decrypted: Result<Option<Seq<u8>>, QuicError>,
    first: u8,
    long: bool,
    pn: u64,
    result: Result<Option<(u64, Seq<u8>)>, QuicError>,
)
    requires
        delivered(decrypted, first, long, pn, result),
    ensures
        result matches Ok(Some((number, payload))) ==> number == pn && decrypted == Ok::<Option<Seq<u8>>, QuicError>(
            Some(payload),
        ) && payload.len() > 0,
        decrypted == Ok::<Option<Seq<u8>>, QuicError>(None) ==> result == Ok::<Option<(u64, Seq<u8>)>, QuicError>(None),
        decrypted matches Err(error) ==> result == Err::<Option<(u64, Seq<u8>)>, QuicError>(error),
        decrypted matches Ok(Some(payload)) ==> (result is Ok <==> payload.len() > 0 && !reserved_bits(first, long)),
{
}

/// A packet whose header protection was taken off has a number that can be told and was not received before,
/// and its header and its body are all of it.
pub proof fn unprotected_packet_is_new(
    key: rustls::quic::DirectionalKeys,
    bytes: Seq<u8>,
    offset: int,
    journal: ArcRcvdJournal,
)
    requires
        journal.wf(),
        0 <= offset,
    ensures
        unprotected(key, bytes, offset, journal) matches Some(plain) ==> {
            &&& plain.pn < 0x4000_0000_0000_0000
            &&& plain.pn >= journal.packets.retired_before
            &&& offset > 0
            &&& offset + 4 <= bytes.len()
            &&& revealed(key, bytes, offset) is Some
        },
        revealed(key, bytes, offset) is None ==> unprotected(key, bytes, offset, journal) is None,
{
}

} // verus!

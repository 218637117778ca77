//! Received packets, before and after packet protection is taken off.
use vstd::prelude::*;

use crate::base::buffer::{contents, from_vec, len, slice};
use crate::base::error::{ErrorKind, QuicError};
use crate::base::packet_number::PacketNumber;
use crate::recovery::rcvd::ArcRcvdJournal;
use crate::transport::keys::{payload_of, retained_until, OneRttKeys};
use crate::transport::protection::{open_in_place, opened};
use crate::transport::sealing::{
    first_byte_is_read_by_its_bits, phase_bit, reserved_bits, revealed, take_protection_off, Revealed,
};

verus! {

/// A packet as it came: its header, its bytes, and where the packet number starts in them.
#[derive(Debug)]
pub struct CipherPacket<H> {
    pub header: H,
    pub payload: Vec<u8>,
    pub payload_offset: usize,
}

/// An authentic packet.
#[derive(Debug)]
pub struct PlainPacket<H> {
    pub header: H,
    pub decoded_pn: u64,
    pub undecoded_pn: PacketNumber,
    pub plain: bytes::Bytes,
    pub payload_offset: usize,
    pub body_len: usize,
}

impl<H> PlainPacket<H> {
    pub open spec fn wf(&self) -> bool {
        self.payload_offset + self.undecoded_pn.bytes() + self.body_len <= contents(self.plain).len() <= usize::MAX
    }

    /// The payload that was authenticated.
    pub open spec fn payload(&self) -> Seq<u8> {
        let start = self.payload_offset + self.undecoded_pn.bytes();
        contents(self.plain).subrange(start, start + self.body_len)
    }

    /// Whether this is the packet with that header, number and payload.
    pub open spec fn holds(&self, header: H, offset: int, plain: Revealed, pn: u64, payload: Seq<u8>) -> bool {
        &&& self.wf()
        &&& self.header == header
        &&& self.decoded_pn == pn
        &&& self.undecoded_pn == plain.number
        &&& self.payload_offset == offset
        &&& contents(self.plain).take(offset + plain.number.bytes()) == plain.header
        &&& contents(self.plain).len() == plain.header.len() + plain.body.len()
        &&& self.payload() == payload
    }

    pub fn size(&self) -> (size: usize)
        ensures
            size == contents(self.plain).len(),
    {
        len(&self.plain)
    }

    pub fn pn(&self) -> (pn: u64)
        ensures
            pn == self.decoded_pn,
    {
        self.decoded_pn
    }

    /// Length of the packet number and the payload.
    pub fn payload_len(&self) -> (length: usize)
        requires
            self.wf(),
        ensures
            length == self.undecoded_pn.bytes() + self.payload().len(),
    {
        self.undecoded_pn.size() + self.body_len
    }

    pub fn body(&self) -> (body: bytes::Bytes)
        requires
            self.wf(),
        ensures
            contents(body) == self.payload(),
    {
        let start: usize = self.payload_offset + self.undecoded_pn.size();
        slice(&self.plain, start, start + self.body_len)
    }
}

/// The error for a packet that is authentic but has a reserved bit set.
pub open spec fn reserved_fault(error: QuicError) -> bool {
    error.says(ErrorKind::ProtocolViolation, "reserved header bits are set"@)
}

impl<H> CipherPacket<H> {
    pub fn new(header: H, payload: Vec<u8>, payload_offset: usize) -> (packet: CipherPacket<H>)
        ensures
            packet == (CipherPacket { header, payload, payload_offset }),
    {
        CipherPacket { header, payload, payload_offset }
    }

    pub fn payload_len(&self) -> (length: usize)
        ensures
            length == self.payload@.len(),
    {
        self.payload.len()
    }

    /// Opens a packet with a long header. Nothing comes of a packet that cannot be read or is not
    /// authentic; a reserved bit is an error only in an authentic one.
    pub fn decrypt_long_packet(self, keys: &rustls::quic::DirectionalKeys, journal: &ArcRcvdJournal) -> (result: Option<
        Result<PlainPacket<H>, QuicError>,
    >)
        requires
            journal.wf(),
        ensures
            match revealed(*keys, self.payload@, self.payload_offset as int) {
                None => result is None,
                Some(plain) => match journal.admitted(plain.number) {
                    Err(_) => result is None,
                    Ok(pn) => match opened(*keys, None, pn, plain.header, plain.body) {
                        None => result is None,
                        Some(payload) => if reserved_bits(plain.first, true) {
                            result matches Some(Err(error)) && reserved_fault(error)
                        } else {
                            result matches Some(Ok(packet)) && packet.holds(
                                self.header,
                                self.payload_offset as int,
                                plain,
                                pn,
                                payload,
                            )
                        },
                    },
                },
            },
    {
        let (first, number, header, body) = match take_protection_off(keys, &self.payload, self.payload_offset) {
            Some(plain) => plain,
            None => return None,
        };
        let pn: u64 = match journal.decode_pn(number) {
            Ok(pn) => pn,
            Err(_) => return None,
        };
        let mut body: Vec<u8> = body;
        let ghost cipher = body@;
        let length: usize = match open_in_place(keys, &None, pn, header.as_slice(), &mut body) {
            Some(length) => length,
            None => return None,
        };
        let reserved: u8 = first & 0x0c;
        if reserved != 0 {
            return Some(Err(QuicError::new(ErrorKind::ProtocolViolation, "reserved header bits are set")));
        }
        proof {
            assert(self.payload.len() == self.payload@.len());
        }
        Some(Ok(finish(self.header, self.payload_offset, number, pn, header, body, length)))
    }

    /// Opens a one-RTT packet received at `now`, as `decrypt_long_packet` does.
    pub fn decrypt_short_packet(
        self,
        keys: &mut OneRttKeys,
        journal: &ArcRcvdJournal,
        now: u64,
        pto: u64,
    ) -> (result: Result<Option<PlainPacket<H>>, QuicError>)
        requires
            old(keys).wf(),
            journal.wf(),
            old(keys).packets.failed_opened < u64::MAX,
            now + 3 * pto <= u64::MAX,
        ensures
            final(keys).wf(),
            final(keys).headers == old(keys).headers,
            match revealed(*old(keys).headers.opening, self.payload@, self.payload_offset as int) {
                None => result == Ok::<Option<PlainPacket<H>>, QuicError>(None) && *final(keys) == *old(keys),
                Some(plain) => match journal.admitted(plain.number) {
                    Err(_) => result == Ok::<Option<PlainPacket<H>>, QuicError>(None) && *final(keys) == *old(keys),
                    Ok(pn) => self.opens_short(old(keys), final(keys), plain, pn, now, pto, result),
                },
            },
    {
        let (first, number, header, body) = match take_protection_off(
            &keys.headers.opening,
            &self.payload,
            self.payload_offset,
        ) {
            Some(plain) => plain,
            None => return Ok(None),
        };
        let pn: u64 = match journal.decode_pn(number) {
            Ok(pn) => pn,
            Err(_) => return Ok(None),
        };
        let mut body: Vec<u8> = body;
        let ghost plain = Revealed { first, number, header: header@, body: body@ };
        let phase: bool = first & 0x04 != 0;
        assert(phase == phase_bit(first));
        let outcome: Result<Option<usize>, QuicError> = keys.packets.decrypt(
            &keys.headers.opening,
            pn,
            phase,
            header.as_slice(),
            &mut body,
            now,
            pto,
        );
        let ghost decrypted = payload_of(outcome, body@);
        assert(old(keys).packets.decrypted(
            &keys.packets,
            *old(keys).headers.opening,
            pn,
            phase_bit(plain.first),
            plain.header,
            plain.body,
            now,
            retained_until(now, pto),
            decrypted,
        ));
        let ghost cipher_header = self.header;
        let ghost offset = self.payload_offset as int;
        let ghost packet = self;
        proof {
            assert(self.payload.len() == self.payload@.len());
        }
        let result: Result<Option<PlainPacket<H>>, QuicError> = match outcome {
            Ok(Some(length)) => {
                let reserved: u8 = first & 0x18;
                if reserved != 0 {
                    Err(QuicError::new(ErrorKind::ProtocolViolation, "reserved header bits are set"))
                } else {
                    Ok(Some(finish(self.header, self.payload_offset, number, pn, header, body, length)))
                }
            },
            Ok(None) => Ok(None),
            Err(error) => Err(error),
        };
        assert(short_delivered(decrypted, cipher_header, offset, plain, pn, result));
        assert(packet.opens_short(old(keys), keys, plain, pn, now, pto, result));
        result
    }

    /// What comes of a one-RTT packet whose number is known.
    pub open spec fn opens_short(
        &self,
        keys: &OneRttKeys,
        keys_after: &OneRttKeys,
        plain: Revealed,
        pn: u64,
        now: u64,
        pto: u64,
        result: Result<Option<PlainPacket<H>>, QuicError>,
    ) -> bool {
        exists|decrypted: Result<Option<Seq<u8>>, QuicError>|
            {
                &&& #[trigger] keys.packets.decrypted(
                    &keys_after.packets,
                    *keys.headers.opening,
                    pn,
                    phase_bit(plain.first),
                    plain.header,
                    plain.body,
                    now,
                    retained_until(now, pto),
                    decrypted,
                )
                &&& short_delivered(decrypted, self.header, self.payload_offset as int, plain, pn, result)
            }
    }
}

/// What comes of a one-RTT packet, given what opening it gave.
pub open spec fn short_delivered<H>(
    decrypted: Result<Option<Seq<u8>>, QuicError>,
    header: H,
    offset: int,
    plain: Revealed,
    pn: u64,
    result: Result<Option<PlainPacket<H>>, QuicError>,
) -> bool {
    match decrypted {
        Ok(Some(payload)) => if reserved_bits(plain.first, false) {
            result matches Err(error) && reserved_fault(error)
        } else {
            result matches Ok(Some(packet)) && packet.holds(header, offset, plain, pn, payload)
        },
        Ok(None) => result == Ok::<Option<PlainPacket<H>>, QuicError>(None),
        Err(error) => result == Err::<Option<PlainPacket<H>>, QuicError>(error),
    }
}

fn finish<H>(
    header: H,
    payload_offset: usize,
    number: PacketNumber,
    pn: u64,
    before: Vec<u8>,
    body: Vec<u8>,
    length: usize,
) -> (packet: PlainPacket<H>)
    requires
        before@.len() == payload_offset + number.bytes(),
        length <= body@.len(),
        before@.len() + body@.len() <= usize::MAX,
    ensures
        packet.wf(),
        packet.header == header,
        packet.decoded_pn == pn,
        packet.undecoded_pn == number,
        packet.payload_offset == payload_offset,
        contents(packet.plain) == before@ + body@,
        contents(packet.plain).take(before@.len() as int) == before@,
        packet.payload() == body@.take(length as int),
{
    let mut whole: Vec<u8> = before;
    let mut body: Vec<u8> = body;
    let ghost all = whole@ + body@;
    assert(all.take(before@.len() as int) =~= before@);
    assert(all.subrange(before@.len() as int, before@.len() + length) =~= body@.take(length as int));
    whole.append(&mut body);
    PlainPacket {
        header,
        decoded_pn: pn,
        undecoded_pn: number,
        plain: from_vec(whole),
        payload_offset,
        body_len: length,
    }
}

/// A short packet is handed on exactly if it was authentic and its reserved bits are clear: with its header, its
/// number, and the payload that was opened.
pub proof fn authentic_short_packet_is_handed_on<H>(
    decrypted: Result<Option<Seq<u8>>, QuicError>,
    header: H,
    offset: int,
    plain: Revealed,
    pn: u64,
    result: Result<Option<PlainPacket<H>>, QuicError>,
)
    requires
        short_delivered(decrypted, header, offset, plain, pn, result),
    ensures
        result matches Ok(Some(packet)) ==> packet.header == header && packet.decoded_pn == pn && decrypted == Ok::<
            Option<Seq<u8>>,
            QuicError,
        >(Some(packet.payload())),
        result == Ok::<Option<PlainPacket<H>>, QuicError>(None) <==> decrypted == Ok::<Option<Seq<u8>>, QuicError>(None),
        decrypted matches Ok(Some(_)) ==> (result is Ok <==> plain.first / 8 % 4 == 0),
        decrypted matches Err(error) ==> result == Err::<Option<PlainPacket<H>>, QuicError>(error),
{
    first_byte_is_read_by_its_bits(plain.first);
}

} // verus!

//! Calls into the QUIC packet protection of rustls.
//!
//! A key is opaque here: what it does to bytes is named, not defined.
use std::sync::Arc;

use vstd::prelude::*;

verus! {

#[verifier::external_type_specification]
#[verifier::external_body]
pub struct ExDirectionalKeys(rustls::quic::DirectionalKeys);

#[verifier::external_type_specification]
#[verifier::external_body]
pub struct ExPacketKeySet(rustls::quic::PacketKeySet);

#[verifier::external_type_specification]
#[verifier::external_body]
pub struct ExSecrets(rustls::quic::Secrets);

/// The authentication tag of every cipher suite that QUIC uses has this many bytes.
pub const TAG_LEN: usize = 16;

/// The payload that the packet key of `keys` opens `body`, a ciphertext with its tag, to, if that is
/// authentic.
pub uninterp spec fn opened_by_first(
    keys: rustls::quic::DirectionalKeys,
    pn: u64,
    header: Seq<u8>,
    body: Seq<u8>,
) -> Option<Seq<u8>>;

/// The payload that the receiving key of `keys` opens `body`, a ciphertext with its tag, to, if that is
/// authentic.
pub uninterp spec fn opened_by_set(
    keys: rustls::quic::PacketKeySet,
    pn: u64,
    header: Seq<u8>,
    body: Seq<u8>,
) -> Option<Seq<u8>>;

/// The ciphertext and the tag that the packet key of `keys` seals `body` to, unless it is too long.
pub uninterp spec fn sealed_by_first(
    keys: rustls::quic::DirectionalKeys,
    pn: u64,
    header: Seq<u8>,
    body: Seq<u8>,
) -> Option<(Seq<u8>, Seq<u8>)>;

/// The ciphertext and the tag that the sending key of `keys` seals `body` to, unless it is too long.
pub uninterp spec fn sealed_by_set(
    keys: rustls::quic::PacketKeySet,
    pn: u64,
    header: Seq<u8>,
    body: Seq<u8>,
) -> Option<(Seq<u8>, Seq<u8>)>;

/// The payload that opening `body` gives back. The key is the receiving one of `updated`, or that of
/// `first` where there was no update yet.
pub open spec fn opened(
    first: rustls::quic::DirectionalKeys,
    updated: Option<Arc<rustls::quic::PacketKeySet>>,
    pn: u64,
    header: Seq<u8>,
    body: Seq<u8>,
) -> Option<Seq<u8>> {
    match updated {
        Some(keys) => opened_by_set(*keys, pn, header, body),
        None => opened_by_first(first, pn, header, body),
    }
}

/// The ciphertext and the tag that sealing `body` gives. The key is the sending one of `updated`, or
/// that of `first` where there was no update yet.
pub open spec fn sealed(
    first: rustls::quic::DirectionalKeys,
    updated: Option<Arc<rustls::quic::PacketKeySet>>,
    pn: u64,
    header: Seq<u8>,
    body: Seq<u8>,
) -> Option<(Seq<u8>, Seq<u8>)> {
    match updated {
        Some(keys) => sealed_by_set(*keys, pn, header, body),
        None => sealed_by_first(first, pn, header, body),
    }
}

/// The first byte and the packet number under header protection.
pub uninterp spec fn header_protected(
    key: rustls::quic::DirectionalKeys,
    sample: Seq<u8>,
    first: u8,
    number: Seq<u8>,
) -> Option<(u8, Seq<u8>)>;

/// The first byte and the packet number with header protection taken off.
pub uninterp spec fn header_unprotected(
    key: rustls::quic::DirectionalKeys,
    sample: Seq<u8>,
    first: u8,
    number: Seq<u8>,
) -> Option<(u8, Seq<u8>)>;

/// The length of the sample that header protection takes.
pub uninterp spec fn sample_size(key: rustls::quic::DirectionalKeys) -> usize;

/// The length of the tags of the packet key.
pub uninterp spec fn tag_size_of_first(keys: rustls::quic::DirectionalKeys) -> usize;

/// The length of the tags of the sending key.
pub uninterp spec fn tag_size_of_set(keys: rustls::quic::PacketKeySet) -> usize;

/// How many packets the packet key may seal.
pub uninterp spec fn seal_limit_of_first(keys: rustls::quic::DirectionalKeys) -> u64;

/// How many packets the sending key may seal.
pub uninterp spec fn seal_limit_of_set(keys: rustls::quic::PacketKeySet) -> u64;

/// How many packets the packet key may fail to open.
pub uninterp spec fn failure_limit_of_first(keys: rustls::quic::DirectionalKeys) -> u64;

/// How many packets the receiving key may fail to open.
pub uninterp spec fn failure_limit_of_set(keys: rustls::quic::PacketKeySet) -> u64;

/// The length of the tags of the key in use for sending.
pub open spec fn tag_size(
    first: rustls::quic::DirectionalKeys,
    updated: Option<Arc<rustls::quic::PacketKeySet>>,
) -> usize {
    match updated {
        Some(keys) => tag_size_of_set(*keys),
        None => tag_size_of_first(first),
    }
}

/// How many packets the key in use for sending may seal.
pub open spec fn seal_limit(
    first: rustls::quic::DirectionalKeys,
    updated: Option<Arc<rustls::quic::PacketKeySet>>,
) -> u64 {
    match updated {
        Some(keys) => seal_limit_of_set(*keys),
        None => seal_limit_of_first(first),
    }
}

/// How many packets the key in use for receiving may fail to open.
pub open spec fn failure_limit(
    first: rustls::quic::DirectionalKeys,
    updated: Option<Arc<rustls::quic::PacketKeySet>>,
) -> u64 {
    match updated {
        Some(keys) => failure_limit_of_set(*keys),
        None => failure_limit_of_first(first),
    }
}

/// The packet keys derived from a secret, and the secret to derive the following ones from.
pub uninterp spec fn derived(secret: rustls::quic::Secrets) -> (
    rustls::quic::PacketKeySet,
    rustls::quic::Secrets,
);

/// `rustls::quic::PacketKey::decrypt_in_place` of the packet key of `DirectionalKeys`: on success the payload stands at the
/// front of `body`, and its length is returned. What `body` holds after a failure is left open.
#[verifier::external_body]
fn open_by_first(keys: &rustls::quic::DirectionalKeys, pn: u64, header: &[u8], body: &mut Vec<u8>) -> (length: Option<usize>)
    ensures
        final(body)@.len() == old(body)@.len(),
        match length {
            Some(length) => length <= final(body)@.len() && opened_by_first(*keys, pn, header@, old(body)@) == Some(
                final(body)@.take(length as int),
            ),
            None => opened_by_first(*keys, pn, header@, old(body)@) is None,
        },
{
    keys.packet.decrypt_in_place(pn, header, body).ok().map(|plain| plain.len())
}

/// `rustls::quic::PacketKey::decrypt_in_place` of the remote key of a set: on success the payload stands at the
/// front of `body`, and its length is returned. What `body` holds after a failure is left open.
#[verifier::external_body]
fn open_by_set(keys: &rustls::quic::PacketKeySet, pn: u64, header: &[u8], body: &mut Vec<u8>) -> (length: Option<usize>)
    ensures
        final(body)@.len() == old(body)@.len(),
        match length {
            Some(length) => length <= final(body)@.len() && opened_by_set(*keys, pn, header@, old(body)@) == Some(
                final(body)@.take(length as int),
            ),
            None => opened_by_set(*keys, pn, header@, old(body)@) is None,
        },
{
    keys.remote.decrypt_in_place(pn, header, body).ok().map(|plain| plain.len())
}

/// `rustls::quic::PacketKey::encrypt_in_place` of the packet key of `DirectionalKeys`: encrypts `body` where it stands and
/// returns the tag. What `body` holds after a failure is left open.
#[verifier::external_body]
fn seal_by_first(keys: &rustls::quic::DirectionalKeys, pn: u64, header: &[u8], body: &mut Vec<u8>) -> (tag: Option<Vec<u8>>)
    ensures
        final(body)@.len() == old(body)@.len(),
        match tag {
            Some(tag) => tag@.len() == TAG_LEN && sealed_by_first(*keys, pn, header@, old(body)@) == Some(
                (final(body)@, tag@),
            ),
            None => sealed_by_first(*keys, pn, header@, old(body)@) is None,
        },
{
    keys.packet.encrypt_in_place(pn, header, body).ok().map(|tag| tag.as_ref().to_vec())
}

/// `rustls::quic::PacketKey::encrypt_in_place` of the local key of a set: encrypts `body` where it stands and
/// returns the tag. What `body` holds after a failure is left open.
#[verifier::external_body]
fn seal_by_set(keys: &rustls::quic::PacketKeySet, pn: u64, header: &[u8], body: &mut Vec<u8>) -> (tag: Option<Vec<u8>>)
    ensures
        final(body)@.len() == old(body)@.len(),
        match tag {
            Some(tag) => tag@.len() == TAG_LEN && sealed_by_set(*keys, pn, header@, old(body)@) == Some(
                (final(body)@, tag@),
            ),
            None => sealed_by_set(*keys, pn, header@, old(body)@) is None,
        },
{
    keys.local.encrypt_in_place(pn, header, body).ok().map(|tag| tag.as_ref().to_vec())
}

/// Opens `body` where it stands, with the key of `updated`, or that of `first` where there was no
/// update yet.
pub(crate) fn open_in_place(
    first: &rustls::quic::DirectionalKeys,
    updated: &Option<Arc<rustls::quic::PacketKeySet>>,
    pn: u64,
    header: &[u8],
    body: &mut Vec<u8>,
) -> (length: Option<usize>)
    ensures
        final(body)@.len() == old(body)@.len(),
        match length {
            Some(length) => length <= final(body)@.len() && opened(*first, *updated, pn, header@, old(body)@)
                == Some(final(body)@.take(length as int)),
            None => opened(*first, *updated, pn, header@, old(body)@) is None,
        },
{
    match updated {
        Some(keys) => open_by_set(keys, pn, header, body),
        None => open_by_first(first, pn, header, body),
    }
}

/// Seals `body` where it stands, with the key of `updated`, or that of `first` where there was no
/// update yet; returns the tag.
pub(crate) fn seal_in_place(
    first: &rustls::quic::DirectionalKeys,
    updated: &Option<Arc<rustls::quic::PacketKeySet>>,
    pn: u64,
    header: &[u8],
    body: &mut Vec<u8>,
) -> (tag: Option<Vec<u8>>)
    ensures
        final(body)@.len() == old(body)@.len(),
        match tag {
            Some(tag) => tag@.len() == TAG_LEN && sealed(*first, *updated, pn, header@, old(body)@) == Some(
                (final(body)@, tag@),
            ),
            None => sealed(*first, *updated, pn, header@, old(body)@) is None,
        },
{
    match updated {
        Some(keys) => seal_by_set(keys, pn, header, body),
        None => seal_by_first(first, pn, header, body),
    }
}

/// `rustls::quic::HeaderProtectionKey::encrypt_in_place`: masks the first byte and the packet
/// number in place, or fails and leaves them as they are.
#[verifier::external_body]
pub(crate) fn protect_header(
    key: &rustls::quic::DirectionalKeys,
    sample: &[u8],
    first: &mut u8,
    number: &mut Vec<u8>,
) -> (done: bool)
    ensures
        final(number)@.len() == old(number)@.len(),
        if done {
            header_protected(*key, sample@, *old(first), old(number)@) == Some((*final(first), final(number)@))
        } else {
            header_protected(*key, sample@, *old(first), old(number)@) is None && *final(first) == *old(first)
                && final(number)@ == old(number)@
        },
{
    key.header.encrypt_in_place(sample, first, number).is_ok()
}

/// `rustls::quic::HeaderProtectionKey::decrypt_in_place`: unmasks the first byte and the packet
/// number in place, or fails and leaves them as they are.
#[verifier::external_body]
pub(crate) fn unprotect_header(
    key: &rustls::quic::DirectionalKeys,
    sample: &[u8],
    first: &mut u8,
    number: &mut Vec<u8>,
) -> (done: bool)
    ensures
        final(number)@.len() == old(number)@.len(),
        if done {
            header_unprotected(*key, sample@, *old(first), old(number)@) == Some((*final(first), final(number)@))
        } else {
            header_unprotected(*key, sample@, *old(first), old(number)@) is None && *final(first) == *old(first)
                && final(number)@ == old(number)@
        },
{
    key.header.decrypt_in_place(sample, first, number).is_ok()
}

/// `rustls::quic::HeaderProtectionKey::sample_len`: how long a sample must be.
#[verifier::external_body]
pub(crate) fn sample_len(key: &rustls::quic::DirectionalKeys) -> (length: usize)
    ensures
        length == sample_size(*key),
{
    key.header.sample_len()
}

/// `rustls::quic::PacketKey::tag_len` of the packet key of `DirectionalKeys`.
#[verifier::external_body]
fn tag_len_of_first(keys: &rustls::quic::DirectionalKeys) -> (length: usize)
    ensures
        length == tag_size_of_first(*keys),
{
    keys.packet.tag_len()
}

/// `rustls::quic::PacketKey::tag_len` of the local key of a set.
#[verifier::external_body]
fn tag_len_of_set(keys: &rustls::quic::PacketKeySet) -> (length: usize)
    ensures
        length == tag_size_of_set(*keys),
{
    keys.local.tag_len()
}

/// How long the tags of the key in use for sending are.
pub(crate) fn tag_len(
    first: &rustls::quic::DirectionalKeys,
    updated: &Option<Arc<rustls::quic::PacketKeySet>>,
) -> (length: usize)
    ensures
        length == tag_size(*first, *updated),
{
    match updated {
        Some(keys) => tag_len_of_set(keys),
        None => tag_len_of_first(first),
    }
}

/// `rustls::quic::PacketKey::confidentiality_limit` of the packet key of `DirectionalKeys`.
#[verifier::external_body]
fn confidentiality_limit_of_first(keys: &rustls::quic::DirectionalKeys) -> (limit: u64)
    ensures
        limit == seal_limit_of_first(*keys),
{
    keys.packet.confidentiality_limit()
}

/// `rustls::quic::PacketKey::confidentiality_limit` of the local key of a set.
#[verifier::external_body]
fn confidentiality_limit_of_set(keys: &rustls::quic::PacketKeySet) -> (limit: u64)
    ensures
        limit == seal_limit_of_set(*keys),
{
    keys.local.confidentiality_limit()
}

/// How many packets the key in use for sending may seal.
pub(crate) fn confidentiality_limit(
    first: &rustls::quic::DirectionalKeys,
    updated: &Option<Arc<rustls::quic::PacketKeySet>>,
) -> (limit: u64)
    ensures
        limit == seal_limit(*first, *updated),
{
    match updated {
        Some(keys) => confidentiality_limit_of_set(keys),
        None => confidentiality_limit_of_first(first),
    }
}

/// `rustls::quic::PacketKey::integrity_limit` of the packet key of `DirectionalKeys`.
#[verifier::external_body]
fn integrity_limit_of_first(keys: &rustls::quic::DirectionalKeys) -> (limit: u64)
    ensures
        limit == failure_limit_of_first(*keys),
{
    keys.packet.integrity_limit()
}

/// `rustls::quic::PacketKey::integrity_limit` of the remote key of a set.
#[verifier::external_body]
fn integrity_limit_of_set(keys: &rustls::quic::PacketKeySet) -> (limit: u64)
    ensures
        limit == failure_limit_of_set(*keys),
{
    keys.remote.integrity_limit()
}

/// How many packets the key in use for receiving may fail to open.
pub(crate) fn integrity_limit(
    first: &rustls::quic::DirectionalKeys,
    updated: &Option<Arc<rustls::quic::PacketKeySet>>,
) -> (limit: u64)
    ensures
        limit == failure_limit(*first, *updated),
{
    match updated {
        Some(keys) => integrity_limit_of_set(keys),
        None => integrity_limit_of_first(first),
    }
}

/// `rustls::quic::Secrets::next_packet_keys` on a copy of the secret: the keys it yields and the
/// secret it leaves.
#[verifier::external_body]
pub(crate) fn derive_next(secret: &rustls::quic::Secrets) -> (next: (
    rustls::quic::PacketKeySet,
    rustls::quic::Secrets,
))
    ensures
        next == derived(*secret),
{
    let mut secret = secret.clone();
    let keys = secret.next_packet_keys();
    (keys, secret)
}

/// `std::sync::Arc::clone`: another handle on the same value.
#[verifier::external_body]
pub(crate) fn share<T>(handle: &Arc<T>) -> (shared: Arc<T>)
    ensures
        shared == *handle,
{
    handle.clone()
}

/// Another handle on the same keys, where there are any.
pub(crate) fn share_updated(keys: &Option<Arc<rustls::quic::PacketKeySet>>) -> (shared: Option<
    Arc<rustls::quic::PacketKeySet>,
>)
    ensures
        shared == *keys,
{
    match keys {
        Some(keys) => Some(share(keys)),
        None => None,
    }
}

} // verus!

//! Stateless inspection of contiguous Initial-level TLS input.
use vstd::prelude::*;
use vstd::slice::slice_subrange;
use vstd::utf8::{decode_utf8, valid_utf8};

use crate::base::buffer::{as_slice, contents, copy_from_slice};
use crate::base::text::{from_utf8, join};
use crate::tls::error::{PeerTlsError, TlsError};

verus! {

pub const CLIENT_HELLO: u8 = 1;

pub const SERVER_NAME: u16 = 0;

pub const QUIC_TRANSPORT_PARAMETERS: u16 = 0x39;

pub const HANDSHAKE_HEADER_LEN: usize = 4;

/// Routing facts and the exact TLS encoding of one complete ClientHello.
#[derive(Debug)]
pub struct ClientHello {
    pub name: Option<String>,
    pub parameters: bytes::Bytes,
    pub whole: bytes::Bytes,
}

/// What a ClientHello says.
pub struct HelloView {
    pub name: Option<Seq<char>>,
    pub parameters: Seq<u8>,
    pub whole: Seq<u8>,
}

/// Why input is refused.
pub enum HelloFault {
    Limit,
    Protocol(Seq<char>),
}

/// Whether a host name is a DNS name (`true`) or an IP address (`false`), if it is either.
pub uninterp spec fn host_kind(text: Seq<char>) -> Option<bool>;

/// Where `len` bytes from `at` end.
pub open spec fn taken(bytes: Seq<u8>, at: int, len: int, field: Seq<char>) -> Result<int, Seq<char>> {
    if at + len > usize::MAX {
        Err("invalid ClientHello "@ + field + " length"@)
    } else if at + len > bytes.len() {
        Err("truncated ClientHello "@ + field)
    } else {
        Ok(at + len)
    }
}

/// The bounds of a vector whose length stands before it in one byte.
pub open spec fn sized8(bytes: Seq<u8>, at: int, field: Seq<char>) -> Result<(int, int), Seq<char>> {
    match taken(bytes, at, 1, field) {
        Err(reason) => Err(reason),
        Ok(start) => match taken(bytes, start, bytes[at] as int, field) {
            Err(reason) => Err(reason),
            Ok(end) => Ok((start, end)),
        },
    }
}

pub open spec fn big_endian(bytes: Seq<u8>, at: int) -> int {
    bytes[at] * 0x100 + bytes[at + 1]
}

/// The bounds of a vector whose length stands before it in two bytes.
pub open spec fn sized16(bytes: Seq<u8>, at: int, field: Seq<char>) -> Result<(int, int), Seq<char>> {
    match taken(bytes, at, 2, field) {
        Err(reason) => Err(reason),
        Ok(start) => match taken(bytes, start, big_endian(bytes, at), field) {
            Err(reason) => Err(reason),
            Ok(end) => Ok((start, end)),
        },
    }
}

/// The bounds of the extensions in the body of a ClientHello.
pub open spec fn extensions_of(body: Seq<u8>) -> Result<(int, int), Seq<char>> {
    match taken(body, 0, 2, "legacy version"@) {
        Err(reason) => Err(reason),
        Ok(random) => match taken(body, random, 32, "random"@) {
            Err(reason) => Err(reason),
            Ok(session) => match sized8(body, session, "legacy session ID"@) {
                Err(reason) => Err(reason),
                Ok((_, suites)) => extensions_after_session(body, suites),
            },
        },
    }
}

/// The bounds of the extensions, from the cipher suites on.
pub open spec fn extensions_after_session(body: Seq<u8>, suites: int) -> Result<(int, int), Seq<char>> {
    match sized16(body, suites, "cipher suites"@) {
        Err(reason) => Err(reason),
        Ok((start, methods)) => if start == methods || (methods - start) % 2 != 0 {
            Err("invalid ClientHello cipher suites"@)
        } else {
            match sized8(body, methods, "legacy compression methods"@) {
                Err(reason) => Err(reason),
                Ok((start, extensions)) => if start == extensions {
                    Err("ClientHello has no legacy compression method"@)
                } else {
                    match sized16(body, extensions, "extensions"@) {
                        Err(reason) => Err(reason),
                        Ok((start, end)) => if end != body.len() {
                            Err("trailing ClientHello bytes"@)
                        } else {
                            Ok((start, end))
                        },
                    }
                },
            }
        },
    }
}

/// The DNS name that the bytes of a host name stand for.
pub open spec fn host_name(bytes: Seq<u8>) -> Result<Seq<char>, Seq<char>> {
    if !valid_utf8(bytes) {
        Err("ClientHello host_name is not UTF-8"@)
    } else {
        match host_kind(decode_utf8(bytes)) {
            Some(true) => Ok(decode_utf8(bytes)),
            Some(false) => Err("ClientHello host_name is not a DNS name"@),
            None => Err("ClientHello host_name is not a valid DNS name"@),
        }
    }
}

/// The host name in a list of server names, read on from `at`.
pub open spec fn listed_name(list: Seq<u8>, at: int, found: Option<Seq<char>>) -> Result<
    Option<Seq<char>>,
    Seq<char>,
>
    decreases list.len() - at,
{
    if at >= list.len() {
        Ok(found)
    } else {
        match taken(list, at, 1, "server name type"@) {
            Err(reason) => Err(reason),
            Ok(after) => match sized16(list, after, "server name"@) {
                Err(reason) => Err(reason),
                Ok((start, end)) => if list[at] != 0 {
                    listed_name(list, end, found)
                } else if found is Some {
                    Err("duplicate ClientHello host_name"@)
                } else {
                    match host_name(list.subrange(start, end)) {
                        Err(reason) => Err(reason),
                        Ok(name) => listed_name(list, end, Some(name)),
                    }
                },
            },
        }
    }
}

/// The host name in a server_name extension.
pub open spec fn extension_name(extension: Seq<u8>) -> Result<Option<Seq<char>>, Seq<char>> {
    match sized16(extension, 0, "server name list"@) {
        Err(reason) => Err(reason),
        Ok((start, end)) => if end != extension.len() {
            Err("trailing server_name extension bytes"@)
        } else if start == end {
            Err("ClientHello server name list is empty"@)
        } else {
            listed_name(extension.subrange(start, end), 0, None)
        },
    }
}

/// The text in an optional string.
pub open spec fn text_of(text: Option<String>) -> Option<Seq<char>> {
    match text {
        Some(text) => Some(text@),
        None => None,
    }
}

/// What has been read of the extensions.
pub struct Facts {
    pub saw_name: bool,
    pub name: Option<Seq<char>>,
    pub parameters: Option<Seq<u8>>,
}

/// The facts in the extensions, read on from `at`.
pub open spec fn extension_facts(extensions: Seq<u8>, at: int, facts: Facts) -> Result<Facts, Seq<char>>
    decreases extensions.len() - at,
{
    if at >= extensions.len() {
        Ok(facts)
    } else {
        match taken(extensions, at, 2, "extension type"@) {
            Err(reason) => Err(reason),
            Ok(after) => match sized16(extensions, after, "extension"@) {
                Err(reason) => Err(reason),
                Ok((start, end)) => {
                    let extension = extensions.subrange(start, end);
                    let kind = big_endian(extensions, at);
                    if kind == SERVER_NAME {
                        if facts.saw_name {
                            Err("duplicate ClientHello server_name extension"@)
                        } else {
                            match extension_name(extension) {
                                Err(reason) => Err(reason),
                                Ok(name) => extension_facts(
                                    extensions,
                                    end,
                                    Facts { saw_name: true, name, ..facts },
                                ),
                            }
                        }
                    } else if kind == QUIC_TRANSPORT_PARAMETERS {
                        if facts.parameters is Some {
                            Err("duplicate QUIC transport parameters extension"@)
                        } else {
                            extension_facts(extensions, end, Facts { parameters: Some(extension), ..facts })
                        }
                    } else {
                        extension_facts(extensions, end, facts)
                    }
                },
            },
        }
    }
}

/// What the body of a complete ClientHello says.
pub open spec fn parsed(whole: Seq<u8>) -> Result<HelloView, Seq<char>> {
    let body = whole.skip(HANDSHAKE_HEADER_LEN as int);
    match extensions_of(body) {
        Err(reason) => Err(reason),
        Ok((start, end)) => match extension_facts(
            body.subrange(start, end),
            0,
            Facts { saw_name: false, name: None, parameters: None },
        ) {
            Err(reason) => Err(reason),
            Ok(facts) => match facts.parameters {
                None => Err("ClientHello is missing QUIC transport parameters"@),
                Some(parameters) => Ok(HelloView { name: facts.name, parameters, whole }),
            },
        },
    }
}

/// The length of the handshake message that starts with these bytes.
pub open spec fn message_len(bytes: Seq<u8>) -> int {
    HANDSHAKE_HEADER_LEN + bytes[1] * 0x1_0000 + bytes[2] * 0x100 + bytes[3]
}

/// What Initial CRYPTO bytes come to: a ClientHello, nothing yet, or a fault.
pub open spec fn hello(bytes: Seq<u8>, max_bytes: usize) -> Result<Option<HelloView>, HelloFault> {
    if bytes.len() > max_bytes {
        Err(HelloFault::Limit)
    } else if bytes.len() < HANDSHAKE_HEADER_LEN {
        Ok(None)
    } else if bytes[0] != CLIENT_HELLO {
        Err(HelloFault::Protocol("first TLS handshake message is not ClientHello"@))
    } else if message_len(bytes) > max_bytes {
        Err(HelloFault::Limit)
    } else if bytes.len() < message_len(bytes) {
        Ok(None)
    } else if bytes.len() != message_len(bytes) {
        Err(HelloFault::Protocol("unexpected Initial CRYPTO data after ClientHello"@))
    } else {
        match parsed(bytes) {
            Ok(view) => Ok(Some(view)),
            Err(reason) => Err(HelloFault::Protocol(reason)),
        }
    }
}

impl ClientHello {
    pub open spec fn view(&self) -> HelloView {
        HelloView {
            name: text_of(self.name),
            parameters: contents(self.parameters),
            whole: contents(self.whole),
        }
    }

    pub fn server_name(&self) -> (name: Option<&str>)
        ensures
            match name {
                Some(name) => self.view().name == Some(name@),
                None => self.view().name is None,
            },
    {
        match &self.name {
            Some(name) => Some(name.as_str()),
            None => None,
        }
    }

    pub fn transport_parameters(&self) -> (parameters: &[u8])
        ensures
            parameters@ == self.view().parameters,
    {
        as_slice(&self.parameters)
    }

    pub fn encoded(&self) -> (encoded: &bytes::Bytes)
        ensures
            contents(*encoded) == self.view().whole,
            *encoded == self.whole,
    {
        &self.whole
    }
}

/// Inspects contiguous Initial CRYPTO bytes without starting a TLS connection. Incomplete input
/// gives nothing yet; a complete ClientHello is copied once, so that it can be handed to the
/// server that is selected.
pub fn client_hello(bytes: &[u8], max_bytes: usize) -> (result: Result<Option<ClientHello>, TlsError>)
    ensures
        match result {
            Ok(Some(found)) => hello(bytes@, max_bytes) == Ok::<Option<HelloView>, HelloFault>(
                Some(found.view()),
            ),
            Ok(None) => hello(bytes@, max_bytes) == Ok::<Option<HelloView>, HelloFault>(None),
            Err(error) => match hello(bytes@, max_bytes) {
                Err(HelloFault::Limit) => error.is_limit("ClientHello bytes"@, max_bytes),
                Err(HelloFault::Protocol(reason)) => error.is_protocol(reason),
                Ok(_) => false,
            },
        },
{
    if bytes.len() > max_bytes {
        return Err(resource_limit(max_bytes));
    }
    if bytes.len() < HANDSHAKE_HEADER_LEN {
        return Ok(None);
    }
    if bytes[0] != CLIENT_HELLO {
        return Err(protocol_error("first TLS handshake message is not ClientHello".to_owned()));
    }
    let encoded_len: usize = HANDSHAKE_HEADER_LEN + bytes[1] as usize * 0x1_0000 + bytes[2] as usize * 0x100
        + bytes[3] as usize;
    if encoded_len > max_bytes {
        return Err(resource_limit(max_bytes));
    }
    if bytes.len() < encoded_len {
        return Ok(None);
    }
    if bytes.len() != encoded_len {
        return Err(protocol_error("unexpected Initial CRYPTO data after ClientHello".to_owned()));
    }
    match parse(copy_from_slice(bytes)) {
        Ok(hello) => Ok(Some(hello)),
        Err(error) => Err(error),
    }
}

fn parse(encoded: bytes::Bytes) -> (result: Result<ClientHello, TlsError>)
    requires
        contents(encoded).len() >= HANDSHAKE_HEADER_LEN,
    ensures
        match result {
            Ok(found) => parsed(contents(encoded)) == Ok::<HelloView, Seq<char>>(found.view()),
            Err(error) => parsed(contents(encoded)) matches Err(reason) && error.is_protocol(reason),
        },
{
    let whole: &[u8] = as_slice(&encoded);
    let body: &[u8] = slice_subrange(whole, HANDSHAKE_HEADER_LEN, whole.len());
    assert(body@ =~= contents(encoded).skip(HANDSHAKE_HEADER_LEN as int));
    let extensions: &[u8] = match parse_extensions(body) {
        Ok(extensions) => extensions,
        Err(error) => return Err(error),
    };
    let ghost start: Facts = Facts { saw_name: false, name: None, parameters: None };
    let mut extensions: Reader = Reader::new(extensions);
    let mut saw_server_name: bool = false;
    let mut server_name: Option<String> = None;
    let mut transport_parameters: Option<bytes::Bytes> = None;
    let ghost mut facts: Facts = start;
    while !extensions.is_empty()
        invariant
            extensions.wf(),
            facts.saw_name == saw_server_name,
            facts.name == text_of(server_name),
            facts.parameters == match transport_parameters {
                Some(parameters) => Some(contents(parameters)),
                None => None,
            },
            extension_facts(extensions.bytes@, 0, start) == extension_facts(
                extensions.bytes@,
                extensions.offset as int,
                facts,
            ),
            match extensions_of(contents(encoded).skip(HANDSHAKE_HEADER_LEN as int)) {
                Ok((start, end)) => extensions.bytes@ == contents(encoded).skip(
                    HANDSHAKE_HEADER_LEN as int,
                ).subrange(start, end),
                Err(_) => false,
            },
            start == (Facts { saw_name: false, name: None, parameters: None }),
        decreases extensions.bytes@.len() - extensions.offset,
    {
        let ghost at = extensions.offset as int;
        let extension_type: u16 = match extensions.u16("extension type") {
            Ok(kind) => kind,
            Err(error) => return Err(error),
        };
        let extension: &[u8] = match extensions.vector_u16("extension") {
            Ok(extension) => extension,
            Err(error) => return Err(error),
        };
        if extension_type == SERVER_NAME {
            if saw_server_name {
                return Err(protocol_error("duplicate ClientHello server_name extension".to_owned()));
            }
            saw_server_name = true;
            server_name =
            match parse_server_name(extension) {
                Ok(name) => name,
                Err(error) => return Err(error),
            };
            proof {
                facts = Facts {
                    saw_name: true,
                    name: text_of(server_name),
                    ..facts
                };
            }
        } else if extension_type == QUIC_TRANSPORT_PARAMETERS {
            if transport_parameters.is_some() {
                return Err(protocol_error("duplicate QUIC transport parameters extension".to_owned()));
            }
            transport_parameters = Some(copy_from_slice(extension));
            proof {
                facts = Facts { parameters: Some(extension@), ..facts };
            }
        }
    }
    match transport_parameters {
        Some(parameters) => Ok(ClientHello { name: server_name, parameters, whole: encoded }),
        None => Err(protocol_error("ClientHello is missing QUIC transport parameters".to_owned())),
    }
}

fn parse_extensions<'a>(body: &'a [u8]) -> (result: Result<&'a [u8], TlsError>)
    ensures
        match result {
            Ok(extensions) => extensions_of(body@) matches Ok((start, end)) && extensions@ == body@.subrange(
                start,
                end,
            ),
            Err(error) => extensions_of(body@) matches Err(reason) && error.is_protocol(reason),
        },
{
    let mut hello: Reader = Reader::new(body);
    if let Err(error) = hello.take(2, "legacy version") {
        return Err(error);
    }
    if let Err(error) = hello.take(32, "random") {
        return Err(error);
    }
    if let Err(error) = hello.vector_u8("legacy session ID") {
        return Err(error);
    }
    match hello.vector_u16("cipher suites") {
        Ok(suites) => {
            if suites.len() == 0 || suites.len() % 2 != 0 {
                return Err(protocol_error("invalid ClientHello cipher suites".to_owned()));
            }
        },
        Err(error) => return Err(error),
    }
    match hello.vector_u8("legacy compression methods") {
        Ok(methods) => {
            if methods.len() == 0 {
                return Err(protocol_error("ClientHello has no legacy compression method".to_owned()));
            }
        },
        Err(error) => return Err(error),
    }
    let extensions: &[u8] = match hello.vector_u16("extensions") {
        Ok(extensions) => extensions,
        Err(error) => return Err(error),
    };
    if let Err(error) = hello.finish("trailing ClientHello bytes") {
        return Err(error);
    }
    Ok(extensions)
}

/// `rustls::pki_types::ServerName::try_from`: whether the text is a DNS name or an IP address, if
/// it is either. A DNS name keeps the text it was made from.
#[verifier::external_body]
fn classify_host(text: String) -> (kind: Option<bool>)
    ensures
        kind == host_kind(text@),
{
    match rustls::pki_types::ServerName::try_from(text) {
        Ok(rustls::pki_types::ServerName::DnsName(_)) => Some(true),
        Ok(_) => Some(false),
        Err(_) => None,
    }
}

/// The host name that a kind, found for the text of its bytes, makes of it.
pub fn accept_host(text: String, kind: Option<bool>) -> (result: Result<String, TlsError>)
    ensures
        match kind {
            Some(true) => result == Ok::<String, TlsError>(text),
            Some(false) => result matches Err(error) && error.is_protocol("ClientHello host_name is not a DNS name"@),
            None => result matches Err(error) && error.is_protocol(
                "ClientHello host_name is not a valid DNS name"@,
            ),
        },
{
    match kind {
        Some(true) => Ok(text),
        Some(false) => Err(protocol_error("ClientHello host_name is not a DNS name".to_owned())),
        None => Err(protocol_error("ClientHello host_name is not a valid DNS name".to_owned())),
    }
}

/// The host name of a server_name extension, if it lists one.
pub fn parse_server_name(extension: &[u8]) -> (result: Result<Option<String>, TlsError>)
    ensures
        match result {
            Ok(Some(name)) => extension_name(extension@) == Ok::<Option<Seq<char>>, Seq<char>>(Some(name@)),
            Ok(None) => extension_name(extension@) == Ok::<Option<Seq<char>>, Seq<char>>(None),
            Err(error) => extension_name(extension@) matches Err(reason) && error.is_protocol(reason),
        },
{
    let mut reader: Reader = Reader::new(extension);
    let names: &[u8] = match reader.vector_u16("server name list") {
        Ok(names) => names,
        Err(error) => return Err(error),
    };
    if let Err(error) = reader.finish("trailing server_name extension bytes") {
        return Err(error);
    }
    if names.len() == 0 {
        return Err(protocol_error("ClientHello server name list is empty".to_owned()));
    }
    let mut names: Reader = Reader::new(names);
    let mut server_name: Option<String> = None;
    let ghost mut found: Option<Seq<char>> = None;
    while !names.is_empty()
        invariant
            names.wf(),
            found == text_of(server_name),
            extension_name(extension@) == listed_name(names.bytes@, 0, None),
            listed_name(names.bytes@, 0, None) == listed_name(names.bytes@, names.offset as int, found),
        decreases names.bytes@.len() - names.offset,
    {
        let name_type: u8 = match names.u8("server name type") {
            Ok(kind) => kind,
            Err(error) => return Err(error),
        };
        let name: &[u8] = match names.vector_u16("server name") {
            Ok(name) => name,
            Err(error) => return Err(error),
        };
        if name_type == 0 {
            if server_name.is_some() {
                return Err(protocol_error("duplicate ClientHello host_name".to_owned()));
            }
            let text: String = match from_utf8(name) {
                Some(text) => text,
                None => return Err(protocol_error("ClientHello host_name is not UTF-8".to_owned())),
            };
            let kind: Option<bool> = classify_host(text.clone());
            let text: String = match accept_host(text, kind) {
                Ok(text) => text,
                Err(error) => return Err(error),
            };
            proof {
                found = Some(text@);
            }
            server_name = Some(text);
        }
    }
    Ok(server_name)
}

/// Reads fields off a byte string.
pub struct Reader<'a> {
    pub bytes: &'a [u8],
    pub offset: usize,
}

impl<'a> Reader<'a> {
    pub open spec fn wf(&self) -> bool {
        self.offset <= self.bytes@.len()
    }

    pub fn new(bytes: &'a [u8]) -> (reader: Reader<'a>)
        ensures
            reader.wf(),
            reader.bytes == bytes,
            reader.offset == 0,
    {
        Reader { bytes, offset: 0 }
    }

    pub fn is_empty(&self) -> (empty: bool)
        ensures
            empty <==> self.offset == self.bytes@.len(),
    {
        self.offset == self.bytes.len()
    }

    pub fn take(&mut self, len: usize, field: &'static str) -> (result: Result<&'a [u8], TlsError>)
        requires
            old(self).wf(),
        ensures
            final(self).wf(),
            final(self).bytes == old(self).bytes,
            match (result, taken(old(self).bytes@, old(self).offset as int, len as int, field@)) {
                (Ok(value), Ok(end)) => value@ == old(self).bytes@.subrange(old(self).offset as int, end)
                    && final(self).offset == end,
                (Err(error), Err(reason)) => error.is_protocol(reason) && final(self).offset == old(self).offset,
                _ => false,
            },
    {
        let end: usize = match self.offset.checked_add(len) {
            Some(end) => end,
            None => {
                let text: String = join("invalid ClientHello ", field);
                return Err(protocol_error(join(text.as_str(), " length")));
            },
        };
        if end > self.bytes.len() {
            return Err(protocol_error(join("truncated ClientHello ", field)));
        }
        let value: &'a [u8] = slice_subrange(self.bytes, self.offset, end);
        self.offset = end;
        Ok(value)
    }

    pub fn u8(&mut self, field: &'static str) -> (result: Result<u8, TlsError>)
        requires
            old(self).wf(),
        ensures
            final(self).wf(),
            final(self).bytes == old(self).bytes,
            match (result, taken(old(self).bytes@, old(self).offset as int, 1, field@)) {
                (Ok(value), Ok(end)) => value == old(self).bytes@[old(self).offset as int] && final(self).offset
                    == end,
                (Err(error), Err(reason)) => error.is_protocol(reason) && final(self).offset == old(self).offset,
                _ => false,
            },
    {
        match self.take(1, field) {
            Ok(bytes) => Ok(bytes[0]),
            Err(error) => Err(error),
        }
    }

    pub fn u16(&mut self, field: &'static str) -> (result: Result<u16, TlsError>)
        requires
            old(self).wf(),
        ensures
            final(self).wf(),
            final(self).bytes == old(self).bytes,
            match (result, taken(old(self).bytes@, old(self).offset as int, 2, field@)) {
                (Ok(value), Ok(end)) => value == big_endian(old(self).bytes@, old(self).offset as int)
                    && final(self).offset == end,
                (Err(error), Err(reason)) => error.is_protocol(reason) && final(self).offset == old(self).offset,
                _ => false,
            },
    {
        match self.take(2, field) {
            Ok(bytes) => Ok(bytes[0] as u16 * 0x100 + bytes[1] as u16),
            Err(error) => Err(error),
        }
    }

    pub fn vector_u8(&mut self, field: &'static str) -> (result: Result<&'a [u8], TlsError>)
        requires
            old(self).wf(),
        ensures
            final(self).wf(),
            final(self).bytes == old(self).bytes,
            match (result, sized8(old(self).bytes@, old(self).offset as int, field@)) {
                (Ok(value), Ok((start, end))) => value@ == old(self).bytes@.subrange(start, end)
                    && final(self).offset == end,
                (Err(error), Err(reason)) => error.is_protocol(reason) && final(self).offset == match taken(
                    old(self).bytes@,
                    old(self).offset as int,
                    1,
                    field@,
                ) {
                    Ok(start) => start,
                    Err(_) => old(self).offset as int,
                },
                _ => false,
            },
    {
        match self.u8(field) {
            Ok(len) => self.take(len as usize, field),
            Err(error) => Err(error),
        }
    }

    pub fn vector_u16(&mut self, field: &'static str) -> (result: Result<&'a [u8], TlsError>)
        requires
            old(self).wf(),
        ensures
            final(self).wf(),
            final(self).bytes == old(self).bytes,
            match (result, sized16(old(self).bytes@, old(self).offset as int, field@)) {
                (Ok(value), Ok((start, end))) => value@ == old(self).bytes@.subrange(start, end)
                    && final(self).offset == end,
                (Err(error), Err(reason)) => error.is_protocol(reason) && final(self).offset == match taken(
                    old(self).bytes@,
                    old(self).offset as int,
                    2,
                    field@,
                ) {
                    Ok(start) => start,
                    Err(_) => old(self).offset as int,
                },
                _ => false,
            },
    {
        match self.u16(field) {
            Ok(len) => self.take(len as usize, field),
            Err(error) => Err(error),
        }
    }

    pub fn finish(&self, message: &'static str) -> (result: Result<(), TlsError>)
        ensures
            match result {
                Ok(()) => self.offset == self.bytes@.len(),
                Err(error) => self.offset != self.bytes@.len() && error.is_protocol(message@),
            },
    {
        if self.is_empty() {
            Ok(())
        } else {
            Err(protocol_error(message.to_owned()))
        }
    }
}

pub fn protocol_error(reason: String) -> (error: TlsError)
    ensures
        error.is_protocol(reason@),
        error == TlsError::Peer(PeerTlsError::Protocol(reason)),
{
    TlsError::Peer(PeerTlsError::Protocol(reason))
}

pub fn resource_limit(limit: usize) -> (error: TlsError)
    ensures
        error.is_limit("ClientHello bytes"@, limit),
{
    TlsError::Peer(PeerTlsError::ResourceLimit { resource: "ClientHello bytes", limit })
}

/// Every proper prefix of a complete ClientHello is merely incomplete.
pub proof fn prefix_of_client_hello_is_incomplete(bytes: Seq<u8>, end: int, max_bytes: usize)
    requires
        hello(bytes, max_bytes) matches Ok(Some(_)),
        0 <= end < bytes.len(),
    ensures
        hello(bytes.take(end), max_bytes) == Ok::<Option<HelloView>, HelloFault>(None),
{
}

/// What is found keeps the exact bytes it was read from.
pub proof fn client_hello_is_preserved(bytes: Seq<u8>, max_bytes: usize)
    ensures
        hello(bytes, max_bytes) matches Ok(Some(view)) ==> view.whole == bytes && bytes.len() <= max_bytes,
{
}

/// A list that is preceded by its length in one byte.
pub open spec fn with_len8(list: Seq<u8>) -> Seq<u8> {
    seq![list.len() as u8] + list
}

/// A list that is preceded by its length in two bytes, the higher first.
pub open spec fn with_len16(list: Seq<u8>) -> Seq<u8> {
    seq![(list.len() / 256) as u8, (list.len() % 256) as u8] + list
}

/// An extension: its type in two bytes, and its content with its length.
pub open spec fn extension(kind: u16, content: Seq<u8>) -> Seq<u8> {
    seq![(kind / 256) as u8, (kind % 256) as u8] + with_len16(content)
}

proof fn lemma_sized16(bytes: Seq<u8>, at: int, list: Seq<u8>, field: Seq<char>)
    requires
        0 <= at,
        list.len() <= 0xffff,
        at + 2 + list.len() <= bytes.len() <= usize::MAX,
        bytes.subrange(at, at + 2 + list.len()) == with_len16(list),
    ensures
        sized16(bytes, at, field) == Ok::<(int, int), Seq<char>>((at + 2, at + 2 + list.len())),
        bytes.subrange(at + 2, at + 2 + list.len()) == list,
{
    let whole = bytes.subrange(at, at + 2 + list.len());
    assert(whole[0] == bytes[at]);
    assert(whole[1] == bytes[at + 1]);
    assert(big_endian(bytes, at) == list.len());
    assert forall|i: int| 0 <= i < list.len() implies bytes[at + 2 + i] == list[i] by {
        assert(whole[2 + i] == list[i]);
    }
    assert(bytes.subrange(at + 2, at + 2 + list.len()) =~= list);
}

proof fn lemma_sized8(bytes: Seq<u8>, at: int, list: Seq<u8>, field: Seq<char>)
    requires
        0 <= at,
        list.len() <= 0xff,
        at + 1 + list.len() <= bytes.len() <= usize::MAX,
        bytes.subrange(at, at + 1 + list.len()) == with_len8(list),
    ensures
        sized8(bytes, at, field) == Ok::<(int, int), Seq<char>>((at + 1, at + 1 + list.len())),
{
    let whole = bytes.subrange(at, at + 1 + list.len());
    assert(whole[0] == bytes[at]);
}

/// The extensions of a ClientHello are found behind its version, its random bytes, its session ID, its cipher
/// suites and its compression methods, whatever these are: the message is read as its extensions say. Without
/// transport parameters among them it is refused.
pub proof fn extensions_of_a_client_hello_are_found(
    version: Seq<u8>,
    random: Seq<u8>,
    session: Seq<u8>,
    suites: Seq<u8>,
    methods: Seq<u8>,
    extensions: Seq<u8>,
    max_bytes: usize,
)
    requires
        version.len() == 2,
        random.len() == 32,
        session.len() <= 255,
        0 < suites.len() <= 0xffff,
        suites.len() % 2 == 0,
        0 < methods.len() <= 255,
        extensions.len() <= 0xffff,
    ensures
        ({
            let body = version + random + with_len8(session) + with_len16(suites) + with_len8(methods) + with_len16(
                extensions,
            );
            let whole = seq![
                1u8,
                (body.len() / 0x1_0000) as u8,
                (body.len() / 0x100 % 0x100) as u8,
                (body.len() % 0x100) as u8,
            ] + body;
            hello(whole, max_bytes) == if whole.len() > max_bytes {
                Err::<Option<HelloView>, HelloFault>(HelloFault::Limit)
            } else {
                match extension_facts(extensions, 0, Facts { saw_name: false, name: None, parameters: None }) {
                    Err(reason) => Err(HelloFault::Protocol(reason)),
                    Ok(facts) => match facts.parameters {
                        None => Err(
                            HelloFault::Protocol("ClientHello is missing QUIC transport parameters"@),
                        ),
                        Some(parameters) => Ok(Some(HelloView { name: facts.name, parameters, whole })),
                    },
                }
            }
        }),
{
    let body = version + random + with_len8(session) + with_len16(suites) + with_len8(methods) + with_len16(extensions);
    let whole = seq![
        1u8,
        (body.len() / 0x1_0000) as u8,
        (body.len() / 0x100 % 0x100) as u8,
        (body.len() % 0x100) as u8,
    ] + body;
    lemma_body_is_read(version, random, session, suites, methods, extensions);
    lemma_message_len(body);
    assert(whole.skip(4) =~= body);
    assert(whole[0] == 1u8);
}

proof fn lemma_between(before: Seq<u8>, part: Seq<u8>, after: Seq<u8>)
    ensures
        (before + part + after).subrange(before.len() as int, (before.len() + part.len()) as int) == part,
{
    assert((before + part + after).subrange(before.len() as int, (before.len() + part.len()) as int) =~= part);
}

proof fn lemma_message_len(body: Seq<u8>)
    requires
        body.len() < 0x100_0000,
    ensures
        message_len(
            seq![
                1u8,
                (body.len() / 0x1_0000) as u8,
                (body.len() / 0x100 % 0x100) as u8,
                (body.len() % 0x100) as u8,
            ] + body,
        ) == 4 + body.len(),
{
    let len = body.len() as int;
    let head = seq![1u8, (body.len() / 0x1_0000) as u8, (body.len() / 0x100 % 0x100) as u8, (body.len() % 0x100) as u8];
    let whole = head + body;
    assert(whole[1] == head[1] && whole[2] == head[2] && whole[3] == head[3]);
    assert(len / 0x1_0000 * 0x1_0000 + len / 0x100 % 0x100 * 0x100 + len % 0x100 == len);
}

proof fn lemma_body_is_read(
    version: Seq<u8>,
    random: Seq<u8>,
    session: Seq<u8>,
    suites: Seq<u8>,
    methods: Seq<u8>,
    extensions: Seq<u8>,
)
    requires
        version.len() == 2,
        random.len() == 32,
        session.len() <= 255,
        0 < suites.len() <= 0xffff,
        suites.len() % 2 == 0,
        0 < methods.len() <= 255,
        extensions.len() <= 0xffff,
    ensures
        ({
            let body = version + random + with_len8(session) + with_len16(suites) + with_len8(methods) + with_len16(
                extensions,
            );
            &&& body.len() == 34 + 1 + session.len() + 2 + suites.len() + 1 + methods.len() + 2 + extensions.len()
            &&& extensions_of(body) == Ok::<(int, int), Seq<char>>(
                (body.len() - extensions.len(), body.len() as int),
            )
            &&& body.subrange(body.len() - extensions.len(), body.len() as int) == extensions
        }),
{
    let front = version + random;
    let to_suites = front + with_len8(session);
    let to_methods = to_suites + with_len16(suites);
    let to_extensions = to_methods + with_len8(methods);
    let body = to_extensions + with_len16(extensions);
    let none = Seq::<u8>::empty();
    assert(body =~= front + with_len8(session) + (with_len16(suites) + with_len8(methods) + with_len16(extensions)));
    lemma_between(front, with_len8(session), with_len16(suites) + with_len8(methods) + with_len16(extensions));
    assert(body =~= to_suites + with_len16(suites) + (with_len8(methods) + with_len16(extensions)));
    lemma_between(to_suites, with_len16(suites), with_len8(methods) + with_len16(extensions));
    lemma_between(to_methods, with_len8(methods), with_len16(extensions));
    assert(body =~= to_extensions + with_len16(extensions) + none);
    lemma_between(to_extensions, with_len16(extensions), none);
    lemma_sized8(body, 34, session, "legacy session ID"@);
    lemma_sized16(body, to_suites.len() as int, suites, "cipher suites"@);
    lemma_sized8(body, to_methods.len() as int, methods, "legacy compression methods"@);
    lemma_sized16(body, to_extensions.len() as int, extensions, "extensions"@);
    assert(taken(body, 0, 2, "legacy version"@) == Ok::<int, Seq<char>>(2));
    assert(taken(body, 2, 32, "random"@) == Ok::<int, Seq<char>>(34));
}

/// Each extension is read after the other. Type 0 is the server name, type 0x39 the transport parameters; each
/// of the two may come once. Any other extension is passed over.
pub proof fn extensions_are_read_in_turn(before: Seq<u8>, kind: u16, content: Seq<u8>, rest: Seq<u8>, facts: Facts)
    requires
        content.len() <= 0xffff,
        before.len() + 4 + content.len() + rest.len() <= usize::MAX,
    ensures
        ({
            let extensions = before + extension(kind, content) + rest;
            let next = before.len() + 4 + content.len();
            extension_facts(extensions, before.len() as int, facts) == if kind == 0 {
                if facts.saw_name {
                    Err::<Facts, Seq<char>>("duplicate ClientHello server_name extension"@)
                } else {
                    match extension_name(content) {
                        Err(reason) => Err(reason),
                        Ok(name) => extension_facts(
                            extensions,
                            next as int,
                            Facts { saw_name: true, name, parameters: facts.parameters },
                        ),
                    }
                }
            } else if kind == 0x39 {
                if facts.parameters is Some {
                    Err("duplicate QUIC transport parameters extension"@)
                } else {
                    extension_facts(
                        extensions,
                        next as int,
                        Facts { saw_name: facts.saw_name, name: facts.name, parameters: Some(content) },
                    )
                }
            } else {
                extension_facts(extensions, next as int, facts)
            }
        }),
        extension_facts(before, before.len() as int, facts) == Ok::<Facts, Seq<char>>(facts),
{
    let extensions = before + extension(kind, content) + rest;
    let at = before.len() as int;
    assert(extensions.subrange(at + 2, at + 4 + content.len()) =~= with_len16(content));
    lemma_sized16(extensions, at + 2, content, "extension"@);
    assert(extensions[at] == (kind / 256) as u8);
    assert(extensions[at + 1] == (kind % 256) as u8);
    assert(big_endian(extensions, at) == kind);
}

/// A server name extension with one host name is read as that name, if that is text and a DNS name, and
/// refused otherwise.
pub proof fn host_name_is_read_back(host: Seq<u8>)
    requires
        host.len() <= 0xfff0,
    ensures
        ({
            let extension = with_len16(seq![0u8] + with_len16(host));
            &&& valid_utf8(host) && host_kind(decode_utf8(host)) == Some(true) ==> extension_name(extension)
                == Ok::<Option<Seq<char>>, Seq<char>>(Some(decode_utf8(host)))
            &&& !(valid_utf8(host) && host_kind(decode_utf8(host)) == Some(true)) ==> extension_name(extension) is Err
        }),
{
    let list = seq![0u8] + with_len16(host);
    let extension = with_len16(list);
    assert(extension.subrange(0, (2 + list.len()) as int) =~= extension);
    lemma_sized16(extension, 0, list, "server name list"@);
    assert(list.subrange(1, (3 + host.len()) as int) =~= with_len16(host));
    lemma_sized16(list, 1, host, "server name"@);
    assert(list[0] == 0);
    assert(listed_name(list, list.len() as int, Some(decode_utf8(host))) == Ok::<Option<Seq<char>>, Seq<char>>(
        Some(decode_utf8(host)),
    ));
}

/// A ClientHello with a server name and transport parameters is read as these.
pub proof fn client_hello_is_read_back(
    version: Seq<u8>,
    random: Seq<u8>,
    session: Seq<u8>,
    suites: Seq<u8>,
    methods: Seq<u8>,
    host: Seq<u8>,
    parameters: Seq<u8>,
    max_bytes: usize,
)
    requires
        version.len() == 2,
        random.len() == 32,
        session.len() <= 255,
        0 < suites.len() <= 0xffff,
        suites.len() % 2 == 0,
        0 < methods.len() <= 255,
        host.len() + parameters.len() <= 0xff00,
        valid_utf8(host),
        host_kind(decode_utf8(host)) == Some(true),
    ensures
        ({
            let extensions = extension(0, with_len16(seq![0u8] + with_len16(host))) + extension(0x39, parameters);
            let body = version + random + with_len8(session) + with_len16(suites) + with_len8(methods) + with_len16(
                extensions,
            );
            let whole = seq![
                1u8,
                (body.len() / 0x1_0000) as u8,
                (body.len() / 0x100 % 0x100) as u8,
                (body.len() % 0x100) as u8,
            ] + body;
            whole.len() <= max_bytes ==> hello(whole, max_bytes) == Ok::<Option<HelloView>, HelloFault>(
                Some(HelloView { name: Some(decode_utf8(host)), parameters, whole }),
            )
        }),
{
    let named = with_len16(seq![0u8] + with_len16(host));
    let first = extension(0, named);
    let second = extension(0x39, parameters);
    let extensions = first + second;
    let facts = Facts { saw_name: false, name: None, parameters: None };
    let known = Facts { saw_name: true, name: Some(decode_utf8(host)), parameters: None };
    host_name_is_read_back(host);
    assert(Seq::<u8>::empty() + first + second =~= extensions);
    extensions_are_read_in_turn(Seq::empty(), 0, named, second, facts);
    assert(first + second + Seq::<u8>::empty() =~= extensions);
    extensions_are_read_in_turn(first, 0x39, parameters, Seq::empty(), known);
    extensions_are_read_in_turn(extensions, 0, named, second, Facts { parameters: Some(parameters), ..known });
    extensions_of_a_client_hello_are_found(version, random, session, suites, methods, extensions, max_bytes);
}

/// Extensions are found only in a message of the right form: a version, random bytes, a session ID, cipher
/// suites of which there is one at least, compression methods of which there is one at least, then the
/// extensions, and nothing behind them.
pub proof fn only_a_whole_message_has_extensions(body: Seq<u8>) -> (parts: (
    Seq<u8>,
    Seq<u8>,
    Seq<u8>,
    Seq<u8>,
    Seq<u8>,
    Seq<u8>,
))
    requires
        extensions_of(body) is Ok,
    ensures
        body == parts.0 + parts.1 + with_len8(parts.2) + with_len16(parts.3) + with_len8(parts.4) + with_len16(parts.5),
        parts.0.len() == 2,
        parts.1.len() == 32,
        parts.2.len() <= 255,
        0 < parts.3.len() <= 0xffff,
        parts.3.len() % 2 == 0,
        0 < parts.4.len() <= 255,
        parts.5.len() <= 0xffff,
{
    let (start, end) = extensions_of(body)->Ok_0;
    let at_session = 34int;
    let at_suites = at_session + 1 + body[at_session];
    let suites = big_endian(body, at_suites);
    let at_methods = at_suites + 2 + suites;
    let at_extensions = at_methods + 1 + body[at_methods];
    let version = body.subrange(0, 2);
    let random = body.subrange(2, 34);
    let session = body.subrange(at_session + 1, at_suites);
    let listed = body.subrange(at_suites + 2, at_methods);
    let methods = body.subrange(at_methods + 1, at_extensions);
    let extensions = body.subrange(at_extensions + 2, body.len() as int);
    assert(big_endian(body, at_extensions) == extensions.len());
    assert(with_len8(session) =~= body.subrange(at_session, at_suites));
    assert(with_len16(listed) =~= body.subrange(at_suites, at_methods));
    assert(with_len8(methods) =~= body.subrange(at_methods, at_extensions));
    assert(with_len16(extensions) =~= body.subrange(at_extensions, body.len() as int));
    assert(version + random =~= body.take(34));
    assert(version + random + with_len8(session) =~= body.take(at_suites));
    assert(version + random + with_len8(session) + with_len16(listed) =~= body.take(at_methods));
    assert(version + random + with_len8(session) + with_len16(listed) + with_len8(methods) =~= body.take(at_extensions));
    assert(version + random + with_len8(session) + with_len16(listed) + with_len8(methods) + with_len16(extensions)
        =~= body);
    (version, random, session, listed, methods, extensions)
}

/// What came first on a connection is a ClientHello of the length it declares, or waits to become one, or is
/// refused: where it or its declared length passes the limit, where it is another message, and where something
/// follows it.
pub proof fn client_hello_comes_first_and_alone(bytes: Seq<u8>, max_bytes: usize)
    requires
        bytes.len() <= usize::MAX,
    ensures
        ({
            let declared = 4 + bytes[1] * 0x1_0000 + bytes[2] * 0x100 + bytes[3];
            let outcome = hello(bytes, max_bytes);
            &&& outcome == Err::<Option<HelloView>, HelloFault>(HelloFault::Limit) <==> bytes.len() > max_bytes || (
            bytes.len() >= 4 && bytes[0] == 1 && declared > max_bytes)
            &&& outcome == Ok::<Option<HelloView>, HelloFault>(None) <==> bytes.len() <= max_bytes && (bytes.len() < 4
                || (bytes[0] == 1 && declared <= max_bytes && bytes.len() < declared))
            &&& outcome matches Ok(Some(_)) ==> bytes[0] == 1 && bytes.len() == declared
        }),
{
}

/// What is read of a ClientHello is all that was found in it.
pub proof fn hellos_are_read_as_they_are(found: ClientHello)
    ensures
        found.view().parameters == contents(found.parameters),
        found.view().whole == contents(found.whole),
        found.name is None <==> found.view().name is None,
        found.name matches Some(name) ==> found.view().name == Some(name@),
{
}

/// The names in a server name list are read one after the other: host names are of type 0, of which there may be
/// one; names of other types are passed over.
pub proof fn server_names_are_read_in_turn(
    before: Seq<u8>,
    kind: u8,
    name: Seq<u8>,
    rest: Seq<u8>,
    found: Option<Seq<char>>,
)
    requires
        name.len() <= 0xffff,
        before.len() + 3 + name.len() + rest.len() <= usize::MAX,
    ensures
        ({
            let list = before + seq![kind] + with_len16(name) + rest;
            let next = before.len() + 3 + name.len();
            listed_name(list, before.len() as int, found) == if kind != 0 {
                listed_name(list, next as int, found)
            } else if found is Some {
                Err::<Option<Seq<char>>, Seq<char>>("duplicate ClientHello host_name"@)
            } else {
                match host_name(name) {
                    Err(reason) => Err(reason),
                    Ok(host) => listed_name(list, next as int, Some(host)),
                }
            }
        }),
        listed_name(before, before.len() as int, found) == Ok::<Option<Seq<char>>, Seq<char>>(found),
{
    let list = before + seq![kind] + with_len16(name) + rest;
    let at = before.len() as int;
    assert(list[at] == kind);
    assert(list.subrange(at + 1, at + 3 + name.len()) =~= with_len16(name));
    lemma_sized16(list, at + 1, name, "server name"@);
}

/// A server name extension is a list of names with its length, and nothing behind it; an empty list is refused.
pub proof fn server_name_extension_is_one_list(list: Seq<u8>, extra: Seq<u8>)
    requires
        list.len() <= 0xffff,
        list.len() + extra.len() < 0x1_0000_0000,
        usize::MAX >= 0xffff_ffff,
    ensures
        extra.len() > 0 ==> extension_name(with_len16(list) + extra) is Err,
        extra.len() == 0 && list.len() == 0 ==> extension_name(with_len16(list) + extra) is Err,
        extra.len() == 0 && list.len() > 0 ==> extension_name(with_len16(list) + extra) == listed_name(list, 0, None),
        valid_utf8(list) && host_kind(decode_utf8(list)) == Some(true) ==> host_name(list) == Ok::<
            Seq<char>,
            Seq<char>,
        >(decode_utf8(list)),
        !valid_utf8(list) || host_kind(decode_utf8(list)) != Some(true) ==> host_name(list) is Err,
{
    let whole = with_len16(list) + extra;
    assert(whole.subrange(0, (2 + list.len()) as int) =~= with_len16(list));
    if whole.len() <= usize::MAX {
        lemma_sized16(whole, 0, list, "server name list"@);
    }
}

} // verus!

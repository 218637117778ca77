use std::sync::{Arc, Mutex};

use dquic::authority::{
    certificate_name, extract_public_key, pick_name, InvalidLocalAuthority, LocalAuthority,
    NameFault, RemoteAuthority, SignError,
};
use dquic::certificates::{
    authority_within_limits, validate_peer_limits, CertificateError, ClientVerifier,
    FixedServerCert, OptionalClientCert, ServerVerifier,
};
use dquic::handshake::{
    AuthorityState, HandshakeState, HandshakeSummary, InstalledKeys, OneRttKeyMaterial, Role, TlsEvent,
    TlsHandshake, TlsLimits,
};
use dquic::incoming::{accept_host, client_hello as read_client_hello, parse_server_name, Reader};
use dquic::ocsp::{algorithm_identifier_value, verify, AlgorithmDer};
use dquic::root::{RootCerts, RootCertsSnapshot};
use dquic::tls_error::{CryptoLevel, PeerTlsError, TlsConfigError, TlsError};
use rustls::client::danger::{HandshakeSignatureValid, ServerCertVerified, ServerCertVerifier};
use rustls::pki_types::{CertificateDer, PrivateKeyDer, PrivatePkcs8KeyDer, ServerName, UnixTime};
use rustls::server::danger::{ClientCertVerified, ClientCertVerifier};
use rustls::{DigitallySignedStruct, DistinguishedName, SignatureScheme};

const VALID: u64 = 1_800_000_000;

const ROOT: [u8; 284] = [
    0x30, 0x82, 0x01, 0x18, 0x30, 0x81, 0xcb, 0xa0, 0x03, 0x02, 0x01, 0x02, 0x02, 0x01, 0x01, 0x30,
    0x05, 0x06, 0x03, 0x2b, 0x65, 0x70, 0x30, 0x14, 0x31, 0x12, 0x30, 0x10, 0x06, 0x03, 0x55, 0x04,
    0x03, 0x0c, 0x09, 0x54, 0x65, 0x73, 0x74, 0x20, 0x52, 0x6f, 0x6f, 0x74, 0x30, 0x1e, 0x17, 0x0d,
    0x32, 0x36, 0x31, 0x31, 0x31, 0x35, 0x31, 0x35, 0x35, 0x37, 0x34, 0x39, 0x5a, 0x17, 0x0d, 0x34,
    0x36, 0x30, 0x31, 0x31, 0x34, 0x31, 0x35, 0x35, 0x37, 0x34, 0x39, 0x5a, 0x30, 0x14, 0x31, 0x12,
    0x30, 0x10, 0x06, 0x03, 0x55, 0x04, 0x03, 0x0c, 0x09, 0x54, 0x65, 0x73, 0x74, 0x20, 0x52, 0x6f,
    0x6f, 0x74, 0x30, 0x2a, 0x30, 0x05, 0x06, 0x03, 0x2b, 0x65, 0x70, 0x03, 0x21, 0x00, 0xfd, 0x17,
    0x24, 0x38, 0x5a, 0xa0, 0xc7, 0x5b, 0x64, 0xfb, 0x78, 0xcd, 0x60, 0x2f, 0xa1, 0xd9, 0x91, 0xfd,
    0xeb, 0xf7, 0x6b, 0x13, 0xc5, 0x8e, 0xd7, 0x02, 0xea, 0xc8, 0x35, 0xe9, 0xf6, 0x18, 0xa3, 0x42,
    0x30, 0x40, 0x30, 0x0f, 0x06, 0x03, 0x55, 0x1d, 0x13, 0x01, 0x01, 0xff, 0x04, 0x05, 0x30, 0x03,
    0x01, 0x01, 0xff, 0x30, 0x0e, 0x06, 0x03, 0x55, 0x1d, 0x0f, 0x01, 0x01, 0xff, 0x04, 0x04, 0x03,
    0x02, 0x01, 0x06, 0x30, 0x1d, 0x06, 0x03, 0x55, 0x1d, 0x0e, 0x04, 0x16, 0x04, 0x14, 0x5e, 0x07,
    0x45, 0x47, 0x21, 0x80, 0xb1, 0xac, 0x3b, 0xff, 0x72, 0x11, 0xf8, 0x46, 0x53, 0x6c, 0xe6, 0xc9,
    0x0a, 0x94, 0x30, 0x05, 0x06, 0x03, 0x2b, 0x65, 0x70, 0x03, 0x41, 0x00, 0xd6, 0x51, 0xea, 0x2c,
    0x93, 0x16, 0x1a, 0x70, 0x71, 0x7c, 0x0d, 0x9e, 0xac, 0x4c, 0x50, 0xe1, 0xfc, 0x3e, 0x49, 0xc8,
    0xa1, 0xee, 0xdb, 0xf1, 0xdc, 0xd1, 0xb7, 0x0d, 0x43, 0x0b, 0x63, 0xf7, 0x80, 0x5e, 0x45, 0xda,
    0x29, 0xbb, 0x98, 0x3a, 0x8e, 0xcb, 0xc8, 0xbe, 0x95, 0x8b, 0x7f, 0x3d, 0x15, 0x00, 0x3c, 0xf2,
    0x83, 0x26, 0xbf, 0x96, 0x24, 0x73, 0xc3, 0xe9, 0x55, 0x2b, 0x5c, 0x05,
];

const LEAF: [u8; 386] = [
    0x30, 0x82, 0x01, 0x7e, 0x30, 0x82, 0x01, 0x30, 0xa0, 0x03, 0x02, 0x01, 0x02, 0x02, 0x01, 0x02,
    0x30, 0x05, 0x06, 0x03, 0x2b, 0x65, 0x70, 0x30, 0x14, 0x31, 0x12, 0x30, 0x10, 0x06, 0x03, 0x55,
    0x04, 0x03, 0x0c, 0x09, 0x54, 0x65, 0x73, 0x74, 0x20, 0x52, 0x6f, 0x6f, 0x74, 0x30, 0x1e, 0x17,
    0x0d, 0x32, 0x36, 0x31, 0x31, 0x31, 0x35, 0x31, 0x35, 0x35, 0x37, 0x34, 0x39, 0x5a, 0x17, 0x0d,
    0x34, 0x36, 0x30, 0x31, 0x31, 0x34, 0x31, 0x35, 0x35, 0x37, 0x34, 0x39, 0x5a, 0x30, 0x0f, 0x31,
    0x0d, 0x30, 0x0b, 0x06, 0x03, 0x55, 0x04, 0x03, 0x0c, 0x04, 0x6c, 0x65, 0x61, 0x66, 0x30, 0x2a,
    0x30, 0x05, 0x06, 0x03, 0x2b, 0x65, 0x70, 0x03, 0x21, 0x00, 0xea, 0x4a, 0x6c, 0x63, 0xe2, 0x9c,
    0x52, 0x0a, 0xbe, 0xf5, 0x50, 0x7b, 0x13, 0x2e, 0xc5, 0xf9, 0x95, 0x47, 0x76, 0xae, 0xbe, 0xbe,
    0x7b, 0x92, 0x42, 0x1e, 0xea, 0x69, 0x14, 0x46, 0xd2, 0x2c, 0xa3, 0x81, 0xab, 0x30, 0x81, 0xa8,
    0x30, 0x0c, 0x06, 0x03, 0x55, 0x1d, 0x13, 0x01, 0x01, 0xff, 0x04, 0x02, 0x30, 0x00, 0x30, 0x0e,
    0x06, 0x03, 0x55, 0x1d, 0x0f, 0x01, 0x01, 0xff, 0x04, 0x04, 0x03, 0x02, 0x07, 0x80, 0x30, 0x1d,
    0x06, 0x03, 0x55, 0x1d, 0x25, 0x04, 0x16, 0x30, 0x14, 0x06, 0x08, 0x2b, 0x06, 0x01, 0x05, 0x05,
    0x07, 0x03, 0x01, 0x06, 0x08, 0x2b, 0x06, 0x01, 0x05, 0x05, 0x07, 0x03, 0x02, 0x30, 0x29, 0x06,
    0x03, 0x55, 0x1d, 0x11, 0x04, 0x22, 0x30, 0x20, 0x87, 0x04, 0x7f, 0x00, 0x00, 0x01, 0x82, 0x09,
    0x6c, 0x6f, 0x63, 0x61, 0x6c, 0x68, 0x6f, 0x73, 0x74, 0x82, 0x0d, 0x6f, 0x74, 0x68, 0x65, 0x72,
    0x2e, 0x65, 0x78, 0x61, 0x6d, 0x70, 0x6c, 0x65, 0x30, 0x1d, 0x06, 0x03, 0x55, 0x1d, 0x0e, 0x04,
    0x16, 0x04, 0x14, 0x4c, 0x5e, 0xce, 0x40, 0x23, 0xa0, 0x34, 0x1e, 0xe2, 0xac, 0xff, 0xcc, 0x4d,
    0x17, 0x15, 0x4a, 0x85, 0x4f, 0x02, 0xe5, 0x30, 0x1f, 0x06, 0x03, 0x55, 0x1d, 0x23, 0x04, 0x18,
    0x30, 0x16, 0x80, 0x14, 0x5e, 0x07, 0x45, 0x47, 0x21, 0x80, 0xb1, 0xac, 0x3b, 0xff, 0x72, 0x11,
    0xf8, 0x46, 0x53, 0x6c, 0xe6, 0xc9, 0x0a, 0x94, 0x30, 0x05, 0x06, 0x03, 0x2b, 0x65, 0x70, 0x03,
    0x41, 0x00, 0x75, 0xfa, 0xb3, 0xe8, 0x0b, 0x8d, 0x6f, 0xb8, 0xc3, 0x8d, 0xa2, 0x90, 0xa5, 0xed,
    0x38, 0xb6, 0x2f, 0xdb, 0x85, 0x55, 0xa4, 0xfa, 0x77, 0xae, 0x98, 0x9d, 0x7f, 0x98, 0x45, 0xe2,
    0x27, 0x40, 0x02, 0x01, 0xc8, 0x90, 0xab, 0x75, 0x69, 0x95, 0xf7, 0xf4, 0xec, 0xfe, 0x47, 0x0f,
    0xd6, 0x76, 0x52, 0x59, 0x7e, 0x21, 0xb7, 0x05, 0xc6, 0x2c, 0xee, 0x6f, 0x00, 0x8a, 0xeb, 0x24,
    0xe7, 0x07,
];

const NAMELESS: [u8; 341] = [
    0x30, 0x82, 0x01, 0x51, 0x30, 0x82, 0x01, 0x03, 0xa0, 0x03, 0x02, 0x01, 0x02, 0x02, 0x01, 0x03,
    0x30, 0x05, 0x06, 0x03, 0x2b, 0x65, 0x70, 0x30, 0x14, 0x31, 0x12, 0x30, 0x10, 0x06, 0x03, 0x55,
    0x04, 0x03, 0x0c, 0x09, 0x54, 0x65, 0x73, 0x74, 0x20, 0x52, 0x6f, 0x6f, 0x74, 0x30, 0x1e, 0x17,
    0x0d, 0x32, 0x36, 0x31, 0x31, 0x31, 0x35, 0x31, 0x35, 0x35, 0x37, 0x34, 0x39, 0x5a, 0x17, 0x0d,
    0x34, 0x36, 0x30, 0x31, 0x31, 0x34, 0x31, 0x35, 0x35, 0x37, 0x34, 0x39, 0x5a, 0x30, 0x0f, 0x31,
    0x0d, 0x30, 0x0b, 0x06, 0x03, 0x55, 0x04, 0x03, 0x0c, 0x04, 0x6c, 0x65, 0x61, 0x66, 0x30, 0x2a,
    0x30, 0x05, 0x06, 0x03, 0x2b, 0x65, 0x70, 0x03, 0x21, 0x00, 0xea, 0x4a, 0x6c, 0x63, 0xe2, 0x9c,
    0x52, 0x0a, 0xbe, 0xf5, 0x50, 0x7b, 0x13, 0x2e, 0xc5, 0xf9, 0x95, 0x47, 0x76, 0xae, 0xbe, 0xbe,
    0x7b, 0x92, 0x42, 0x1e, 0xea, 0x69, 0x14, 0x46, 0xd2, 0x2c, 0xa3, 0x7f, 0x30, 0x7d, 0x30, 0x0c,
    0x06, 0x03, 0x55, 0x1d, 0x13, 0x01, 0x01, 0xff, 0x04, 0x02, 0x30, 0x00, 0x30, 0x0e, 0x06, 0x03,
    0x55, 0x1d, 0x0f, 0x01, 0x01, 0xff, 0x04, 0x04, 0x03, 0x02, 0x07, 0x80, 0x30, 0x1d, 0x06, 0x03,
    0x55, 0x1d, 0x25, 0x04, 0x16, 0x30, 0x14, 0x06, 0x08, 0x2b, 0x06, 0x01, 0x05, 0x05, 0x07, 0x03,
    0x01, 0x06, 0x08, 0x2b, 0x06, 0x01, 0x05, 0x05, 0x07, 0x03, 0x02, 0x30, 0x1d, 0x06, 0x03, 0x55,
    0x1d, 0x0e, 0x04, 0x16, 0x04, 0x14, 0x4c, 0x5e, 0xce, 0x40, 0x23, 0xa0, 0x34, 0x1e, 0xe2, 0xac,
    0xff, 0xcc, 0x4d, 0x17, 0x15, 0x4a, 0x85, 0x4f, 0x02, 0xe5, 0x30, 0x1f, 0x06, 0x03, 0x55, 0x1d,
    0x23, 0x04, 0x18, 0x30, 0x16, 0x80, 0x14, 0x5e, 0x07, 0x45, 0x47, 0x21, 0x80, 0xb1, 0xac, 0x3b,
    0xff, 0x72, 0x11, 0xf8, 0x46, 0x53, 0x6c, 0xe6, 0xc9, 0x0a, 0x94, 0x30, 0x05, 0x06, 0x03, 0x2b,
    0x65, 0x70, 0x03, 0x41, 0x00, 0xff, 0x7a, 0x42, 0x2c, 0xb2, 0x90, 0x6f, 0xae, 0xfb, 0x13, 0x22,
    0x1d, 0xee, 0xd1, 0x2f, 0xd7, 0x08, 0x48, 0xd4, 0xad, 0x9e, 0xcc, 0xd5, 0xc7, 0x43, 0x89, 0x80,
    0xe0, 0x4e, 0xdf, 0x4a, 0xf1, 0xe4, 0x77, 0xae, 0xd3, 0xcf, 0x14, 0xe5, 0x37, 0xfe, 0x03, 0x11,
    0x02, 0x2d, 0x98, 0x45, 0xc8, 0xc7, 0xfe, 0x78, 0x8d, 0x5b, 0xee, 0x8a, 0xe9, 0x64, 0x13, 0x1e,
    0x57, 0x35, 0x5b, 0x81, 0x07,
];

/// The root says that the leaf is good.
const RESPONSE: [u8; 249] = [
    0x30, 0x81, 0xf6, 0x0a, 0x01, 0x00, 0xa0, 0x81, 0xf0, 0x30, 0x81, 0xed, 0x06, 0x09, 0x2b, 0x06,
    0x01, 0x05, 0x05, 0x07, 0x30, 0x01, 0x01, 0x04, 0x81, 0xdf, 0x30, 0x81, 0xdc, 0x30, 0x81, 0x8f,
    0xa1, 0x16, 0x30, 0x14, 0x31, 0x12, 0x30, 0x10, 0x06, 0x03, 0x55, 0x04, 0x03, 0x0c, 0x09, 0x54,
    0x65, 0x73, 0x74, 0x20, 0x52, 0x6f, 0x6f, 0x74, 0x18, 0x0f, 0x32, 0x30, 0x32, 0x36, 0x31, 0x31,
    0x31, 0x35, 0x31, 0x38, 0x34, 0x31, 0x31, 0x33, 0x5a, 0x30, 0x64, 0x30, 0x62, 0x30, 0x3a, 0x30,
    0x09, 0x06, 0x05, 0x2b, 0x0e, 0x03, 0x02, 0x1a, 0x05, 0x00, 0x04, 0x14, 0x41, 0x06, 0x8b, 0x40,
    0x79, 0x43, 0x32, 0xce, 0x2e, 0x14, 0xbd, 0xc6, 0x0b, 0x9d, 0x21, 0xb0, 0xf8, 0x67, 0x46, 0xfd,
    0x04, 0x14, 0x5e, 0x07, 0x45, 0x47, 0x21, 0x80, 0xb1, 0xac, 0x3b, 0xff, 0x72, 0x11, 0xf8, 0x46,
    0x53, 0x6c, 0xe6, 0xc9, 0x0a, 0x94, 0x02, 0x01, 0x02, 0x80, 0x00, 0x18, 0x0f, 0x32, 0x30, 0x32,
    0x36, 0x31, 0x31, 0x31, 0x35, 0x31, 0x38, 0x34, 0x31, 0x31, 0x33, 0x5a, 0xa0, 0x11, 0x18, 0x0f,
    0x32, 0x30, 0x33, 0x35, 0x30, 0x32, 0x30, 0x31, 0x31, 0x38, 0x34, 0x31, 0x31, 0x33, 0x5a, 0x30,
    0x05, 0x06, 0x03, 0x2b, 0x65, 0x70, 0x03, 0x41, 0x00, 0x12, 0x3a, 0x88, 0x76, 0xdc, 0x28, 0xbd,
    0x10, 0x19, 0xc8, 0x30, 0x62, 0x25, 0xc1, 0x4d, 0x82, 0xa8, 0xea, 0x02, 0x2a, 0x58, 0xcb, 0x95,
    0xf4, 0x77, 0x8d, 0x3c, 0x9e, 0xdc, 0xc5, 0xf8, 0x8a, 0x6f, 0x8a, 0x02, 0x06, 0xc4, 0xb1, 0x66,
    0xb0, 0xe0, 0x6c, 0x98, 0x0a, 0xef, 0xe7, 0xd9, 0x91, 0x01, 0x5b, 0x22, 0xa6, 0x3a, 0xe9, 0x6c,
    0xfe, 0xde, 0xbc, 0x5b, 0xbb, 0x70, 0x08, 0x72, 0x05,
];

/// The root says that the leaf is revoked.
const REVOKED: [u8; 268] = [
    0x30, 0x82, 0x01, 0x08, 0x0a, 0x01, 0x00, 0xa0, 0x82, 0x01, 0x01, 0x30, 0x81, 0xfe, 0x06, 0x09,
    0x2b, 0x06, 0x01, 0x05, 0x05, 0x07, 0x30, 0x01, 0x01, 0x04, 0x81, 0xf0, 0x30, 0x81, 0xed, 0x30,
    0x81, 0xa0, 0xa1, 0x16, 0x30, 0x14, 0x31, 0x12, 0x30, 0x10, 0x06, 0x03, 0x55, 0x04, 0x03, 0x0c,
    0x09, 0x54, 0x65, 0x73, 0x74, 0x20, 0x52, 0x6f, 0x6f, 0x74, 0x18, 0x0f, 0x32, 0x30, 0x32, 0x36,
    0x31, 0x31, 0x31, 0x35, 0x31, 0x38, 0x34, 0x31, 0x31, 0x33, 0x5a, 0x30, 0x75, 0x30, 0x73, 0x30,
    0x3a, 0x30, 0x09, 0x06, 0x05, 0x2b, 0x0e, 0x03, 0x02, 0x1a, 0x05, 0x00, 0x04, 0x14, 0x41, 0x06,
    0x8b, 0x40, 0x79, 0x43, 0x32, 0xce, 0x2e, 0x14, 0xbd, 0xc6, 0x0b, 0x9d, 0x21, 0xb0, 0xf8, 0x67,
    0x46, 0xfd, 0x04, 0x14, 0x5e, 0x07, 0x45, 0x47, 0x21, 0x80, 0xb1, 0xac, 0x3b, 0xff, 0x72, 0x11,
    0xf8, 0x46, 0x53, 0x6c, 0xe6, 0xc9, 0x0a, 0x94, 0x02, 0x01, 0x02, 0xa1, 0x11, 0x18, 0x0f, 0x32,
    0x30, 0x32, 0x36, 0x31, 0x31, 0x31, 0x35, 0x31, 0x36, 0x30, 0x30, 0x30, 0x30, 0x5a, 0x18, 0x0f,
    0x32, 0x30, 0x32, 0x36, 0x31, 0x31, 0x31, 0x35, 0x31, 0x38, 0x34, 0x31, 0x31, 0x33, 0x5a, 0xa0,
    0x11, 0x18, 0x0f, 0x32, 0x30, 0x33, 0x35, 0x30, 0x32, 0x30, 0x31, 0x31, 0x38, 0x34, 0x31, 0x31,
    0x33, 0x5a, 0x30, 0x05, 0x06, 0x03, 0x2b, 0x65, 0x70, 0x03, 0x41, 0x00, 0x83, 0x23, 0x1e, 0x60,
    0x6a, 0x50, 0xac, 0x60, 0x56, 0x04, 0x40, 0xd0, 0x6e, 0x9a, 0x65, 0xd0, 0xc4, 0x34, 0x64, 0xc5,
    0x76, 0x0a, 0x3d, 0xa6, 0xa6, 0x5a, 0xb2, 0x7f, 0x32, 0xac, 0x00, 0x22, 0x11, 0xa9, 0xda, 0x15,
    0x6c, 0x37, 0x55, 0xd8, 0xa9, 0x68, 0xe2, 0x54, 0xe6, 0x2e, 0x5e, 0x06, 0xb9, 0x84, 0xa3, 0xc8,
    0x1d, 0x08, 0x79, 0x23, 0xb1, 0x79, 0x01, 0x4f, 0x12, 0x3a, 0x34, 0x04,
];

const CLIENT: [u8; 354] = [
    0x30, 0x82, 0x01, 0x5e, 0x30, 0x82, 0x01, 0x10, 0xa0, 0x03, 0x02, 0x01, 0x02, 0x02, 0x01, 0x03,
    0x30, 0x05, 0x06, 0x03, 0x2b, 0x65, 0x70, 0x30, 0x14, 0x31, 0x12, 0x30, 0x10, 0x06, 0x03, 0x55,
    0x04, 0x03, 0x0c, 0x09, 0x54, 0x65, 0x73, 0x74, 0x20, 0x52, 0x6f, 0x6f, 0x74, 0x30, 0x1e, 0x17,
    0x0d, 0x32, 0x36, 0x31, 0x31, 0x31, 0x35, 0x31, 0x38, 0x34, 0x31, 0x31, 0x33, 0x5a, 0x17, 0x0d,
    0x34, 0x36, 0x30, 0x31, 0x31, 0x34, 0x31, 0x38, 0x34, 0x31, 0x31, 0x33, 0x5a, 0x30, 0x11, 0x31,
    0x0f, 0x30, 0x0d, 0x06, 0x03, 0x55, 0x04, 0x03, 0x0c, 0x06, 0x63, 0x6c, 0x69, 0x65, 0x6e, 0x74,
    0x30, 0x2a, 0x30, 0x05, 0x06, 0x03, 0x2b, 0x65, 0x70, 0x03, 0x21, 0x00, 0x6e, 0x7a, 0x1c, 0xdd,
    0x29, 0xb0, 0xb7, 0x8f, 0xd1, 0x3a, 0xf4, 0xc5, 0x59, 0x8f, 0xef, 0xf4, 0xef, 0x2a, 0x97, 0x16,
    0x6e, 0x3c, 0xa6, 0xf2, 0xe4, 0xfb, 0xfc, 0xcd, 0x80, 0x50, 0x5b, 0xf1, 0xa3, 0x81, 0x89, 0x30,
    0x81, 0x86, 0x30, 0x0c, 0x06, 0x03, 0x55, 0x1d, 0x13, 0x01, 0x01, 0xff, 0x04, 0x02, 0x30, 0x00,
    0x30, 0x0e, 0x06, 0x03, 0x55, 0x1d, 0x0f, 0x01, 0x01, 0xff, 0x04, 0x04, 0x03, 0x02, 0x07, 0x80,
    0x30, 0x13, 0x06, 0x03, 0x55, 0x1d, 0x25, 0x04, 0x0c, 0x30, 0x0a, 0x06, 0x08, 0x2b, 0x06, 0x01,
    0x05, 0x05, 0x07, 0x03, 0x02, 0x30, 0x11, 0x06, 0x03, 0x55, 0x1d, 0x11, 0x04, 0x0a, 0x30, 0x08,
    0x82, 0x06, 0x63, 0x6c, 0x69, 0x65, 0x6e, 0x74, 0x30, 0x1d, 0x06, 0x03, 0x55, 0x1d, 0x0e, 0x04,
    0x16, 0x04, 0x14, 0xa3, 0x86, 0x25, 0xf2, 0xe1, 0x5e, 0x11, 0x07, 0xaa, 0x97, 0xa0, 0xde, 0x21,
    0x7b, 0x21, 0xea, 0xc7, 0xc3, 0x3d, 0x0f, 0x30, 0x1f, 0x06, 0x03, 0x55, 0x1d, 0x23, 0x04, 0x18,
    0x30, 0x16, 0x80, 0x14, 0x5e, 0x07, 0x45, 0x47, 0x21, 0x80, 0xb1, 0xac, 0x3b, 0xff, 0x72, 0x11,
    0xf8, 0x46, 0x53, 0x6c, 0xe6, 0xc9, 0x0a, 0x94, 0x30, 0x05, 0x06, 0x03, 0x2b, 0x65, 0x70, 0x03,
    0x41, 0x00, 0x5f, 0x69, 0xaf, 0x12, 0x99, 0x69, 0x90, 0x58, 0xe7, 0x6b, 0x4c, 0x6d, 0x3a, 0x5d,
    0x60, 0xdd, 0xfa, 0x12, 0x14, 0x35, 0xcb, 0xb3, 0xe9, 0xf1, 0x83, 0x2e, 0x17, 0x78, 0xf7, 0xdd,
    0x04, 0xa7, 0xdb, 0xa0, 0xb7, 0xab, 0x49, 0xc1, 0x2a, 0xd2, 0xe1, 0x4a, 0x7b, 0xa7, 0x84, 0xab,
    0x0a, 0xa0, 0x06, 0xc6, 0x9c, 0x67, 0xec, 0xb8, 0xb2, 0x76, 0x7f, 0x0f, 0x9d, 0x52, 0xaf, 0x44,
    0x5b, 0x03,
];

/// The root says that the client is good.
const CLIENT_RESPONSE: [u8; 249] = [
    0x30, 0x81, 0xf6, 0x0a, 0x01, 0x00, 0xa0, 0x81, 0xf0, 0x30, 0x81, 0xed, 0x06, 0x09, 0x2b, 0x06,
    0x01, 0x05, 0x05, 0x07, 0x30, 0x01, 0x01, 0x04, 0x81, 0xdf, 0x30, 0x81, 0xdc, 0x30, 0x81, 0x8f,
    0xa1, 0x16, 0x30, 0x14, 0x31, 0x12, 0x30, 0x10, 0x06, 0x03, 0x55, 0x04, 0x03, 0x0c, 0x09, 0x54,
    0x65, 0x73, 0x74, 0x20, 0x52, 0x6f, 0x6f, 0x74, 0x18, 0x0f, 0x32, 0x30, 0x32, 0x36, 0x31, 0x31,
    0x31, 0x35, 0x31, 0x38, 0x34, 0x31, 0x31, 0x33, 0x5a, 0x30, 0x64, 0x30, 0x62, 0x30, 0x3a, 0x30,
    0x09, 0x06, 0x05, 0x2b, 0x0e, 0x03, 0x02, 0x1a, 0x05, 0x00, 0x04, 0x14, 0x41, 0x06, 0x8b, 0x40,
    0x79, 0x43, 0x32, 0xce, 0x2e, 0x14, 0xbd, 0xc6, 0x0b, 0x9d, 0x21, 0xb0, 0xf8, 0x67, 0x46, 0xfd,
    0x04, 0x14, 0x5e, 0x07, 0x45, 0x47, 0x21, 0x80, 0xb1, 0xac, 0x3b, 0xff, 0x72, 0x11, 0xf8, 0x46,
    0x53, 0x6c, 0xe6, 0xc9, 0x0a, 0x94, 0x02, 0x01, 0x03, 0x80, 0x00, 0x18, 0x0f, 0x32, 0x30, 0x32,
    0x36, 0x31, 0x31, 0x31, 0x35, 0x31, 0x38, 0x34, 0x31, 0x31, 0x33, 0x5a, 0xa0, 0x11, 0x18, 0x0f,
    0x32, 0x30, 0x33, 0x35, 0x30, 0x32, 0x30, 0x31, 0x31, 0x38, 0x34, 0x31, 0x31, 0x33, 0x5a, 0x30,
    0x05, 0x06, 0x03, 0x2b, 0x65, 0x70, 0x03, 0x41, 0x00, 0xf5, 0x01, 0xb2, 0xae, 0x78, 0x92, 0x30,
    0x6a, 0xee, 0x6d, 0xd2, 0xc9, 0xe1, 0x9e, 0x07, 0x90, 0x7d, 0x63, 0x8c, 0xbe, 0xc5, 0xe8, 0x53,
    0x50, 0x9f, 0x1c, 0xf1, 0x47, 0x9f, 0x55, 0xaf, 0x2a, 0x51, 0x85, 0xbf, 0x06, 0xbb, 0x73, 0x0d,
    0x80, 0x4a, 0xa1, 0xa4, 0xcc, 0xe3, 0xc0, 0x58, 0x7f, 0xa3, 0x04, 0x80, 0xc0, 0xaf, 0x61, 0xb3,
    0xe5, 0xf4, 0xbe, 0xc6, 0xf1, 0xea, 0x24, 0x04, 0x0e,
];

fn provider() -> Arc<rustls::crypto::CryptoProvider> {
    Arc::new(rustls::crypto::ring::default_provider())
}

fn private_key(seed: u8) -> PrivateKeyDer<'static> {
    let mut der = vec![
        0x30, 0x2e, 0x02, 0x01, 0x00, 0x30, 0x05, 0x06, 0x03, 0x2b, 0x65, 0x70, 0x04, 0x22, 0x04,
        0x20,
    ];
    der.extend([seed; 32]);
    PrivateKeyDer::Pkcs8(PrivatePkcs8KeyDer::from(der))
}

fn limits() -> TlsLimits {
    TlsLimits {
        max_handshake_bytes: 65536,
        max_flight_bytes: 65536,
        max_certificates: 8,
        max_certificate_chain_bytes: 65536,
        max_ocsp_bytes: 65536,
    }
}

fn authority(ocsp: &[u8]) -> LocalAuthority {
    LocalAuthority::new(
        &provider(),
        "localhost".to_owned(),
        vec![LEAF.to_vec()],
        private_key(7),
        ocsp.to_vec(),
    )
    .unwrap()
}

fn roots() -> RootCertsSnapshot {
    let mut roots = RootCerts::new();
    roots.set(vec![ROOT.to_vec()]).unwrap();
    roots.get().unwrap()
}

fn localhost() -> ServerName<'static> {
    ServerName::try_from("localhost").unwrap()
}

type PeerState = Arc<Mutex<AuthorityState>>;

fn nobody() -> PeerState {
    Arc::new(Mutex::new(AuthorityState::new()))
}

fn whole_chain(end_entity: &CertificateDer<'_>, intermediates: &[CertificateDer<'_>]) -> Vec<Vec<u8>> {
    let mut chain = vec![end_entity.to_vec()];
    chain.extend(intermediates.iter().map(|der| der.to_vec()));
    chain
}

fn refused(error: CertificateError) -> rustls::Error {
    rustls::Error::General(format!("{error:?}"))
}

/// Verifies servers at a time when every certificate is valid.
struct Verifying {
    verifier: ServerVerifier,
    peer: PeerState,
    calls: Arc<Mutex<usize>>,
}

impl std::fmt::Debug for Verifying {
    fn fmt(&self, formatter: &mut std::fmt::Formatter<'_>) -> std::fmt::Result {
        formatter.write_str("Verifying")
    }
}

impl ServerCertVerifier for Verifying {
    fn verify_server_cert(
        &self,
        end_entity: &CertificateDer<'_>,
        intermediates: &[CertificateDer<'_>],
        server_name: &ServerName<'_>,
        ocsp_response: &[u8],
        _: UnixTime,
    ) -> Result<ServerCertVerified, rustls::Error> {
        let name = server_name.to_owned();
        *self.calls.lock().unwrap() += 1;
        let remote = self
            .verifier
            .verify_server_cert(whole_chain(end_entity, intermediates), &name, ocsp_response, VALID)
            .map_err(refused)?;
        self.peer.lock().unwrap().remote = Some(remote);
        Ok(ServerCertVerified::assertion())
    }

    fn verify_tls12_signature(
        &self,
        _: &[u8],
        _: &CertificateDer<'_>,
        _: &DigitallySignedStruct,
    ) -> Result<HandshakeSignatureValid, rustls::Error> {
        unreachable!()
    }

    fn verify_tls13_signature(
        &self,
        message: &[u8],
        certificate: &CertificateDer<'_>,
        signature: &DigitallySignedStruct,
    ) -> Result<HandshakeSignatureValid, rustls::Error> {
        rustls::crypto::verify_tls13_signature(
            message,
            certificate,
            signature,
            &self.verifier.algorithms,
        )
    }

    fn supported_verify_schemes(&self) -> Vec<SignatureScheme> {
        self.verifier.algorithms.supported_schemes()
    }
}

/// Verifies clients at a time when every certificate is valid, by the response that is held here.
struct VerifyingClients {
    verifier: ClientVerifier,
    peer: PeerState,
}

impl std::fmt::Debug for VerifyingClients {
    fn fmt(&self, formatter: &mut std::fmt::Formatter<'_>) -> std::fmt::Result {
        formatter.write_str("VerifyingClients")
    }
}

impl ClientCertVerifier for VerifyingClients {
    fn client_auth_mandatory(&self) -> bool {
        false
    }

    fn root_hint_subjects(&self) -> &[DistinguishedName] {
        &[]
    }

    fn verify_client_cert(
        &self,
        end_entity: &CertificateDer<'_>,
        intermediates: &[CertificateDer<'_>],
        _: UnixTime,
    ) -> Result<ClientCertVerified, rustls::Error> {
        let remote = self
            .verifier
            .verify_client_cert_with_ocsp(whole_chain(end_entity, intermediates), &CLIENT_RESPONSE, VALID)
            .map_err(refused)?;
        self.peer.lock().unwrap().remote = Some(remote);
        Ok(ClientCertVerified::assertion())
    }

    fn verify_tls12_signature(
        &self,
        _: &[u8],
        _: &CertificateDer<'_>,
        _: &DigitallySignedStruct,
    ) -> Result<HandshakeSignatureValid, rustls::Error> {
        unreachable!()
    }

    fn verify_tls13_signature(
        &self,
        message: &[u8],
        certificate: &CertificateDer<'_>,
        signature: &DigitallySignedStruct,
    ) -> Result<HandshakeSignatureValid, rustls::Error> {
        rustls::crypto::verify_tls13_signature(
            message,
            certificate,
            signature,
            &self.verifier.algorithms,
        )
    }

    fn supported_verify_schemes(&self) -> Vec<SignatureScheme> {
        self.verifier.algorithms.supported_schemes()
    }
}

struct Resolving {
    cert: FixedServerCert,
    peer: PeerState,
}

impl std::fmt::Debug for Resolving {
    fn fmt(&self, formatter: &mut std::fmt::Formatter<'_>) -> std::fmt::Result {
        formatter.write_str("Resolving")
    }
}

impl rustls::server::ResolvesServerCert for Resolving {
    fn resolve(
        &self,
        _: rustls::server::ClientHello<'_>,
    ) -> Option<Arc<rustls::sign::CertifiedKey>> {
        let key = self.cert.resolve()?;
        self.peer.lock().unwrap().local = Some(self.cert.local.clone());
        Some(key)
    }
}

struct ResolvingClient {
    cert: OptionalClientCert,
    peer: PeerState,
}

impl std::fmt::Debug for ResolvingClient {
    fn fmt(&self, formatter: &mut std::fmt::Formatter<'_>) -> std::fmt::Result {
        formatter.write_str("ResolvingClient")
    }
}

impl rustls::client::ResolvesClientCert for ResolvingClient {
    fn resolve(
        &self,
        _: &[&[u8]],
        _: &[SignatureScheme],
    ) -> Option<Arc<rustls::sign::CertifiedKey>> {
        let key = self.cert.resolve()?;
        self.peer.lock().unwrap().local = self.cert.local.clone();
        Some(key)
    }

    fn has_certs(&self) -> bool {
        self.cert.has_certs()
    }
}

/// A client that starts handshakes one after the other.
struct Client {
    config: Arc<rustls::ClientConfig>,
    peer: PeerState,
    verifications: Arc<Mutex<usize>>,
}

impl Client {
    fn new(local: Option<LocalAuthority>) -> Client {
        let peer = nobody();
        let verifications = Arc::new(Mutex::new(0));
        let mut config = rustls::ClientConfig::builder_with_provider(provider())
            .with_protocol_versions(&[&rustls::version::TLS13])
            .unwrap()
            .dangerous()
            .with_custom_certificate_verifier(Arc::new(Verifying {
                verifier: ServerVerifier::new(roots(), provider(), limits()).unwrap(),
                peer: peer.clone(),
                calls: verifications.clone(),
            }))
            .with_client_cert_resolver(Arc::new(ResolvingClient {
                cert: OptionalClientCert::new(local, limits()),
                peer: peer.clone(),
            }));
        config.alpn_protocols = vec![b"h3".to_vec()];
        Client {
            config: Arc::new(config),
            peer,
            verifications,
        }
    }

    fn start(&self, name: &'static str, parameters: &[u8]) -> TlsHandshake {
        let connection = rustls::quic::ClientConnection::new(
            self.config.clone(),
            rustls::quic::Version::V1,
            ServerName::try_from(name).unwrap(),
            parameters.to_vec(),
        )
        .unwrap();
        TlsHandshake::new(connection.into(), Role::Client, self.peer.clone(), limits()).unwrap()
    }
}

/// A server that starts handshakes one after the other.
struct Server {
    config: rustls::ServerConfig,
    peer: PeerState,
}

impl Server {
    fn new(local: LocalAuthority) -> Server {
        let peer = nobody();
        let mut config = rustls::ServerConfig::builder_with_provider(provider())
            .with_protocol_versions(&[&rustls::version::TLS13])
            .unwrap()
            .with_client_cert_verifier(Arc::new(VerifyingClients {
                verifier: ClientVerifier::new(roots(), provider(), limits()).unwrap(),
                peer: peer.clone(),
            }))
            .with_cert_resolver(Arc::new(Resolving {
                cert: FixedServerCert::new(local, limits()),
                peer: peer.clone(),
            }));
        config.alpn_protocols = vec![b"h3".to_vec()];
        Server { config, peer }
    }

    fn start(&self, parameters: &[u8]) -> TlsHandshake {
        let connection = rustls::quic::ServerConnection::new(
            Arc::new(self.config.clone()),
            rustls::quic::Version::V1,
            parameters.to_vec(),
        )
        .unwrap();
        TlsHandshake::new(connection.into(), Role::Server, self.peer.clone(), limits()).unwrap()
    }
}

fn client(name: &'static str) -> TlsHandshake {
    Client::new(None).start(name, b"client-parameters")
}

fn server(local: LocalAuthority) -> TlsHandshake {
    Server::new(local).start(b"selected-server-parameters")
}

fn client_authority() -> LocalAuthority {
    LocalAuthority::new(
        &provider(),
        "client".to_owned(),
        vec![CLIENT.to_vec()],
        private_key(5),
        CLIENT_RESPONSE.to_vec(),
    )
    .unwrap()
}

/// What the two ends publish once a handshake has completed and the tickets behind it have come.
fn summaries(client: &Client, server: &Server) -> [HandshakeSummary; 2] {
    let mut asking = client.start("localhost", b"client-params");
    let mut answering = server.start(b"server-params");
    let [at_client, at_server] = shake(&mut asking, &mut answering).unwrap();
    [at_client.summary.unwrap(), at_server.summary.unwrap()]
}

/// Forgets what an earlier handshake found, but for what its session keeps.
fn resume(peer: &PeerState, earlier: HandshakeSummary) {
    *peer.lock().unwrap() = AuthorityState {
        resumed_local: earlier.local,
        resumed_remote: earlier.remote,
        ..AuthorityState::new()
    };
}

#[derive(Default)]
struct Seen {
    summary: Option<HandshakeSummary>,
    parameters: Option<Vec<u8>>,
    server_name: Option<Option<String>>,
    handshake_keys: bool,
    one_rtt: Option<OneRttKeyMaterial>,
    zero_rtt: bool,
}

fn transfer(from: &mut TlsHandshake, to: &mut TlsHandshake, seen: &mut Seen) -> Result<(), TlsError> {
    while let Some(event) = from.next_event() {
        match event {
            TlsEvent::WriteCrypto { level, bytes } => {
                for chunk in bytes.chunks(7) {
                    to.receive_crypto(level, chunk)?;
                }
            }
            TlsEvent::InstallKeys(InstalledKeys::ZeroRtt(_)) => seen.zero_rtt = true,
            TlsEvent::InstallKeys(InstalledKeys::Handshake(_)) => seen.handshake_keys = true,
            TlsEvent::InstallKeys(InstalledKeys::OneRtt(keys)) => seen.one_rtt = Some(keys),
            TlsEvent::ClientHello {
                server_name,
                transport_parameters,
            } => {
                seen.server_name = Some(server_name);
                seen.parameters = Some(transport_parameters.to_vec());
            }
            TlsEvent::ServerTransportParameters(parameters) => {
                seen.parameters = Some(parameters.to_vec())
            }
            TlsEvent::HandshakeComplete(summary) => seen.summary = Some(summary),
            TlsEvent::Alert(_) => {}
        }
    }
    Ok(())
}

fn shake(client: &mut TlsHandshake, server: &mut TlsHandshake) -> Result<[Seen; 2], TlsError> {
    let mut seen = [Seen::default(), Seen::default()];
    for _ in 0..4 {
        transfer(client, server, &mut seen[0])?;
        transfer(server, client, &mut seen[1])?;
    }
    Ok(seen)
}

fn client_hello() -> Vec<u8> {
    let mut tls = client("one.example");
    let Some(TlsEvent::WriteCrypto { level, bytes }) = tls.next_event() else {
        panic!("client must emit ClientHello first")
    };
    assert_eq!(level, CryptoLevel::Initial);
    bytes.to_vec()
}

#[test]
fn fragmented_client_hello_is_preparsed_and_preserved() {
    let encoded = client_hello();
    for end in 0..encoded.len() {
        assert!(read_client_hello(&encoded[..end], encoded.len())
            .unwrap()
            .is_none());
    }
    let parsed = read_client_hello(&encoded, encoded.len()).unwrap().unwrap();
    assert_eq!(parsed.server_name(), Some("one.example"));
    assert_eq!(parsed.transport_parameters(), b"client-parameters");
    assert_eq!(parsed.encoded().as_ref(), encoded);
}

#[test]
fn encoded_client_hello_starts_the_selected_server() {
    let encoded = client_hello();
    let parsed = read_client_hello(&encoded, encoded.len()).unwrap().unwrap();
    let mut server = server(authority(&RESPONSE));
    server
        .receive_crypto(CryptoLevel::Initial, parsed.encoded())
        .unwrap();
    let mut observed = None;
    while let Some(event) = server.next_event() {
        if let TlsEvent::ClientHello {
            server_name,
            transport_parameters,
        } = event
        {
            observed = Some((server_name, transport_parameters));
            break;
        }
    }
    let (server_name, transport_parameters) = observed.unwrap();
    assert_eq!(server_name.as_deref(), Some("one.example"));
    assert_eq!(transport_parameters.as_ref(), b"client-parameters".as_slice());
}

#[test]
fn declared_or_received_client_hello_cannot_exceed_the_limit() {
    let encoded = client_hello();
    assert!(read_client_hello(&encoded, encoded.len() - 1)
        .err()
        .unwrap()
        .message()
        .contains("limit"));
    assert!(read_client_hello(&encoded[..4], 4)
        .err()
        .unwrap()
        .message()
        .contains("limit"));
}

#[test]
fn quic_transport_parameters_are_required() {
    let mut encoded = client_hello();
    let parameters = b"client-parameters";
    let offset = encoded
        .windows(parameters.len())
        .position(|window| window == parameters)
        .unwrap();
    assert_eq!(&encoded[offset - 4..offset - 2], &[0x00, 0x39]);
    encoded[offset - 4..offset - 2].copy_from_slice(&[0x12, 0x34]);
    assert!(read_client_hello(&encoded, encoded.len())
        .err()
        .unwrap()
        .message()
        .contains("transport parameters"));
}

#[test]
fn other_handshake_messages_are_no_client_hello() {
    let error = read_client_hello(&[2, 0, 0, 1, 0], 100).err().unwrap();
    assert!(matches!(error, TlsError::Peer(PeerTlsError::Protocol(_))));
}

#[test]
fn server_names_are_checked() {
    let mut extension = vec![0, 14, 0, 0, 11];
    extension.extend(b"one.example");
    assert_eq!(
        parse_server_name(&extension).unwrap().as_deref(),
        Some("one.example")
    );
    let mut address = vec![0, 12, 0, 0, 9];
    address.extend(b"127.0.0.1");
    assert!(parse_server_name(&address).is_err());
    let mut broken = vec![0, 5, 0, 0, 2];
    broken.extend([0xff, 0xfe]);
    assert_eq!(
        parse_server_name(&broken).err().unwrap().message(),
        "peer TLS protocol error: ClientHello host_name is not UTF-8"
    );
    assert_eq!(
        accept_host("one.example".to_owned(), Some(true)).unwrap(),
        "one.example"
    );
    assert!(accept_host("one.example".to_owned(), Some(false)).is_err());
    assert!(accept_host("one.example".to_owned(), None).is_err());
}

#[test]
fn fields_are_read_in_order_and_truncation_is_told() {
    let bytes = [7, 1, 2, 1, 9, 0, 2, 3, 4];
    let mut reader = Reader::new(&bytes);
    assert_eq!(reader.u8("first").unwrap(), 7);
    assert_eq!(reader.u16("second").unwrap(), 0x0102);
    assert_eq!(reader.vector_u8("third").unwrap(), [9]);
    assert!(reader.finish("trailing data").is_err());
    assert_eq!(reader.vector_u16("fourth").unwrap(), [3, 4]);
    assert!(reader.is_empty());
    reader.finish("trailing data").unwrap();
    assert_eq!(
        reader.u8("rest").err().unwrap().message(),
        "peer TLS protocol error: truncated ClientHello rest"
    );
    assert_eq!(
        reader.take(usize::MAX, "rest").err().unwrap().message(),
        "peer TLS protocol error: invalid ClientHello rest length"
    );
}

#[test]
fn tls_endpoints_require_an_explicit_nonempty_root_store() {
    let mut roots = RootCerts::new();
    assert!(matches!(roots.get(), Err(TlsConfigError::RootCertsNotSet)));
    assert!(
        matches!(roots.set(vec![]), Err(TlsConfigError::Invalid(reason)) if reason == "root certificate collection is empty")
    );
    assert!(roots.set(vec![ROOT.to_vec(), vec![1, 2, 3]]).is_err());
    assert!(matches!(roots.get(), Err(TlsConfigError::RootCertsNotSet)));
    roots.set(vec![ROOT.to_vec()]).unwrap();
    let snapshot = roots.get().unwrap();
    assert_eq!(snapshot.store.len(), 1);
    assert_eq!(*snapshot.certificates, [ROOT.to_vec()]);
    ServerVerifier::new(snapshot, provider(), limits()).unwrap();
}

fn test_updated_packet_keys(client: &mut OneRttKeyMaterial, server: &mut OneRttKeyMaterial) {
    test_direction(&*client.sealing.packet, &*server.opening.packet);
    test_direction(&*server.sealing.packet, &*client.opening.packet);
    for _ in 0..3 {
        let client_keys = client.next_secret.next_packet_keys();
        let server_keys = server.next_secret.next_packet_keys();
        test_direction(&*client_keys.local, &*server_keys.remote);
        test_direction(&*server_keys.local, &*client_keys.remote);
    }
}

fn test_direction(sealing: &dyn rustls::quic::PacketKey, opening: &dyn rustls::quic::PacketKey) {
    let header = b"header";
    let plaintext = b"protected payload";
    let mut payload = plaintext.to_vec();
    let tag = sealing.encrypt_in_place(42, header, &mut payload).unwrap();
    payload.extend_from_slice(tag.as_ref());
    let opened = opening.decrypt_in_place(42, header, &mut payload).unwrap();
    assert_eq!(opened, plaintext);
}

#[test]
fn mutual_auth_publishes_both_authorities() {
    let mut client_tls = Client::new(Some(client_authority())).start("localhost", b"client-params");
    let mut server_tls = Server::new(authority(&RESPONSE)).start(b"server-params");
    let [mut client_events, mut server_events] = shake(&mut client_tls, &mut server_tls).unwrap();

    assert_eq!(
        client_events.parameters.as_deref(),
        Some(b"server-params".as_slice())
    );
    assert_eq!(
        server_events.parameters.as_deref(),
        Some(b"client-params".as_slice())
    );
    assert_eq!(
        server_events.server_name.flatten().as_deref(),
        Some("localhost")
    );
    assert!(client_events.handshake_keys && server_events.handshake_keys);
    assert!(!client_events.zero_rtt && !server_events.zero_rtt);

    let client_summary = client_events.summary.take().unwrap();
    assert_eq!(client_summary.alpn.as_deref(), Some(b"h3".as_slice()));
    assert_eq!(client_summary.local.as_ref().unwrap().name(), "client");
    assert_eq!(client_summary.remote.as_ref().unwrap().name(), "localhost");
    let server_summary = server_events.summary.take().unwrap();
    assert_eq!(server_summary.local.as_ref().unwrap().name(), "localhost");
    assert_eq!(server_summary.remote.as_ref().unwrap().name(), "client");

    test_updated_packet_keys(
        client_events.one_rtt.as_mut().unwrap(),
        server_events.one_rtt.as_mut().unwrap(),
    );

    let client_tls = client_tls.finish().unwrap();
    let server_tls = server_tls.finish().unwrap();
    let mut client_export = vec![0u8; 32];
    let mut server_export = vec![0u8; 32];
    client_tls
        .export_keying_material(&mut client_export, b"qtls test", Some(b"context"))
        .unwrap();
    server_tls
        .export_keying_material(&mut server_export, b"qtls test", Some(b"context"))
        .unwrap();
    assert_eq!(client_export, server_export);
}

#[test]
fn stateful_resumption_restores_authorities_without_revalidating_the_certificate() {
    let client = Client::new(Some(client_authority()));
    let server = Server::new(authority(&RESPONSE));

    let [first_client, first_server] = summaries(&client, &server);
    assert_eq!(first_client.remote.as_ref().unwrap().name(), "localhost");
    assert_eq!(first_server.remote.as_ref().unwrap().name(), "client");
    assert_eq!(*client.verifications.lock().unwrap(), 1);

    resume(&client.peer, first_client);
    resume(&server.peer, first_server);
    let [second_client, second_server] = summaries(&client, &server);
    assert_eq!(*client.verifications.lock().unwrap(), 1);
    assert_eq!(second_client.local.as_ref().unwrap().name(), "client");
    assert_eq!(second_client.remote.as_ref().unwrap().name(), "localhost");
    assert_eq!(second_server.remote.as_ref().unwrap().name(), "client");

    let fallback_server = Server::new(authority(&RESPONSE));
    resume(&client.peer, second_client);
    let [fallback_client, fallback_server] = summaries(&client, &fallback_server);
    assert_eq!(*client.verifications.lock().unwrap(), 2);
    assert_eq!(fallback_client.local.unwrap().name(), "client");
    assert_eq!(fallback_client.remote.unwrap().name(), "localhost");
    assert_eq!(fallback_server.remote.unwrap().name(), "client");
}

#[test]
fn stateless_resumption_restores_the_verified_client_authority() {
    let client = Client::new(Some(client_authority()));
    let mut server = Server::new(authority(&RESPONSE));
    server.config.ticketer = rustls::crypto::ring::Ticketer::new().unwrap();

    let [first_client, first_server] = summaries(&client, &server);
    resume(&client.peer, first_client);
    resume(&server.peer, first_server);
    let [client_summary, server_summary] = summaries(&client, &server);
    assert_eq!(*client.verifications.lock().unwrap(), 1);
    assert_eq!(client_summary.local.unwrap().name(), "client");
    assert_eq!(client_summary.remote.unwrap().name(), "localhost");
    assert_eq!(server_summary.remote.unwrap().name(), "client");
}

#[test]
fn a_resumed_session_publishes_its_authorities_in_place_of_none() {
    let verified = ServerVerifier::new(roots(), provider(), limits())
        .unwrap()
        .verify_server_cert(vec![LEAF.to_vec()], &localhost(), &RESPONSE, VALID)
        .unwrap();
    let kept = AuthorityState {
        resumed_local: Some(client_authority()),
        resumed_remote: Some(verified),
        ..AuthorityState::new()
    };
    let mut resumed = HandshakeState::new(Role::Client, limits());
    resumed
        .conclude(Some(kept.clone()), true, Some(b"h3".to_vec()))
        .unwrap();
    let Some(TlsEvent::HandshakeComplete(summary)) = resumed.next_event() else {
        panic!("a resumed handshake completes")
    };
    assert_eq!(summary.local.unwrap().name(), "client");
    assert_eq!(summary.remote.unwrap().name(), "localhost");
    assert!(resumed.complete);

    // A full handshake takes nothing from an earlier session.
    let mut full = HandshakeState::new(Role::Client, limits());
    assert!(full.conclude(Some(kept.clone()), false, None).is_err());
    assert!(!full.complete && full.next_event().is_none());

    // What was found now goes before what the session kept.
    let found = AuthorityState {
        local: Some(authority(&RESPONSE)),
        ..kept
    };
    let mut server = HandshakeState::new(Role::Server, limits());
    server.conclude(Some(found), true, None).unwrap();
    let Some(TlsEvent::HandshakeComplete(summary)) = server.next_event() else {
        panic!("a server that presented itself completes")
    };
    assert_eq!(summary.local.unwrap().name(), "localhost");
    assert!(summary.alpn.is_none());

    let mut poisoned = HandshakeState::new(Role::Server, limits());
    assert!(poisoned.conclude(None, true, None).is_err());
}

#[test]
fn credentials_are_rebound_only_to_the_session_that_expects_them() {
    let held = OptionalClientCert::new(Some(client_authority()), limits());
    assert_eq!(held.rebind(true).unwrap().name(), "client");
    assert!(held.rebind(false).is_none());
    let mut short = limits();
    short.max_ocsp_bytes = CLIENT_RESPONSE.len() - 1;
    assert!(OptionalClientCert::new(Some(client_authority()), short)
        .rebind(true)
        .is_none());
    assert!(OptionalClientCert::new(None, limits()).rebind(true).is_none());
}

#[test]
fn anonymous_client_completes_without_remote_authority() {
    let (mut client, mut server) = (client("localhost"), server(authority(&RESPONSE)));
    let [at_client, at_server] = shake(&mut client, &mut server).unwrap();
    let summary = at_client.summary.unwrap();
    assert!(summary.local.is_none());
    assert_eq!(summary.alpn.as_deref(), Some(b"h3".as_slice()));
    let remote = summary.remote.unwrap();
    assert_eq!(remote.name(), "localhost");
    assert_eq!(remote.certificates()[..], [LEAF.to_vec()]);
    assert!(at_server.summary.unwrap().remote.is_none());
    assert!(at_client.one_rtt.is_some() && at_server.one_rtt.is_some());
}

#[test]
fn a_server_needs_a_good_response_and_the_right_name() {
    assert!(matches!(
        LocalAuthority::new(
            &provider(),
            "localhost".to_owned(),
            vec![LEAF.to_vec()],
            private_key(7),
            Vec::new(),
        ),
        Err(InvalidLocalAuthority::EmptyOcsp)
    ));
    let (mut asking, mut answering) = (client("localhost"), server(authority(b"unreadable")));
    assert!(shake(&mut asking, &mut answering).is_err());
    let (mut asking, mut answering) = (client("one.example"), server(authority(&RESPONSE)));
    assert!(shake(&mut asking, &mut answering).is_err());
}

#[test]
fn authority_signs_without_exposing_the_signing_key() {
    let authority = authority(&RESPONSE);
    let scheme = u16::from(SignatureScheme::ED25519);
    let signature = authority.sign(scheme, b"message").unwrap();
    assert!(!signature.is_empty());
    assert_ne!(signature, authority.sign(scheme, b"other message").unwrap());
    let unsupported = u16::from(SignatureScheme::ECDSA_NISTP256_SHA256);
    assert_eq!(
        authority.sign(unsupported, b"message"),
        Err(SignError::UnsupportedScheme {
            scheme: unsupported
        })
    );
}

#[test]
fn credentials_are_made_of_a_chain_and_its_key() {
    let authority = authority(&RESPONSE);
    assert_eq!(authority.name(), "localhost");
    assert_eq!(authority.certificates()[..], [LEAF.to_vec()]);
    assert_eq!(authority.ocsp(), RESPONSE);
    assert_eq!(
        authority.certified_key().ocsp.as_deref(),
        Some(RESPONSE.as_slice())
    );
    let key = authority.public_key();
    assert!(key.len() == 44 && LEAF.windows(44).any(|window| window == key));

    let new = |name: &str, chain: Vec<Vec<u8>>, seed| {
        LocalAuthority::new(
            &provider(),
            name.to_owned(),
            chain,
            private_key(seed),
            RESPONSE.to_vec(),
        )
    };
    let empty = new("localhost", vec![], 7).unwrap_err();
    assert_eq!(empty.message(), "certificate chain is empty");
    let unreadable = new("localhost", vec![vec![1]], 7).unwrap_err();
    assert!(unreadable.message().starts_with("invalid certificate: "));
    let other_key = new("localhost", vec![LEAF.to_vec()], 5).unwrap_err();
    assert!(other_key.message().starts_with("invalid private key: "));
    let bad_name = new("not a name", vec![LEAF.to_vec()], 7).unwrap_err();
    assert_eq!(bad_name.message(), "invalid authority name");
}

#[test]
fn a_loaded_signing_key_brings_its_own_chain() {
    let loaded = rustls::sign::CertifiedKey::from_der(
        vec![CertificateDer::from(LEAF.to_vec())],
        private_key(7),
        &provider(),
    )
    .unwrap();
    let authority =
        LocalAuthority::from_signing_key("localhost".to_owned(), loaded, RESPONSE.to_vec()).unwrap();
    assert_eq!(authority.certificates()[..], [LEAF.to_vec()]);

    let other = rustls::crypto::ring::sign::any_supported_type(&private_key(5)).unwrap();
    let mismatched =
        rustls::sign::CertifiedKey::new(vec![CertificateDer::from(LEAF.to_vec())], other);
    assert!(matches!(
        LocalAuthority::from_signing_key("localhost".to_owned(), mismatched, RESPONSE.to_vec()),
        Err(InvalidLocalAuthority::InvalidPrivateKey(_))
    ));
}

#[test]
fn a_remote_authority_has_a_name_and_a_key() {
    let remote = RemoteAuthority::new("localhost".to_owned(), vec![LEAF.to_vec()]).unwrap();
    assert_eq!(remote.name(), "localhost");
    assert_eq!(
        remote.public_key(),
        extract_public_key(&vec![LEAF.to_vec()]).unwrap()
    );
    assert!(RemoteAuthority::new("not a name".to_owned(), vec![LEAF.to_vec()]).is_err());
    assert!(RemoteAuthority::new("localhost".to_owned(), vec![]).is_err());
}

#[test]
fn a_certificate_is_named_by_its_first_dns_name() {
    assert_eq!(certificate_name(&LEAF).unwrap(), "localhost");
    assert_eq!(certificate_name(&NAMELESS), Err(NameFault::NotValidForName));
    assert_eq!(certificate_name(&[1, 2, 3]), Err(NameFault::BadEncoding));
    assert_eq!(
        pick_name(Some(vec![None, Some("b.example".to_owned()), Some("a.example".to_owned())])),
        Ok("b.example".to_owned())
    );
    assert_eq!(
        pick_name(Some(vec![Some("not a name".to_owned())])),
        Err(NameFault::NotValidForName)
    );
    assert_eq!(pick_name(None), Err(NameFault::BadEncoding));
}

#[test]
fn the_first_issuer_vouches() {
    let algorithms = provider().signature_verification_algorithms;
    let candidates = vec![vec![9], LEAF.to_vec(), ROOT.to_vec(), ROOT.to_vec()];
    assert_eq!(verify(&RESPONSE, &LEAF, &candidates, &algorithms), Some(2));
    assert_eq!(verify(&[], &LEAF, &candidates, &algorithms), None);
    assert_eq!(
        verify(&RESPONSE, &LEAF, &vec![LEAF.to_vec()], &algorithms),
        None
    );
    assert_eq!(verify(&RESPONSE, &[9], &candidates, &algorithms), None);
    let mut forged = LEAF.to_vec();
    *forged.last_mut().unwrap() ^= 1;
    assert_eq!(verify(&RESPONSE, &forged, &candidates, &algorithms), None);
}

#[test]
fn an_algorithm_is_its_identifier_and_parameters() {
    let plain = AlgorithmDer {
        oid: vec![6, 1, 1],
        parameters: None,
    };
    assert_eq!(algorithm_identifier_value(&plain), [6, 1, 1]);
    let with_parameters = AlgorithmDer {
        oid: vec![6, 1, 1],
        parameters: Some(vec![5, 0]),
    };
    assert_eq!(
        algorithm_identifier_value(&with_parameters),
        [6, 1, 1, 5, 0]
    );
}

#[test]
fn a_server_chain_is_examined_before_its_revocation() {
    let verifier = ServerVerifier::new(roots(), provider(), limits()).unwrap();
    let chain = vec![LEAF.to_vec()];
    assert_eq!(
        verifier
            .examine(&chain, &localhost(), &RESPONSE, VALID)
            .unwrap(),
        ROOT
    );
    assert!(matches!(
        verifier.examine(&chain, &localhost(), &[], VALID),
        Err(CertificateError::InvalidOcspResponse)
    ));
    for expired in [1_700_000_000, 2_500_000_000] {
        assert!(matches!(
            verifier.examine(&chain, &localhost(), &RESPONSE, expired),
            Err(CertificateError::Untrusted(_))
        ));
    }
    let elsewhere = ServerName::try_from("elsewhere.example").unwrap();
    assert!(matches!(
        verifier.examine(&chain, &elsewhere, &RESPONSE, VALID),
        Err(CertificateError::Untrusted(_))
    ));
    let crowded = vec![LEAF.to_vec(); 9];
    assert!(matches!(
        verifier.examine(&crowded, &localhost(), &RESPONSE, VALID),
        Err(CertificateError::BadEncoding)
    ));
    let accepted = verifier
        .accept_server(chain.clone(), &localhost(), true)
        .unwrap();
    assert_eq!(accepted.name(), "localhost");
    assert!(matches!(
        verifier.accept_server(chain.clone(), &localhost(), false),
        Err(CertificateError::InvalidOcspResponse)
    ));
    let address = ServerName::try_from("127.0.0.1").unwrap();
    assert!(matches!(
        verifier.accept_server(chain, &address, true),
        Err(CertificateError::NotValidForName)
    ));
}

#[test]
fn a_client_chain_is_examined_and_named() {
    let verifier = ClientVerifier::new(roots(), provider(), limits()).unwrap();
    let chain = vec![LEAF.to_vec()];
    assert_eq!(verifier.examine(&chain, &RESPONSE, VALID).unwrap(), ROOT);
    assert!(matches!(
        verifier.examine(&chain, &[], VALID),
        Err(CertificateError::InvalidOcspResponse)
    ));
    assert!(matches!(
        verifier.examine(&chain, &RESPONSE, 1_700_000_000),
        Err(CertificateError::Untrusted(_))
    ));
    let accepted = verifier
        .accept_client(chain.clone(), true)
        .unwrap();
    assert_eq!(accepted.name(), "localhost");
    assert!(verifier.accept_client(chain, false).is_err());
    assert!(matches!(
        verifier.accept_client(vec![NAMELESS.to_vec()], true),
        Err(CertificateError::NotValidForName)
    ));
    assert!(ClientVerifier::new(
        RootCertsSnapshot {
            store: Arc::new(rustls::RootCertStore::empty()),
            certificates: Arc::new(vec![]),
        },
        provider(),
        limits(),
    )
    .is_err());
    assert!(ServerVerifier::new(
        RootCertsSnapshot {
            store: Arc::new(rustls::RootCertStore::empty()),
            certificates: Arc::new(vec![]),
        },
        provider(),
        limits(),
    )
    .is_err());
}

#[test]
fn oversized_credentials_are_not_presented() {
    let authority = authority(&RESPONSE);
    assert!(authority_within_limits(&authority, limits()));
    let mut narrow = limits();
    narrow.max_certificate_chain_bytes = LEAF.len() - 1;
    assert!(!authority_within_limits(&authority, narrow));
    let mut short = limits();
    short.max_ocsp_bytes = RESPONSE.len() - 1;
    assert!(matches!(
        validate_peer_limits(&vec![LEAF.to_vec()], &RESPONSE, short),
        Err(CertificateError::InvalidOcspResponse)
    ));
    assert!(matches!(
        validate_peer_limits(&vec![LEAF.to_vec()], &RESPONSE, narrow),
        Err(CertificateError::BadEncoding)
    ));
    let fixed = FixedServerCert::new(authority.clone(), limits());
    assert!(fixed.resolve().is_some());
    let fixed = FixedServerCert::new(authority.clone(), narrow);
    assert!(fixed.resolve().is_none());
    let optional = OptionalClientCert::new(None, limits());
    assert!(optional.resolve().is_none() && !optional.has_certs());
    let optional = OptionalClientCert::new(Some(authority.clone()), limits());
    assert!(optional.resolve().is_some() && optional.has_certs());
    let optional = OptionalClientCert::new(Some(authority), short);
    assert!(optional.resolve().is_none() && optional.has_certs());
}

#[test]
fn response_must_be_current() {
    let servers = ServerVerifier::new(roots(), provider(), limits()).unwrap();
    let clients = ClientVerifier::new(roots(), provider(), limits()).unwrap();
    let chain = vec![LEAF.to_vec()];
    for now in [1_700_000_000, 2_200_000_000] {
        assert!(servers
            .verify_server_cert(chain.clone(), &localhost(), &RESPONSE, now)
            .is_err());
        assert!(clients
            .verify_client_cert_with_ocsp(chain.clone(), &RESPONSE, now)
            .is_err());
    }
    // By the later time only the response is out of date: the chain itself is still trusted.
    assert!(matches!(
        servers.verify_server_cert(chain.clone(), &localhost(), &RESPONSE, 2_200_000_000),
        Err(CertificateError::InvalidOcspResponse)
    ));
    assert!(servers
        .examine(&chain, &localhost(), &RESPONSE, 2_200_000_000)
        .is_ok());
    let remote = servers
        .verify_server_cert(chain, &localhost(), &RESPONSE, VALID)
        .unwrap();
    assert_eq!(remote.name(), "localhost");
}

#[test]
fn server_certificate_requires_current_matching_good_ocsp() {
    assert!(LocalAuthority::new(
        &provider(),
        "localhost".to_owned(),
        vec![LEAF.to_vec()],
        private_key(7),
        Vec::new(),
    )
    .is_err());
    for ocsp in [CLIENT_RESPONSE.as_slice(), REVOKED.as_slice()] {
        let (mut asking, mut answering) = (client("localhost"), server(authority(ocsp)));
        assert!(shake(&mut asking, &mut answering).is_err());
    }
    let mut invalid_signature = RESPONSE.to_vec();
    let signature = invalid_signature
        .windows(3)
        .position(|bytes| bytes == [0x03, 0x41, 0x00])
        .unwrap()
        + 3;
    invalid_signature[signature] ^= 1;
    let (mut asking, mut answering) = (client("localhost"), server(authority(&invalid_signature)));
    assert!(shake(&mut asking, &mut answering).is_err());
    let verifier = ServerVerifier::new(roots(), provider(), limits()).unwrap();
    for ocsp in [&CLIENT_RESPONSE[..], &REVOKED[..], &invalid_signature[..]] {
        assert!(matches!(
            verifier.verify_server_cert(vec![LEAF.to_vec()], &localhost(), ocsp, VALID),
            Err(CertificateError::InvalidOcspResponse)
        ));
    }
}

#[test]
fn presented_client_certificate_requires_matching_ocsp() {
    assert!(LocalAuthority::new(
        &provider(),
        "client".to_owned(),
        vec![CLIENT.to_vec()],
        private_key(5),
        Vec::new(),
    )
    .is_err());
    let verifier = ClientVerifier::new(roots(), provider(), limits()).unwrap();
    let chain = vec![CLIENT.to_vec()];
    for ocsp in [RESPONSE.as_slice(), REVOKED.as_slice(), &[]] {
        assert!(matches!(
            verifier.verify_client_cert_with_ocsp(chain.clone(), ocsp, VALID),
            Err(CertificateError::InvalidOcspResponse)
        ));
    }
    let remote = verifier
        .verify_client_cert_with_ocsp(chain, &CLIENT_RESPONSE, VALID)
        .unwrap();
    assert_eq!(remote.name(), "client");
    assert_eq!(remote.certificates()[..], [CLIENT.to_vec()]);
}

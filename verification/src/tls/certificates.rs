//! What is asked of a peer's certificates.
use std::sync::Arc;

use rustls::client::danger::ServerCertVerifier;
use vstd::prelude::*;

use crate::base::bytes::copy_of;
use crate::base::text::optional_text;
use crate::tls::authority::{
    alternative_names_of, certificate_name, chain_bytes, chain_key, dns_name, name_of, name_or_fault, AuthorityFault,
    LocalAuthority, NameFault, RemoteAuthority,
};
use crate::tls::error::TlsConfigError;
use crate::tls::handshake::TlsLimits;
use crate::tls::ocsp::{check_response, is_issuer, response_good, verify};
use crate::tls::root::RootCertsSnapshot;

verus! {

#[verifier::external_type_specification]
#[verifier::external_body]
pub struct ExRustlsError(rustls::Error);

#[verifier::external_type_specification]
#[verifier::external_body]
pub struct ExWebPkiServerVerifier(rustls::client::WebPkiServerVerifier);

#[verifier::external_type_specification]
#[verifier::external_body]
pub struct ExServerName<'a>(rustls::pki_types::ServerName<'a>);

/// Why certificates are refused.
#[derive(Debug)]
pub enum CertificateError {
    BadEncoding,
    InvalidOcspResponse,
    NotValidForName,
    /// The chain is not trusted.
    Untrusted(rustls::Error),
}

/// How long byte strings are together.
pub open spec fn total(parts: Seq<Seq<u8>>) -> nat
    decreases parts.len(),
{
    if parts.len() == 0 {
        0
    } else {
        total(parts.drop_last()) + parts.last().len()
    }
}

proof fn lemma_total_grows(parts: Seq<Seq<u8>>, n: int)
    requires
        0 <= n <= parts.len(),
    ensures
        total(parts.take(n)) <= total(parts),
    decreases parts.len() - n,
{
    if n < parts.len() {
        lemma_total_grows(parts, n + 1);
        assert(parts.take(n + 1).drop_last() =~= parts.take(n));
    } else {
        assert(parts.take(n) =~= parts);
    }
}

/// Whether a chain keeps the limits.
pub open spec fn chain_fits(certificates: Seq<Seq<u8>>, limits: TlsLimits) -> bool {
    certificates.len() <= limits.max_certificates && total(certificates) <= limits.max_certificate_chain_bytes
}

fn chain_within_limits(certificates: &Vec<Vec<u8>>, limits: TlsLimits) -> (fits: bool)
    ensures
        fits == chain_fits(chain_bytes(certificates@), limits),
{
    let ghost chain = chain_bytes(certificates@);
    if certificates.len() > limits.max_certificates {
        return false;
    }
    let mut left: usize = limits.max_certificate_chain_bytes;
    let mut at: usize = 0;
    while at < certificates.len()
        invariant
            at <= certificates.len(),
            chain == chain_bytes(certificates@),
            certificates@.len() <= limits.max_certificates,
            left + total(chain.take(at as int)) == limits.max_certificate_chain_bytes,
        decreases certificates.len() - at,
    {
        let len = certificates[at].len();
        proof {
            assert(chain[at as int] == certificates@[at as int]@);
            assert(chain.take(at as int + 1).drop_last() =~= chain.take(at as int));
            lemma_total_grows(chain, at as int + 1);
        }
        if len > left {
            return false;
        }
        left = left - len;
        at = at + 1;
    }
    assert(chain.take(chain.len() as int) =~= chain);
    true
}

/// Whether credentials keep the limits that peers are held to.
pub fn authority_within_limits(authority: &LocalAuthority, limits: TlsLimits) -> (fits: bool)
    ensures
        fits == authority_fits(*authority, limits),
{
    chain_within_limits(&authority.certificates, limits) && authority.ocsp.len() <= limits.max_ocsp_bytes
}

/// Whether credentials keep the limits.
pub open spec fn authority_fits(authority: LocalAuthority, limits: TlsLimits) -> bool {
    chain_fits(chain_bytes(authority.certificates@), limits) && authority.ocsp@.len() <= limits.max_ocsp_bytes
}

/// The credentials of a server.
pub struct FixedServerCert {
    pub local: LocalAuthority,
    pub limits: TlsLimits,
}

impl FixedServerCert {
    pub fn new(local: LocalAuthority, limits: TlsLimits) -> (cert: FixedServerCert)
        ensures
            cert.local == local,
            cert.limits == limits,
    {
        FixedServerCert { local, limits }
    }

    /// What is presented to a client, whatever it asks for: nothing, where it is too large. What is
    /// presented becomes the local authority of the handshake.
    pub fn resolve(&self) -> (key: Option<Arc<rustls::sign::CertifiedKey>>)
        ensures
            key == if authority_fits(self.local, self.limits) {
                Some(self.local.key)
            } else {
                None
            },
    {
        if !authority_within_limits(&self.local, self.limits) {
            return None;
        }
        Some(self.local.certified_key())
    }
}

/// The credentials of a client, if it has any.
pub struct OptionalClientCert {
    pub local: Option<LocalAuthority>,
    pub limits: TlsLimits,
}

impl OptionalClientCert {
    pub fn new(local: Option<LocalAuthority>, limits: TlsLimits) -> (cert: OptionalClientCert)
        ensures
            cert.local == local,
            cert.limits == limits,
    {
        OptionalClientCert { local, limits }
    }

    /// What is presented to a server, whatever it asks for: nothing, where there is none or it is too
    /// large. What is presented becomes the local authority of the handshake.
    pub fn resolve(&self) -> (key: Option<Arc<rustls::sign::CertifiedKey>>)
        ensures
            key == match self.local {
                Some(local) if authority_fits(local, self.limits) => Some(local.key),
                _ => None,
            },
    {
        match &self.local {
            Some(local) => if authority_within_limits(local, self.limits) {
                Some(local.certified_key())
            } else {
                None
            },
            None => None,
        }
    }

    /// The credentials for a session that is resumed: those that are held, where they keep the limits.
    /// `expected` says whether the session was made with them.
    pub fn rebind(&self, expected: bool) -> (authority: Option<&LocalAuthority>)
        ensures
            match self.local {
                Some(local) if authority_fits(local, self.limits) && expected => authority matches Some(found)
                    && *found == local,
                _ => authority is None,
            },
    {
        match &self.local {
            Some(local) => if !authority_within_limits(local, self.limits) || !expected {
                None
            } else {
                Some(local)
            },
            None => None,
        }
    }

    pub fn has_certs(&self) -> (has: bool)
        ensures
            has == self.local is Some,
    {
        self.local.is_some()
    }
}

/// Refuses a chain or an OCSP response that is too large.
pub fn validate_peer_limits(certificates: &Vec<Vec<u8>>, ocsp: &[u8], limits: TlsLimits) -> (result: Result<
    (),
    CertificateError,
>)
    ensures
        if !chain_fits(chain_bytes(certificates@), limits) {
            result matches Err(error) && error is BadEncoding
        } else if ocsp@.len() > limits.max_ocsp_bytes {
            result matches Err(error) && error is InvalidOcspResponse
        } else {
            result is Ok
        },
{
    if !chain_within_limits(certificates, limits) {
        return Err(CertificateError::BadEncoding);
    }
    if ocsp.len() > limits.max_ocsp_bytes {
        return Err(CertificateError::InvalidOcspResponse);
    }
    Ok(())
}

/// The verifier of server certificates for roots and a provider, or why there is none.
pub uninterp spec fn server_verifier(
    roots: Arc<rustls::RootCertStore>,
    provider: Arc<rustls::crypto::CryptoProvider>,
) -> Result<rustls::client::WebPkiServerVerifier, Seq<char>>;

/// Whether a server's chain is trusted for a name at a time in seconds, or why not.
pub uninterp spec fn server_trust(
    verifier: rustls::client::WebPkiServerVerifier,
    chain: Seq<Seq<u8>>,
    name: rustls::pki_types::ServerName<'static>,
    ocsp: Seq<u8>,
    now: u64,
) -> Result<(), rustls::Error>;

/// Why clients' chains cannot be verified with roots and a provider, if they cannot.
pub uninterp spec fn client_verifier_fault(
    roots: Arc<rustls::RootCertStore>,
    provider: Arc<rustls::crypto::CryptoProvider>,
) -> Option<Seq<char>>;

/// Whether a client's chain is trusted at a time in seconds, or why not.
pub uninterp spec fn client_trust(
    roots: Arc<rustls::RootCertStore>,
    provider: Arc<rustls::crypto::CryptoProvider>,
    chain: Seq<Seq<u8>>,
    now: u64,
) -> Result<(), rustls::Error>;

/// The signature algorithms of a provider.
pub uninterp spec fn algorithms_of(
    provider: rustls::crypto::CryptoProvider,
) -> rustls::crypto::WebPkiSupportedAlgorithms;

/// The DNS name in a server name, if it is one.
pub uninterp spec fn dns_of(name: rustls::pki_types::ServerName<'static>) -> Option<Seq<char>>;

pub open spec fn verifier_or_reason(result: Result<Arc<rustls::client::WebPkiServerVerifier>, String>) -> Result<
    rustls::client::WebPkiServerVerifier,
    Seq<char>,
> {
    match result {
        Ok(verifier) => Ok(*verifier),
        Err(reason) => Err(reason@),
    }
}

/// `rustls::client::ServerCertVerifierBuilder::build` after
/// `rustls::client::WebPkiServerVerifier::builder_with_provider`.
#[verifier::external_body]
fn build_server_verifier(roots: &Arc<rustls::RootCertStore>, provider: &Arc<rustls::crypto::CryptoProvider>) -> (result:
    Result<Arc<rustls::client::WebPkiServerVerifier>, String>)
    ensures
        verifier_or_reason(result) == server_verifier(*roots, *provider),
{
    rustls::client::WebPkiServerVerifier::builder_with_provider(roots.clone(), provider.clone())
        .build()
        .map_err(|error| error.to_string())
}

/// `rustls::client::danger::ServerCertVerifier::verify_server_cert` of the WebPKI verifier: the first
/// certificate is the server's, the others are intermediates.
#[verifier::external_body]
fn verify_server_chain(
    verifier: &Arc<rustls::client::WebPkiServerVerifier>,
    chain: &Vec<Vec<u8>>,
    name: &rustls::pki_types::ServerName<'static>,
    ocsp: &[u8],
    now: u64,
) -> (result: Result<(), rustls::Error>)
    requires
        chain@.len() > 0,
    ensures
        result == server_trust(**verifier, chain_bytes(chain@), *name, ocsp@, now),
{
    let ders: Vec<_> = chain.iter().map(|der| rustls::pki_types::CertificateDer::from(der.as_slice())).collect();
    let time = rustls::pki_types::UnixTime::since_unix_epoch(std::time::Duration::from_secs(now));
    verifier.verify_server_cert(&ders[0], &ders[1..], name, ocsp, time).map(|_| ())
}

/// `rustls::server::ClientCertVerifierBuilder::build` after
/// `rustls::server::WebPkiClientVerifier::builder_with_provider`: the text of its error, if it fails.
#[verifier::external_body]
fn check_client_verifier(
    roots: &Arc<rustls::RootCertStore>,
    provider: &Arc<rustls::crypto::CryptoProvider>,
) -> (fault: Option<String>)
    ensures
        optional_text(fault) == client_verifier_fault(*roots, *provider),
{
    rustls::server::WebPkiClientVerifier::builder_with_provider(roots.clone(), provider.clone())
        .build()
        .err()
        .map(|error| error.to_string())
}

/// `rustls::server::danger::ClientCertVerifier::verify_client_cert` of the WebPKI verifier for the
/// roots and the provider: the first certificate is the client's, the others are intermediates. The verifier
/// is built as above for each chain, since a built one is known by its trait alone.
#[verifier::external_body]
fn verify_client_chain(
    roots: &Arc<rustls::RootCertStore>,
    provider: &Arc<rustls::crypto::CryptoProvider>,
    chain: &Vec<Vec<u8>>,
    now: u64,
) -> (result: Result<(), rustls::Error>)
    requires
        chain@.len() > 0,
    ensures
        result == client_trust(*roots, *provider, chain_bytes(chain@), now),
{
    let ders: Vec<_> = chain.iter().map(|der| rustls::pki_types::CertificateDer::from(der.as_slice())).collect();
    let time = rustls::pki_types::UnixTime::since_unix_epoch(std::time::Duration::from_secs(now));
    rustls::server::WebPkiClientVerifier::builder_with_provider(roots.clone(), provider.clone())
        .build()
        .map_err(|error| rustls::Error::General(error.to_string()))?
        .verify_client_cert(&ders[0], &ders[1..], time)
        .map(|_| ())
}

/// The `signature_verification_algorithms` field of `rustls::crypto::CryptoProvider`.
#[verifier::external_body]
fn provider_algorithms(provider: &rustls::crypto::CryptoProvider) -> (algorithms:
    rustls::crypto::WebPkiSupportedAlgorithms)
    ensures
        algorithms == algorithms_of(*provider),
{
    provider.signature_verification_algorithms
}

/// The variants of `rustls::pki_types::ServerName`: the text of a DNS name, nothing for an address.
#[verifier::external_body]
fn dns_text(name: &rustls::pki_types::ServerName<'static>) -> (text: Option<String>)
    ensures
        optional_text(text) == dns_of(*name),
{
    match name {
        rustls::pki_types::ServerName::DnsName(name) => Some(name.as_ref().to_owned()),
        _ => None,
    }
}

proof fn lemma_chain_push(chain: Seq<Vec<u8>>, certificate: Vec<u8>)
    ensures
        chain_bytes(chain.push(certificate)) == chain_bytes(chain).push(certificate@),
{
    assert(chain_bytes(chain.push(certificate)) =~= chain_bytes(chain).push(certificate@));
}

/// The certificates of a presented chain after the first, then the roots: who may vouch for the
/// first.
fn candidates(chain: &Vec<Vec<u8>>, roots: &Vec<Vec<u8>>) -> (all: Vec<Vec<u8>>)
    requires
        chain@.len() > 0,
    ensures
        chain_bytes(all@) == chain_bytes(chain@).skip(1) + chain_bytes(roots@),
{
    let mut all: Vec<Vec<u8>> = Vec::new();
    let mut at: usize = 1;
    while at < chain.len()
        invariant
            1 <= at <= chain.len(),
            chain_bytes(all@) == chain_bytes(chain@).subrange(1, at as int),
        decreases chain.len() - at,
    {
        let certificate = copy_of(chain[at].as_slice());
        proof {
            lemma_chain_push(all@, certificate);
        }
        all.push(certificate);
        at = at + 1;
        assert(chain_bytes(all@) =~= chain_bytes(chain@).subrange(1, at as int));
    }
    let mut root: usize = 0;
    assert(chain_bytes(chain@).subrange(1, chain@.len() as int) =~= chain_bytes(chain@).skip(1));
    assert(chain_bytes(roots@).take(0) =~= Seq::empty());
    assert(chain_bytes(all@) =~= chain_bytes(chain@).skip(1) + chain_bytes(roots@).take(0));
    while root < roots.len()
        invariant
            root <= roots.len(),
            chain_bytes(all@) == chain_bytes(chain@).skip(1) + chain_bytes(roots@).take(root as int),
        decreases roots.len() - root,
    {
        let certificate = copy_of(roots[root].as_slice());
        proof {
            lemma_chain_push(all@, certificate);
        }
        all.push(certificate);
        root = root + 1;
        assert(chain_bytes(all@) =~= chain_bytes(chain@).skip(1) + chain_bytes(roots@).take(root as int));
    }
    assert(chain_bytes(roots@).take(roots@.len() as int) =~= chain_bytes(roots@));
    all
}

/// Whether `issuer` is the certificate whose word counts: the first of `all` that issued the first
/// of `chain`.
pub open spec fn vouches(
    chain: Seq<Seq<u8>>,
    all: Seq<Seq<u8>>,
    issuer: Seq<u8>,
    algorithms: rustls::crypto::WebPkiSupportedAlgorithms,
) -> bool {
    exists|i: int|
        #![trigger all[i]]
        {
            &&& 0 <= i < all.len()
            &&& all[i] == issuer
            &&& is_issuer(chain[0], all[i], algorithms)
            &&& forall|j: int| #![trigger all[j]] 0 <= j < i ==> !is_issuer(chain[0], all[j], algorithms)
        }
}

/// Whether nobody's word counts.
pub open spec fn unvouched(
    chain: Seq<Seq<u8>>,
    all: Seq<Seq<u8>>,
    algorithms: rustls::crypto::WebPkiSupportedAlgorithms,
) -> bool {
    forall|i: int| #![trigger all[i]] 0 <= i < all.len() ==> !is_issuer(chain[0], all[i], algorithms)
}

/// What the examination of a chain finds before revocation is looked up: the issuer whose word on it
/// counts.
pub open spec fn examined(
    chain: Seq<Seq<u8>>,
    ocsp: Seq<u8>,
    roots: Seq<Seq<u8>>,
    limits: TlsLimits,
    algorithms: rustls::crypto::WebPkiSupportedAlgorithms,
    trust: Result<(), rustls::Error>,
    result: Result<Vec<u8>, CertificateError>,
) -> bool {
    let all = chain.skip(1) + roots;
    if !chain_fits(chain, limits) {
        result matches Err(error) && error is BadEncoding
    } else if ocsp.len() > limits.max_ocsp_bytes {
        result matches Err(error) && error is InvalidOcspResponse
    } else if trust is Err {
        result matches Err(CertificateError::Untrusted(error)) && trust == Err::<(), rustls::Error>(error)
    } else if ocsp.len() == 0 || unvouched(chain, all, algorithms) {
        result matches Err(error) && error is InvalidOcspResponse
    } else {
        result matches Ok(issuer) && vouches(chain, all, issuer@, algorithms)
    }
}

/// Finds the issuer of a chain's first certificate among the others and the roots.
fn find_issuer(
    chain: &Vec<Vec<u8>>,
    ocsp: &[u8],
    roots: &Vec<Vec<u8>>,
    algorithms: &rustls::crypto::WebPkiSupportedAlgorithms,
) -> (result: Result<Vec<u8>, CertificateError>)
    requires
        chain@.len() > 0,
    ensures
        ({
            let all = chain_bytes(chain@).skip(1) + chain_bytes(roots@);
            if ocsp@.len() == 0 || unvouched(chain_bytes(chain@), all, *algorithms) {
                result matches Err(error) && error is InvalidOcspResponse
            } else {
                result matches Ok(issuer) && vouches(chain_bytes(chain@), all, issuer@, *algorithms)
            }
        }),
{
    let all = candidates(chain, roots);
    let ghost read = chain_bytes(all@);
    let ghost presented = chain_bytes(chain@);
    assert(presented[0] == chain@[0]@);
    assert forall|i: int| #![trigger read[i]] 0 <= i < read.len() implies read[i] == all@[i]@ by {}
    match verify(ocsp, chain[0].as_slice(), &all, algorithms) {
        Some(index) => {
            let issuer = copy_of(all[index].as_slice());
            proof {
                let i = index as int;
                assert(read[i] == issuer@);
                assert(is_issuer(presented[0], read[i], *algorithms));
                assert forall|j: int| #![trigger read[j]] 0 <= j < i implies !is_issuer(
                    presented[0],
                    read[j],
                    *algorithms,
                ) by {
                    assert(read[j] == all@[j]@);
                }
                assert(vouches(presented, read, issuer@, *algorithms));
                assert(!unvouched(presented, read, *algorithms));
            }
            Ok(issuer)
        },
        None => {
            proof {
                if ocsp@.len() > 0 {
                    assert forall|i: int| #![trigger read[i]] 0 <= i < read.len() implies !is_issuer(
                        presented[0],
                        read[i],
                        *algorithms,
                    ) by {
                        assert(read[i] == all@[i]@);
                    }
                }
            }
            Err(CertificateError::InvalidOcspResponse)
        },
    }
}

/// What a peer's chain leads to once its issuer's word on revocation is known.
pub open spec fn admitted(
    name: Result<Seq<char>, NameFault>,
    chain: Seq<Seq<u8>>,
    good: bool,
    result: Result<RemoteAuthority, CertificateError>,
) -> bool {
    if !good {
        result matches Err(error) && error is InvalidOcspResponse
    } else {
        match name {
            Err(NameFault::NotValidForName) => result matches Err(error) && error is NotValidForName,
            Err(NameFault::BadEncoding) => result matches Err(error) && error is BadEncoding,
            Ok(name) => match chain_key(chain) {
                Ok(key) if dns_name(name) => result matches Ok(authority) && authority.name@ == name
                    && chain_bytes(authority.certificates@) == chain && authority.public_key@ == key,
                _ => result matches Err(error) && error is BadEncoding,
            },
        }
    }
}

fn accept_peer(name: Result<String, NameFault>, chain: Vec<Vec<u8>>, good: bool) -> (result: Result<
    RemoteAuthority,
    CertificateError,
>)
    ensures
        admitted(name_or_fault(name), chain_bytes(chain@), good, result),
{
    if !good {
        return Err(CertificateError::InvalidOcspResponse);
    }
    let name = match name {
        Ok(name) => name,
        Err(NameFault::NotValidForName) => return Err(CertificateError::NotValidForName),
        Err(NameFault::BadEncoding) => return Err(CertificateError::BadEncoding),
    };
    match RemoteAuthority::new(name, chain) {
        Ok(authority) => Ok(authority),
        Err(_) => Err(CertificateError::BadEncoding),
    }
}

/// What the verification of a chain comes to: what its examination finds, and where that is an issuer,
/// what the issuer's word on the revocation of the first certificate leads to.
pub open spec fn verified(
    name: Result<Seq<char>, NameFault>,
    chain: Seq<Seq<u8>>,
    ocsp: Seq<u8>,
    now: u64,
    roots: Seq<Seq<u8>>,
    limits: TlsLimits,
    algorithms: rustls::crypto::WebPkiSupportedAlgorithms,
    trust: Result<(), rustls::Error>,
    result: Result<RemoteAuthority, CertificateError>,
) -> bool {
    exists|issuer: Result<Vec<u8>, CertificateError>| #[trigger]
        examined(chain, ocsp, roots, limits, algorithms, trust, issuer) && match issuer {
            Err(error) => result == Err::<RemoteAuthority, CertificateError>(error),
            Ok(issuer) => admitted(
                name,
                chain,
                response_good(ocsp, chain[0], issuer@, now, algorithms),
                result,
            ),
        }
}

/// The name that a server is asked for by, if that is a DNS name.
pub open spec fn asked_for(server_name: rustls::pki_types::ServerName<'static>) -> Result<Seq<char>, NameFault> {
    match dns_of(server_name) {
        Some(name) => Ok(name),
        None => Err(NameFault::NotValidForName),
    }
}

/// Verifies servers.
pub struct ServerVerifier {
    pub inner: Arc<rustls::client::WebPkiServerVerifier>,
    pub roots: RootCertsSnapshot,
    pub algorithms: rustls::crypto::WebPkiSupportedAlgorithms,
    pub limits: TlsLimits,
}

impl ServerVerifier {
    pub fn new(
        roots: RootCertsSnapshot,
        provider: Arc<rustls::crypto::CryptoProvider>,
        limits: TlsLimits,
    ) -> (result: Result<ServerVerifier, TlsConfigError>)
        ensures
            match server_verifier(roots.store, provider) {
                Ok(inner) => result matches Ok(verifier) && *verifier.inner == inner && verifier.roots == roots
                    && verifier.algorithms == algorithms_of(*provider) && verifier.limits == limits,
                Err(reason) => result matches Err(TlsConfigError::Invalid(text)) && text@ == reason,
            },
    {
        match build_server_verifier(&roots.store, &provider) {
            Ok(inner) => {
                let algorithms = provider_algorithms(&provider);
                Ok(ServerVerifier { inner, roots, algorithms, limits })
            },
            Err(reason) => Err(TlsConfigError::Invalid(reason)),
        }
    }

    /// Examines a server's chain, up to whose word on revocation counts.
    pub fn examine(
        &self,
        chain: &Vec<Vec<u8>>,
        server_name: &rustls::pki_types::ServerName<'static>,
        ocsp_response: &[u8],
        now: u64,
    ) -> (issuer: Result<Vec<u8>, CertificateError>)
        requires
            chain@.len() > 0,
        ensures
            examined(
                chain_bytes(chain@),
                ocsp_response@,
                chain_bytes(self.roots.certificates@),
                self.limits,
                self.algorithms,
                server_trust(*self.inner, chain_bytes(chain@), *server_name, ocsp_response@, now),
                issuer,
            ),
    {
        match validate_peer_limits(chain, ocsp_response, self.limits) {
            Ok(_) => {},
            Err(error) => return Err(error),
        }
        match verify_server_chain(&self.inner, chain, server_name, ocsp_response, now) {
            Ok(_) => {},
            Err(error) => return Err(CertificateError::Untrusted(error)),
        }
        find_issuer(chain, ocsp_response, &self.roots.certificates, &self.algorithms)
    }

    /// Accepts a server whose certificate is not revoked: it must have been asked for by DNS name.
    pub fn accept_server(
        &self,
        chain: Vec<Vec<u8>>,
        server_name: &rustls::pki_types::ServerName<'static>,
        good: bool,
    ) -> (result: Result<RemoteAuthority, CertificateError>)
        ensures
            admitted(asked_for(*server_name), chain_bytes(chain@), good, result),
    {
        let name = match dns_text(server_name) {
            Some(name) => Ok(name),
            None => Err(NameFault::NotValidForName),
        };
        accept_peer(name, chain, good)
    }

    /// Verifies a server by its chain and the OCSP response that came with it.
    pub fn verify_server_cert(
        &self,
        chain: Vec<Vec<u8>>,
        server_name: &rustls::pki_types::ServerName<'static>,
        ocsp_response: &[u8],
        now: u64,
    ) -> (result: Result<RemoteAuthority, CertificateError>)
        requires
            chain@.len() > 0,
        ensures
            verified(
                asked_for(*server_name),
                chain_bytes(chain@),
                ocsp_response@,
                now,
                chain_bytes(self.roots.certificates@),
                self.limits,
                self.algorithms,
                server_trust(*self.inner, chain_bytes(chain@), *server_name, ocsp_response@, now),
                result,
            ),
    {
        let examination = self.examine(&chain, server_name, ocsp_response, now);
        let ghost found = examination;
        assert(chain_bytes(chain@)[0] == chain@[0]@);
        assert(examined(
            chain_bytes(chain@),
            ocsp_response@,
            chain_bytes(self.roots.certificates@),
            self.limits,
            self.algorithms,
            server_trust(*self.inner, chain_bytes(chain@), *server_name, ocsp_response@, now),
            found,
        ));
        match examination {
            Ok(issuer) => {
                let good = check_response(
                    ocsp_response,
                    chain[0].as_slice(),
                    issuer.as_slice(),
                    now,
                    &self.algorithms,
                );
                self.accept_server(chain, server_name, good)
            },
            Err(error) => Err(error),
        }
    }
}

/// Verifies clients.
pub struct ClientVerifier {
    pub provider: Arc<rustls::crypto::CryptoProvider>,
    pub roots: RootCertsSnapshot,
    pub algorithms: rustls::crypto::WebPkiSupportedAlgorithms,
    pub limits: TlsLimits,
}

impl ClientVerifier {
    pub fn new(
        roots: RootCertsSnapshot,
        provider: Arc<rustls::crypto::CryptoProvider>,
        limits: TlsLimits,
    ) -> (result: Result<ClientVerifier, TlsConfigError>)
        ensures
            match client_verifier_fault(roots.store, provider) {
                None => result matches Ok(verifier) && verifier.provider == provider && verifier.roots == roots
                    && verifier.algorithms == algorithms_of(*provider) && verifier.limits == limits,
                Some(reason) => result matches Err(TlsConfigError::Invalid(text)) && text@ == reason,
            },
    {
        match check_client_verifier(&roots.store, &provider) {
            None => {
                let algorithms = provider_algorithms(&provider);
                Ok(ClientVerifier { provider, roots, algorithms, limits })
            },
            Some(reason) => Err(TlsConfigError::Invalid(reason)),
        }
    }

    /// Examines a client's chain, up to whose word on revocation counts.
    pub fn examine(&self, chain: &Vec<Vec<u8>>, ocsp_response: &[u8], now: u64) -> (issuer: Result<
        Vec<u8>,
        CertificateError,
    >)
        requires
            chain@.len() > 0,
        ensures
            examined(
                chain_bytes(chain@),
                ocsp_response@,
                chain_bytes(self.roots.certificates@),
                self.limits,
                self.algorithms,
                client_trust(self.roots.store, self.provider, chain_bytes(chain@), now),
                issuer,
            ),
    {
        match validate_peer_limits(chain, ocsp_response, self.limits) {
            Ok(_) => {},
            Err(error) => return Err(error),
        }
        match verify_client_chain(&self.roots.store, &self.provider, chain, now) {
            Ok(_) => {},
            Err(error) => return Err(CertificateError::Untrusted(error)),
        }
        find_issuer(chain, ocsp_response, &self.roots.certificates, &self.algorithms)
    }

    /// Accepts a client whose certificate is not revoked, under the first DNS name among its
    /// alternative names.
    pub fn accept_client(&self, chain: Vec<Vec<u8>>, good: bool) -> (result: Result<RemoteAuthority, CertificateError>)
        requires
            chain@.len() > 0,
        ensures
            admitted(name_of(alternative_names_of(chain@[0]@)), chain_bytes(chain@), good, result),
    {
        let name = certificate_name(chain[0].as_slice());
        accept_peer(name, chain, good)
    }

    /// Verifies a client by its chain and the OCSP response that came with it.
    pub fn verify_client_cert_with_ocsp(&self, chain: Vec<Vec<u8>>, ocsp_response: &[u8], now: u64) -> (result: Result<
        RemoteAuthority,
        CertificateError,
    >)
        requires
            chain@.len() > 0,
        ensures
            verified(
                name_of(alternative_names_of(chain@[0]@)),
                chain_bytes(chain@),
                ocsp_response@,
                now,
                chain_bytes(self.roots.certificates@),
                self.limits,
                self.algorithms,
                client_trust(self.roots.store, self.provider, chain_bytes(chain@), now),
                result,
            ),
    {
        let examination = self.examine(&chain, ocsp_response, now);
        let ghost found = examination;
        assert(chain_bytes(chain@)[0] == chain@[0]@);
        assert(examined(
            chain_bytes(chain@),
            ocsp_response@,
            chain_bytes(self.roots.certificates@),
            self.limits,
            self.algorithms,
            client_trust(self.roots.store, self.provider, chain_bytes(chain@), now),
            found,
        ));
        match examination {
            Ok(issuer) => {
                let good = check_response(
                    ocsp_response,
                    chain[0].as_slice(),
                    issuer.as_slice(),
                    now,
                    &self.algorithms,
                );
                self.accept_client(chain, good)
            },
            Err(error) => Err(error),
        }
    }
}

/// Who is admitted has a trusted chain within the limits, and the issuer of its first certificate says
/// that this one is good: without such a response a chain gets nowhere.
pub proof fn only_good_certificates_are_admitted(
    name: Result<Seq<char>, NameFault>,
    chain: Seq<Seq<u8>>,
    ocsp: Seq<u8>,
    now: u64,
    roots: Seq<Seq<u8>>,
    limits: TlsLimits,
    algorithms: rustls::crypto::WebPkiSupportedAlgorithms,
    trust: Result<(), rustls::Error>,
    result: Result<RemoteAuthority, CertificateError>,
)
    requires
        verified(name, chain, ocsp, now, roots, limits, algorithms, trust, result),
        result is Ok,
    ensures
        chain_fits(chain, limits),
        trust is Ok,
        ocsp.len() > 0,
        exists|issuer: Seq<u8>| #[trigger]
            vouches(chain, chain.skip(1) + roots, issuer, algorithms) && response_good(
                ocsp,
                chain[0],
                issuer,
                now,
                algorithms,
            ),
{
    let examination = choose|issuer: Result<Vec<u8>, CertificateError>| #[trigger]
        examined(chain, ocsp, roots, limits, algorithms, trust, issuer) && match issuer {
            Err(error) => result == Err::<RemoteAuthority, CertificateError>(error),
            Ok(issuer) => admitted(
                name,
                chain,
                response_good(ocsp, chain[0], issuer@, now, algorithms),
                result,
            ),
        };
    assert(examination is Ok);
    assert(vouches(chain, chain.skip(1) + roots, examination->Ok_0@, algorithms));
}

/// A chain without an OCSP response gets nowhere.
pub proof fn revocation_must_be_stapled(
    chain: Seq<Seq<u8>>,
    roots: Seq<Seq<u8>>,
    limits: TlsLimits,
    algorithms: rustls::crypto::WebPkiSupportedAlgorithms,
    trust: Result<(), rustls::Error>,
    result: Result<Vec<u8>, CertificateError>,
)
    requires
        examined(chain, Seq::empty(), roots, limits, algorithms, trust, result),
    ensures
        result is Err,
{
}

/// A chain keeps the limits exactly if it has no more certificates than allowed, and all of them put together
/// are no longer than allowed.
pub proof fn limits_are_on_count_and_length(certificates: Seq<Seq<u8>>, limits: TlsLimits)
    ensures
        chain_fits(certificates, limits) <==> certificates.len() <= limits.max_certificates
            && certificates.flatten().len() <= limits.max_certificate_chain_bytes,
{
    lemma_total_is_flat(certificates);
}

proof fn lemma_total_is_flat(parts: Seq<Seq<u8>>)
    ensures
        total(parts) == parts.flatten().len(),
    decreases parts.len(),
{
    if parts.len() > 0 {
        let rest = parts.drop_last();
        lemma_total_is_flat(rest);
        rest.lemma_flatten_push(parts.last());
        assert(rest.push(parts.last()) =~= parts);
    }
}

/// Credentials are presented exactly if their chain and their response keep the limits.
pub proof fn credentials_keep_the_limits(authority: LocalAuthority, limits: TlsLimits)
    ensures
        authority_fits(authority, limits) <==> authority.certificates@.len() <= limits.max_certificates && chain_bytes(
            authority.certificates@,
        ).flatten().len() <= limits.max_certificate_chain_bytes && authority.ocsp@.len() <= limits.max_ocsp_bytes,
{
    limits_are_on_count_and_length(chain_bytes(authority.certificates@), limits);
}

/// A chain is admitted exactly if it and its response keep the limits, the chain is trusted, the response is
/// there, the issuer that vouches for the first certificate says that it is good, and the chain has a key and a
/// name that is a DNS name. The authority is then made of just these.
pub proof fn trusted_and_good_chain_is_admitted(
    name: Result<Seq<char>, NameFault>,
    chain: Seq<Seq<u8>>,
    ocsp: Seq<u8>,
    now: u64,
    roots: Seq<Seq<u8>>,
    limits: TlsLimits,
    algorithms: rustls::crypto::WebPkiSupportedAlgorithms,
    trust: Result<(), rustls::Error>,
    result: Result<RemoteAuthority, CertificateError>,
    issuer: Seq<u8>,
)
    requires
        verified(name, chain, ocsp, now, roots, limits, algorithms, trust, result),
        vouches(chain, chain.skip(1) + roots, issuer, algorithms),
    ensures
        result is Ok <==> {
            &&& chain.len() <= limits.max_certificates
            &&& chain.flatten().len() <= limits.max_certificate_chain_bytes
            &&& 0 < ocsp.len() <= limits.max_ocsp_bytes
            &&& trust is Ok
            &&& response_good(ocsp, chain[0], issuer, now, algorithms)
            &&& name matches Ok(name) && dns_name(name)
            &&& chain_key(chain) is Ok
        },
        result matches Ok(authority) ==> Ok::<Seq<char>, NameFault>(authority.name@) == name && chain_bytes(
            authority.certificates@,
        ) == chain && chain_key(chain) == Ok::<Seq<u8>, AuthorityFault>(authority.public_key@),
        chain_fits(chain, limits) && ocsp.len() <= limits.max_ocsp_bytes && trust is Err ==> (result matches Err(
            CertificateError::Untrusted(error),
        ) && trust == Err::<(), rustls::Error>(error)),
        !chain_fits(chain, limits) ==> (result matches Err(error) && error is BadEncoding),
{
    limits_are_on_count_and_length(chain, limits);
    let all = chain.skip(1) + roots;
    let found = choose|found: Result<Vec<u8>, CertificateError>| #[trigger]
        examined(chain, ocsp, roots, limits, algorithms, trust, found) && match found {
            Err(error) => result == Err::<RemoteAuthority, CertificateError>(error),
            Ok(issuer) => admitted(
                name,
                chain,
                response_good(ocsp, chain[0], issuer@, now, algorithms),
                result,
            ),
        };
    let i = choose|i: int|
        #![trigger all[i]]
        {
            &&& 0 <= i < all.len()
            &&& all[i] == issuer
            &&& is_issuer(chain[0], all[i], algorithms)
            &&& forall|j: int| #![trigger all[j]] 0 <= j < i ==> !is_issuer(chain[0], all[j], algorithms)
        };
    assert(!unvouched(chain, all, algorithms)) by {
        assert(is_issuer(chain[0], all[i], algorithms));
    }
    if let Ok(other) = found {
        let j = choose|j: int|
            #![trigger all[j]]
            {
                &&& 0 <= j < all.len()
                &&& all[j] == other@
                &&& is_issuer(chain[0], all[j], algorithms)
                &&& forall|k: int| #![trigger all[k]] 0 <= k < j ==> !is_issuer(chain[0], all[k], algorithms)
            };
        assert(i == j) by {
            if i < j {
                assert(!is_issuer(chain[0], all[i], algorithms));
            }
            if j < i {
                assert(!is_issuer(chain[0], all[j], algorithms));
            }
        }
    }
}

/// A server is known by the DNS name that it was asked for by; one that was asked for by an address has no name.
pub proof fn server_is_known_by_the_name_asked_for(server_name: rustls::pki_types::ServerName<'static>)
    ensures
        dns_of(server_name) matches Some(name) ==> asked_for(server_name) == Ok::<Seq<char>, NameFault>(name),
        dns_of(server_name) is None ==> asked_for(server_name) == Err::<Seq<char>, NameFault>(NameFault::NotValidForName),
{
}

} // verus!

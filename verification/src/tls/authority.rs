//! Who the two ends of a handshake are.
use std::sync::Arc;

use vstd::prelude::*;
use vstd::string::*;
use x509_parser::prelude::FromDer;

use crate::base::text::join;
use crate::tls::backend::optional_bytes;
use crate::transport::protection::share;

verus! {

#[verifier::external_type_specification]
#[verifier::external_body]
pub struct ExCertifiedKey(rustls::sign::CertifiedKey);

#[verifier::external_type_specification]
#[verifier::external_body]
pub struct ExCryptoProvider(rustls::crypto::CryptoProvider);

#[verifier::external_type_specification]
#[verifier::external_body]
pub struct ExPrivateKeyDer<'a>(rustls::pki_types::PrivateKeyDer<'a>);

/// Why credentials are refused.
#[derive(Debug)]
pub enum InvalidLocalAuthority {
    EmptyCertificateChain,
    InvalidCertificate(String),
    InvalidPrivateKey(String),
    InvalidName,
    EmptyOcsp,
}

/// `InvalidLocalAuthority` with its text read.
pub enum AuthorityFault {
    EmptyCertificateChain,
    InvalidCertificate(Seq<char>),
    InvalidPrivateKey(Seq<char>),
    InvalidName,
    EmptyOcsp,
}

impl InvalidLocalAuthority {
    pub open spec fn view(&self) -> AuthorityFault {
        match *self {
            InvalidLocalAuthority::EmptyCertificateChain => AuthorityFault::EmptyCertificateChain,
            InvalidLocalAuthority::InvalidCertificate(reason) => AuthorityFault::InvalidCertificate(reason@),
            InvalidLocalAuthority::InvalidPrivateKey(reason) => AuthorityFault::InvalidPrivateKey(reason@),
            InvalidLocalAuthority::InvalidName => AuthorityFault::InvalidName,
            InvalidLocalAuthority::EmptyOcsp => AuthorityFault::EmptyOcsp,
        }
    }

    /// A one-line description.
    pub fn message(&self) -> (text: String)
        ensures
            text@ == match *self {
                InvalidLocalAuthority::EmptyCertificateChain => "certificate chain is empty"@,
                InvalidLocalAuthority::InvalidCertificate(reason) => "invalid certificate: "@ + reason@,
                InvalidLocalAuthority::InvalidPrivateKey(reason) => "invalid private key: "@ + reason@,
                InvalidLocalAuthority::InvalidName => "invalid authority name"@,
                InvalidLocalAuthority::EmptyOcsp => "OCSP response is empty"@,
            },
    {
        match self {
            InvalidLocalAuthority::EmptyCertificateChain => "certificate chain is empty".to_owned(),
            InvalidLocalAuthority::InvalidCertificate(reason) => join("invalid certificate: ", reason.as_str()),
            InvalidLocalAuthority::InvalidPrivateKey(reason) => join("invalid private key: ", reason.as_str()),
            InvalidLocalAuthority::InvalidName => "invalid authority name".to_owned(),
            InvalidLocalAuthority::EmptyOcsp => "OCSP response is empty".to_owned(),
        }
    }
}

/// Why nothing was signed.
#[derive(Clone, Copy, Debug, PartialEq, Eq, Structural)]
pub enum SignError {
    UnsupportedScheme { scheme: u16 },
    SigningFailed,
}

/// The certificates of a chain, byte for byte.
pub open spec fn chain_bytes(certificates: Seq<Vec<u8>>) -> Seq<Seq<u8>> {
    certificates.map_values(|certificate: Vec<u8>| certificate@)
}

pub open spec fn bytes_or_reason(result: Result<Vec<u8>, String>) -> Result<Seq<u8>, Seq<char>> {
    match result {
        Ok(bytes) => Ok(bytes@),
        Err(reason) => Err(reason@),
    }
}

pub open spec fn key_or_reason(result: Result<rustls::sign::CertifiedKey, String>) -> Result<
    rustls::sign::CertifiedKey,
    Seq<char>,
> {
    match result {
        Ok(key) => Ok(key),
        Err(reason) => Err(reason@),
    }
}

pub open spec fn known_or_reason(result: Result<bool, String>) -> Result<bool, Seq<char>> {
    match result {
        Ok(known) => Ok(known),
        Err(reason) => Err(reason@),
    }
}

pub open spec fn names_read(names: Seq<Option<String>>) -> Seq<Option<Seq<char>>> {
    names.map_values(
        |name: Option<String>|
            match name {
                Some(name) => Some(name@),
                None => None,
            },
    )
}

/// Whether a text is a DNS name.
pub uninterp spec fn dns_name(text: Seq<char>) -> bool;

/// The public key of a certificate in DER, with the algorithm it is for, or why the certificate
/// cannot be read.
pub uninterp spec fn subject_key(certificate: Seq<u8>) -> Result<Seq<u8>, Seq<char>>;

/// The alternative names of a certificate in DER, if it can be read: the text of each DNS name,
/// nothing for each other one.
pub uninterp spec fn alternative_names_of(certificate: Seq<u8>) -> Option<Seq<Option<Seq<char>>>>;

/// The signing key loaded for a chain, or why it cannot be.
pub uninterp spec fn loaded_key(
    certificates: Seq<Seq<u8>>,
    private_key: rustls::pki_types::PrivateKeyDer<'static>,
    provider: rustls::crypto::CryptoProvider,
) -> Result<rustls::sign::CertifiedKey, Seq<char>>;

/// The chain that a signing key goes with.
pub uninterp spec fn chain_of(key: rustls::sign::CertifiedKey) -> Seq<Seq<u8>>;

/// Whether a signing key is known to be that of the first certificate, or why it is not.
pub uninterp spec fn consistency(key: rustls::sign::CertifiedKey) -> Result<bool, Seq<char>>;

/// A signing key that presents an OCSP response.
pub uninterp spec fn stapled(key: rustls::sign::CertifiedKey, ocsp: Seq<u8>) -> rustls::sign::CertifiedKey;

/// Whether a signing key can sign under a signature scheme.
pub uninterp spec fn offers(key: rustls::sign::CertifiedKey, scheme: u16) -> bool;

/// Whether signing a message may give a signature, or fail where there is none. The signer may draw
/// random numbers, so that it may give several.
pub uninterp spec fn may_sign(
    key: rustls::sign::CertifiedKey,
    scheme: u16,
    message: Seq<u8>,
    signature: Option<Seq<u8>>,
) -> bool;

/// `rustls::pki_types::DnsName::try_from`: whether it takes the text.
#[verifier::external_body]
fn is_dns_name(text: &str) -> (valid: bool)
    ensures
        valid == dns_name(text@),
{
    rustls::pki_types::DnsName::try_from(text).is_ok()
}

/// `x509_parser::certificate::X509Certificate::from_der`: the raw public key of the certificate it
/// reads, or the text of its error.
#[verifier::external_body]
fn subject_public_key(certificate: &[u8]) -> (result: Result<Vec<u8>, String>)
    ensures
        bytes_or_reason(result) == subject_key(certificate@),
{
    x509_parser::certificate::X509Certificate::from_der(certificate)
        .map(|(_, certificate)| certificate.public_key().raw.to_vec())
        .map_err(|error| error.to_string())
}

/// `x509_parser::certificate::X509Certificate::subject_alternative_name` of the certificate that
/// `from_der` reads: its names in order, none where it has no such extension.
#[verifier::external_body]
fn alternative_names(certificate: &[u8]) -> (names: Option<Vec<Option<String>>>)
    ensures
        match names {
            Some(names) => alternative_names_of(certificate@) == Some(names_read(names@)),
            None => alternative_names_of(certificate@) is None,
        },
{
    let (_, certificate) = x509_parser::certificate::X509Certificate::from_der(certificate).ok()?;
    let extension = certificate.subject_alternative_name().ok()?;
    let names = extension.iter().flat_map(|extension| extension.value.general_names.iter());
    Some(names.map(|name| match name {
        x509_parser::extensions::GeneralName::DNSName(name) => Some(name.to_string()),
        _ => None,
    }).collect())
}

/// `rustls::sign::CertifiedKey::from_der`: the signing key it loads, or the text of its error.
#[verifier::external_body]
fn load_key(
    certificates: &Vec<Vec<u8>>,
    private_key: rustls::pki_types::PrivateKeyDer<'static>,
    provider: &rustls::crypto::CryptoProvider,
) -> (result: Result<rustls::sign::CertifiedKey, String>)
    ensures
        key_or_reason(result) == loaded_key(chain_bytes(certificates@), private_key, *provider),
{
    let chain = certificates.iter().map(|der| rustls::pki_types::CertificateDer::from(der.clone())).collect();
    rustls::sign::CertifiedKey::from_der(chain, private_key, provider).map_err(|error| error.to_string())
}

/// The `cert` field of `rustls::sign::CertifiedKey`: the chain the key goes with.
#[verifier::external_body]
fn key_chain(key: &rustls::sign::CertifiedKey) -> (certificates: Vec<Vec<u8>>)
    ensures
        chain_bytes(certificates@) == chain_of(*key),
{
    key.cert.iter().map(|certificate| certificate.as_ref().to_vec()).collect()
}

/// `rustls::sign::CertifiedKey::keys_match`: `true` where the keys agree, `false` where that is
/// unknown, else the text of its error.
#[verifier::external_body]
fn keys_match(key: &rustls::sign::CertifiedKey) -> (result: Result<bool, String>)
    ensures
        known_or_reason(result) == consistency(*key),
{
    match key.keys_match() {
        Ok(()) => Ok(true),
        Err(rustls::Error::InconsistentKeys(rustls::InconsistentKeys::Unknown)) => Ok(false),
        Err(error) => Err(error.to_string()),
    }
}

/// The `ocsp` field of `rustls::sign::CertifiedKey`: the key with a response to present.
#[verifier::external_body]
fn staple(key: rustls::sign::CertifiedKey, ocsp: &Vec<u8>) -> (key_with_response: rustls::sign::CertifiedKey)
    ensures
        key_with_response == stapled(key, ocsp@),
{
    let mut key = key;
    key.ocsp = Some(ocsp.clone());
    key
}

/// `rustls::sign::SigningKey::choose_scheme` on the one scheme, then `rustls::sign::Signer::sign`:
/// nothing where the scheme is not offered. Which of its possible outcomes a signature is, and whether
/// there is one, is left to the signer.
#[verifier::external_body]
fn sign_with(key: &Arc<rustls::sign::CertifiedKey>, scheme: u16, message: &[u8]) -> (signed: Option<Option<Vec<u8>>>)
    ensures
        signed is Some == offers(**key, scheme),
        signed matches Some(signature) ==> may_sign(**key, scheme, message@, optional_bytes(signature)),
{
    let signer = key.key.choose_scheme(&[rustls::SignatureScheme::from(scheme)])?;
    Some(signer.sign(message).ok())
}

/// The public key of a chain's first certificate.
pub open spec fn chain_key(certificates: Seq<Seq<u8>>) -> Result<Seq<u8>, AuthorityFault> {
    if certificates.len() == 0 {
        Err(AuthorityFault::EmptyCertificateChain)
    } else {
        match subject_key(certificates[0]) {
            Ok(key) => Ok(key),
            Err(reason) => Err(AuthorityFault::InvalidCertificate(reason)),
        }
    }
}

/// Reads the public key of a chain's first certificate.
pub fn extract_public_key(certificates: &Vec<Vec<u8>>) -> (result: Result<Vec<u8>, InvalidLocalAuthority>)
    ensures
        match result {
            Ok(key) => chain_key(chain_bytes(certificates@)) == Ok::<Seq<u8>, AuthorityFault>(key@),
            Err(error) => chain_key(chain_bytes(certificates@)) == Err::<Seq<u8>, AuthorityFault>(error.view()),
        },
{
    if certificates.len() == 0 {
        return Err(InvalidLocalAuthority::EmptyCertificateChain);
    }
    match subject_public_key(certificates[0].as_slice()) {
        Ok(key) => Ok(key),
        Err(reason) => Err(InvalidLocalAuthority::InvalidCertificate(reason)),
    }
}

/// Handshake credentials: a name, a certificate chain, an OCSP response and the key to sign with.
#[derive(Clone, Debug)]
pub struct LocalAuthority {
    pub name: String,
    pub certificates: Vec<Vec<u8>>,
    pub public_key: Vec<u8>,
    pub ocsp: Vec<u8>,
    pub key: Arc<rustls::sign::CertifiedKey>,
}

impl LocalAuthority {
    /// Whether these are the credentials made from the parts.
    pub open spec fn made_of(
        &self,
        name: Seq<char>,
        certificates: Seq<Seq<u8>>,
        public_key: Seq<u8>,
        key: rustls::sign::CertifiedKey,
        ocsp: Seq<u8>,
    ) -> bool {
        &&& self.name@ == name
        &&& chain_bytes(self.certificates@) == certificates
        &&& self.public_key@ == public_key
        &&& self.ocsp@ == ocsp
        &&& *self.key == stapled(key, ocsp)
    }

    fn from_certified_key(
        name: String,
        certificates: Vec<Vec<u8>>,
        certified_key: rustls::sign::CertifiedKey,
        public_key: Vec<u8>,
        ocsp: Vec<u8>,
    ) -> (result: Result<LocalAuthority, InvalidLocalAuthority>)
        ensures
            match result {
                Ok(authority) => dns_name(name@) && ocsp@.len() > 0 && authority.made_of(
                    name@,
                    chain_bytes(certificates@),
                    public_key@,
                    certified_key,
                    ocsp@,
                ),
                Err(error) => if !dns_name(name@) {
                    error is InvalidName
                } else {
                    ocsp@.len() == 0 && error is EmptyOcsp
                },
            },
    {
        if !is_dns_name(name.as_str()) {
            return Err(InvalidLocalAuthority::InvalidName);
        }
        if ocsp.len() == 0 {
            return Err(InvalidLocalAuthority::EmptyOcsp);
        }
        let key = staple(certified_key, &ocsp);
        Ok(LocalAuthority { name, certificates, public_key, ocsp, key: Arc::new(key) })
    }

    /// Builds credentials from a certificate chain and its private key.
    pub fn new(
        provider: &rustls::crypto::CryptoProvider,
        name: String,
        certificates: Vec<Vec<u8>>,
        private_key: rustls::pki_types::PrivateKeyDer<'static>,
        ocsp: Vec<u8>,
    ) -> (result: Result<LocalAuthority, InvalidLocalAuthority>)
        ensures
            match chain_key(chain_bytes(certificates@)) {
                Err(fault) => result matches Err(error) && error.view() == fault,
                Ok(public_key) => match loaded_key(chain_bytes(certificates@), private_key, *provider) {
                    Err(reason) => result matches Err(error) && error.view() == AuthorityFault::InvalidPrivateKey(
                        reason,
                    ),
                    Ok(key) => if !dns_name(name@) {
                        result matches Err(error) && error is InvalidName
                    } else if ocsp@.len() == 0 {
                        result matches Err(error) && error is EmptyOcsp
                    } else {
                        result matches Ok(authority) && authority.made_of(
                            name@,
                            chain_bytes(certificates@),
                            public_key,
                            key,
                            ocsp@,
                        )
                    },
                },
            },
    {
        let public_key = match extract_public_key(&certificates) {
            Ok(public_key) => public_key,
            Err(error) => return Err(error),
        };
        match load_key(&certificates, private_key, provider) {
            Ok(key) => LocalAuthority::from_certified_key(name, certificates, key, public_key, ocsp),
            Err(reason) => Err(InvalidLocalAuthority::InvalidPrivateKey(reason)),
        }
    }

    /// Builds credentials from a signing key that is loaded already, together with its chain. A
    /// key of which it cannot be known whether it is the certificate's is taken.
    pub fn from_signing_key(name: String, certified_key: rustls::sign::CertifiedKey, ocsp: Vec<u8>) -> (result: Result<
        LocalAuthority,
        InvalidLocalAuthority,
    >)
        ensures
            match chain_key(chain_of(certified_key)) {
                Err(fault) => result matches Err(error) && error.view() == fault,
                Ok(public_key) => match consistency(certified_key) {
                    Err(reason) => result matches Err(error) && error.view() == AuthorityFault::InvalidPrivateKey(
                        reason,
                    ),
                    Ok(_) => if !dns_name(name@) {
                        result matches Err(error) && error is InvalidName
                    } else if ocsp@.len() == 0 {
                        result matches Err(error) && error is EmptyOcsp
                    } else {
                        result matches Ok(authority) && authority.made_of(
                            name@,
                            chain_of(certified_key),
                            public_key,
                            certified_key,
                            ocsp@,
                        )
                    },
                },
            },
    {
        let certificates = key_chain(&certified_key);
        let public_key = match extract_public_key(&certificates) {
            Ok(public_key) => public_key,
            Err(error) => return Err(error),
        };
        match keys_match(&certified_key) {
            Ok(_) => LocalAuthority::from_certified_key(name, certificates, certified_key, public_key, ocsp),
            Err(reason) => Err(InvalidLocalAuthority::InvalidPrivateKey(reason)),
        }
    }

    pub fn name(&self) -> (name: &str)
        ensures
            name@ == self.name@,
    {
        self.name.as_str()
    }

    pub fn certificates(&self) -> (certificates: &Vec<Vec<u8>>)
        ensures
            *certificates == self.certificates,
    {
        &self.certificates
    }

    pub fn public_key(&self) -> (public_key: &[u8])
        ensures
            public_key@ == self.public_key@,
    {
        self.public_key.as_slice()
    }

    pub fn ocsp(&self) -> (ocsp: &[u8])
        ensures
            ocsp@ == self.ocsp@,
    {
        self.ocsp.as_slice()
    }

    /// Signs an unhashed message under a signature scheme, which implies the hash.
    pub fn sign(&self, scheme: u16, message: &[u8]) -> (result: Result<Vec<u8>, SignError>)
        ensures
            if offers(*self.key, scheme) {
                match result {
                    Ok(signature) => may_sign(*self.key, scheme, message@, Some(signature@)),
                    Err(error) => error == SignError::SigningFailed && may_sign(*self.key, scheme, message@, None),
                }
            } else {
                result == Err::<Vec<u8>, SignError>(SignError::UnsupportedScheme { scheme })
            },
    {
        match sign_with(&self.key, scheme, message) {
            None => Err(SignError::UnsupportedScheme { scheme }),
            Some(None) => Err(SignError::SigningFailed),
            Some(Some(signature)) => Ok(signature),
        }
    }

    /// What the handshake presents.
    pub fn certified_key(&self) -> (key: Arc<rustls::sign::CertifiedKey>)
        ensures
            key == self.key,
    {
        share(&self.key)
    }
}

/// A verified peer.
#[derive(Clone, Debug)]
pub struct RemoteAuthority {
    pub name: String,
    pub certificates: Vec<Vec<u8>>,
    pub public_key: Vec<u8>,
}

impl RemoteAuthority {
    pub fn new(name: String, certificates: Vec<Vec<u8>>) -> (result: Result<RemoteAuthority, InvalidLocalAuthority>)
        ensures
            if !dns_name(name@) {
                result matches Err(error) && error is InvalidName
            } else {
                match chain_key(chain_bytes(certificates@)) {
                    Err(fault) => result matches Err(error) && error.view() == fault,
                    Ok(public_key) => result matches Ok(authority) && authority.name@ == name@
                        && authority.certificates == certificates && authority.public_key@ == public_key,
                }
            },
    {
        if !is_dns_name(name.as_str()) {
            return Err(InvalidLocalAuthority::InvalidName);
        }
        match extract_public_key(&certificates) {
            Ok(public_key) => Ok(RemoteAuthority { name, certificates, public_key }),
            Err(error) => Err(error),
        }
    }

    pub fn name(&self) -> (name: &str)
        ensures
            name@ == self.name@,
    {
        self.name.as_str()
    }

    pub fn certificates(&self) -> (certificates: &Vec<Vec<u8>>)
        ensures
            *certificates == self.certificates,
    {
        &self.certificates
    }

    pub fn public_key(&self) -> (public_key: &[u8])
        ensures
            public_key@ == self.public_key@,
    {
        self.public_key.as_slice()
    }
}

/// Why a certificate is refused by the rules on names.
#[derive(Clone, Copy, Debug, PartialEq, Eq, Structural)]
pub enum NameFault {
    BadEncoding,
    NotValidForName,
}

/// Where the first DNS name among alternative names stands.
pub open spec fn first_dns(names: Seq<Option<Seq<char>>>) -> int {
    choose|index: int|
        0 <= index < names.len() && #[trigger] names[index] is Some && forall|earlier: int|
            #![trigger names[earlier]]
            0 <= earlier < index ==> names[earlier] is None
}

/// The name of a client's certificate: the first DNS name among its alternative names.
pub open spec fn name_of(names: Option<Seq<Option<Seq<char>>>>) -> Result<Seq<char>, NameFault> {
    match names {
        None => Err(NameFault::BadEncoding),
        Some(names) => if forall|index: int|
            #![trigger names[index]]
            0 <= index < names.len() ==> names[index] is None {
            Err(NameFault::NotValidForName)
        } else if !dns_name(names[first_dns(names)]->0) {
            Err(NameFault::NotValidForName)
        } else {
            Ok(names[first_dns(names)]->0)
        },
    }
}

pub open spec fn optional_names(names: Option<Vec<Option<String>>>) -> Option<Seq<Option<Seq<char>>>> {
    match names {
        Some(names) => Some(names_read(names@)),
        None => None,
    }
}

pub open spec fn name_or_fault(result: Result<String, NameFault>) -> Result<Seq<char>, NameFault> {
    match result {
        Ok(name) => Ok(name@),
        Err(fault) => Err(fault),
    }
}

/// Picks the name out of a certificate's alternative names.
pub fn pick_name(names: Option<Vec<Option<String>>>) -> (result: Result<String, NameFault>)
    ensures
        name_or_fault(result) == name_of(optional_names(names)),
{
    let list = match &names {
        Some(list) => list,
        None => return Err(NameFault::BadEncoding),
    };
    let ghost read = names_read(list@);
    let mut at: usize = 0;
    while at < list.len()
        invariant
            at <= list.len(),
            read == names_read(list@),
            optional_names(names) == Some(read),
            forall|index: int| #![trigger read[index]] 0 <= index < at ==> read[index] is None,
        decreases list.len() - at,
    {
        if let Some(name) = &list[at] {
            assert(read[at as int] == Some(name@));
            assert(!(forall|index: int| #![trigger read[index]] 0 <= index < read.len() ==> read[index] is None));
            assert(first_dns(read) == at) by {
                let found = first_dns(read);
                assert(0 <= found < read.len() && read[found] is Some && forall|earlier: int|
                    #![trigger read[earlier]]
                    0 <= earlier < found ==> read[earlier] is None);
            }
            if is_dns_name(name.as_str()) {
                return Ok(name.as_str().to_owned());
            }
            return Err(NameFault::NotValidForName);
        }
        assert(read[at as int] is None);
        at = at + 1;
    }
    Err(NameFault::NotValidForName)
}

/// The name that a client's certificate in DER is for.
pub fn certificate_name(certificate: &[u8]) -> (result: Result<String, NameFault>)
    ensures
        name_or_fault(result) == name_of(alternative_names_of(certificate@)),
{
    let names = alternative_names(certificate);
    assert(optional_names(names) == alternative_names_of(certificate@));
    pick_name(names)
}

/// A certificate is known by the first DNS name among its alternative names, if that is a valid one.
pub proof fn first_dns_name_is_taken(names: Seq<Option<Seq<char>>>, index: int, name: Seq<char>)
    requires
        0 <= index < names.len(),
        names[index] == Some(name),
        forall|earlier: int| #![trigger names[earlier]] 0 <= earlier < index ==> names[earlier] is None,
    ensures
        name_of(Some(names)) == if dns_name(name) {
            Ok::<Seq<char>, NameFault>(name)
        } else {
            Err(NameFault::NotValidForName)
        },
        name_of(None) == Err::<Seq<char>, NameFault>(NameFault::BadEncoding),
        name_of(Some(Seq::empty())) == Err::<Seq<char>, NameFault>(NameFault::NotValidForName),
{
    let first = first_dns(names);
    assert(names[index] is Some);
    assert(0 <= first < names.len() && names[first] is Some && forall|earlier: int|
        #![trigger names[earlier]]
        0 <= earlier < first ==> names[earlier] is None);
    if first < index {
        assert(names[first] is None);
    }
    if index < first {
        assert(names[index] is None);
    }
}

/// The key of a chain is that of its first certificate.
pub proof fn chain_has_the_key_of_its_first_certificate(first: Seq<u8>, rest: Seq<Seq<u8>>)
    ensures
        subject_key(first) is Ok ==> chain_key(seq![first] + rest) == Ok::<Seq<u8>, AuthorityFault>(
            subject_key(first)->Ok_0,
        ),
        subject_key(first) is Err ==> chain_key(seq![first] + rest) is Err,
        chain_key(Seq::empty()) == Err::<Seq<u8>, AuthorityFault>(AuthorityFault::EmptyCertificateChain),
{
    assert((seq![first] + rest)[0] == first);
}

/// Credentials are made of their name, their chain, the key in it, the response, and the signing key with that
/// response.
pub proof fn credentials_are_made_of_their_parts(
    authority: LocalAuthority,
    name: Seq<char>,
    certificates: Seq<Seq<u8>>,
    public_key: Seq<u8>,
    key: rustls::sign::CertifiedKey,
    ocsp: Seq<u8>,
    index: int,
)
    requires
        authority.made_of(name, certificates, public_key, key, ocsp),
    ensures
        authority.name@ == name,
        authority.certificates@.len() == certificates.len(),
        0 <= index < certificates.len() ==> authority.certificates@[index]@ == certificates[index],
        authority.public_key@ == public_key,
        authority.ocsp@ == ocsp,
        *authority.key == stapled(key, ocsp),
{
    assert(chain_bytes(authority.certificates@).len() == authority.certificates@.len());
    if 0 <= index < certificates.len() {
        assert(chain_bytes(authority.certificates@)[index] == authority.certificates@[index]@);
    }
}

} // verus!

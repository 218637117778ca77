//! Which certificate vouches for another's revocation status, and what it says.
use der::{Decode, Encode};
use pkix_revocation::RevocationChecker;
use vstd::prelude::*;

use crate::base::bytes::{copy_of, same_bytes};

verus! {

#[verifier::external_type_specification]
#[verifier::external_body]
pub struct ExWebPkiSupportedAlgorithms(rustls::crypto::WebPkiSupportedAlgorithms);

#[verifier::external_type_specification]
#[verifier::external_body]
#[verifier::reject_recursive_types(Params)]
pub struct ExAlgorithmIdentifier<Params>(spki::AlgorithmIdentifier<Params>);

#[verifier::external_type_specification]
#[verifier::external_body]
#[verifier::reject_recursive_types(Params)]
#[verifier::reject_recursive_types(Key)]
pub struct ExSubjectPublicKeyInfo<Params, Key>(spki::SubjectPublicKeyInfo<Params, Key>);

#[verifier::external_type_specification]
#[verifier::external_body]
pub struct ExAnyRef<'a>(der::asn1::AnyRef<'a>);

#[verifier::external_type_specification]
#[verifier::external_body]
pub struct ExBitStringRef<'a>(der::asn1::BitStringRef<'a>);

#[verifier::external_type_specification]
#[verifier::external_body]
pub struct ExSignatureError(signature::Error);

#[verifier::external_type_specification]
#[verifier::external_body]
#[verifier::reject_recursive_types(V)]
pub struct ExOcspChecker<V>(pkix_revocation::OcspChecker<V>);

/// An algorithm identifier in DER: its object identifier, and its parameters where it has any.
#[derive(Debug)]
pub struct AlgorithmDer {
    pub oid: Vec<u8>,
    pub parameters: Option<Vec<u8>>,
}

impl AlgorithmDer {
    /// The contents of the identifier, without what encloses them.
    pub open spec fn value(&self) -> Seq<u8> {
        match self.parameters {
            Some(parameters) => self.oid@ + parameters@,
            None => self.oid@,
        }
    }
}

/// What a certificate says of its issuance. Names and the signed part are in DER.
#[derive(Debug)]
pub struct CertificateParts {
    pub issuer: Vec<u8>,
    pub subject: Vec<u8>,
    pub signed: Vec<u8>,
    pub signature: Vec<u8>,
    pub algorithm: AlgorithmDer,
}

/// The key that a certificate is for.
#[derive(Debug)]
pub struct SubjectKey {
    pub key: Vec<u8>,
    pub algorithm: AlgorithmDer,
}

/// `CertificateParts` with its bytes read.
pub struct PartsView {
    pub issuer: Seq<u8>,
    pub subject: Seq<u8>,
    pub signed: Seq<u8>,
    pub signature: Seq<u8>,
    pub algorithm: Seq<u8>,
}

/// `SubjectKey` with its bytes read.
pub struct KeyView {
    pub key: Seq<u8>,
    pub algorithm: Seq<u8>,
}

impl CertificateParts {
    pub open spec fn view(&self) -> PartsView {
        PartsView {
            issuer: self.issuer@,
            subject: self.subject@,
            signed: self.signed@,
            signature: self.signature@,
            algorithm: self.algorithm.value(),
        }
    }
}

impl SubjectKey {
    pub open spec fn view(&self) -> KeyView {
        KeyView { key: self.key@, algorithm: self.algorithm.value() }
    }
}

pub open spec fn optional_parts(parts: Option<CertificateParts>) -> Option<PartsView> {
    match parts {
        Some(parts) => Some(parts.view()),
        None => None,
    }
}

pub open spec fn optional_key(key: Option<SubjectKey>) -> Option<KeyView> {
    match key {
        Some(key) => Some(key.view()),
        None => None,
    }
}

pub open spec fn identifiers_read(identifiers: Seq<(Vec<u8>, Vec<u8>)>) -> Seq<(Seq<u8>, Seq<u8>)> {
    identifiers.map_values(|pair: (Vec<u8>, Vec<u8>)| (pair.0@, pair.1@))
}

/// What a certificate in DER says of its issuance, if it can be read.
pub uninterp spec fn parts_of(certificate: Seq<u8>) -> Option<PartsView>;

/// The key that a certificate in DER is for, if it can be read.
pub uninterp spec fn key_of(certificate: Seq<u8>) -> Option<KeyView>;

/// The signature algorithms known: of each the identifier that signatures carry, and the one that
/// keys carry.
pub uninterp spec fn identifiers(algorithms: rustls::crypto::WebPkiSupportedAlgorithms) -> Seq<(Seq<u8>, Seq<u8>)>;

/// Whether a signature on a message holds under a key, by the algorithm at some index.
pub uninterp spec fn signature_holds(
    algorithms: rustls::crypto::WebPkiSupportedAlgorithms,
    index: int,
    key: Seq<u8>,
    message: Seq<u8>,
    signature: Seq<u8>,
) -> bool;

/// `x509_cert::Certificate::from_der`: what the certificate it reads says of its issuance. Names, the
/// signed part and the algorithm are encoded again by `der::Encode::to_der`. Nothing where one of these
/// fails.
#[verifier::external_body]
fn read_certificate(certificate: &[u8]) -> (parts: Option<CertificateParts>)
    ensures
        optional_parts(parts) == parts_of(certificate@),
{
    let read = x509_cert::Certificate::from_der(certificate).ok()?;
    let tbs = &read.tbs_certificate;
    let algorithm = &read.signature_algorithm;
    let parameters = algorithm.parameters.as_ref().map(|any| any.to_der()).transpose().ok()?;
    Some(CertificateParts {
        issuer: tbs.issuer.to_der().ok()?,
        subject: tbs.subject.to_der().ok()?,
        signed: tbs.to_der().ok()?,
        signature: read.signature.raw_bytes().to_vec(),
        algorithm: AlgorithmDer { oid: algorithm.oid.to_der().ok()?, parameters },
    })
}

/// `x509_cert::Certificate::from_der`: the key that the certificate it reads is for. Its algorithm is
/// encoded again by `der::Encode::to_der`. Nothing where one of these fails.
#[verifier::external_body]
fn read_key(certificate: &[u8]) -> (key: Option<SubjectKey>)
    ensures
        optional_key(key) == key_of(certificate@),
{
    let read = x509_cert::Certificate::from_der(certificate).ok()?;
    let info = &read.tbs_certificate.subject_public_key_info;
    let parameters = info.algorithm.parameters.as_ref().map(|any| any.to_der()).transpose().ok()?;
    Some(SubjectKey {
        key: info.subject_public_key.raw_bytes().to_vec(),
        algorithm: AlgorithmDer { oid: info.algorithm.oid.to_der().ok()?, parameters },
    })
}

/// `rustls::pki_types::SignatureVerificationAlgorithm::signature_alg_id` and `public_key_alg_id` of
/// each algorithm in `rustls::crypto::WebPkiSupportedAlgorithms::all`.
#[verifier::external_body]
fn algorithm_identifiers(algorithms: &rustls::crypto::WebPkiSupportedAlgorithms) -> (pairs: Vec<(Vec<u8>, Vec<u8>)>)
    ensures
        identifiers_read(pairs@) == identifiers(*algorithms),
{
    algorithms.all.iter().map(|algorithm| {
        (algorithm.signature_alg_id().as_ref().to_vec(), algorithm.public_key_alg_id().as_ref().to_vec())
    }).collect()
}

/// `rustls::pki_types::SignatureVerificationAlgorithm::verify_signature` of the algorithm at `index`
/// in `rustls::crypto::WebPkiSupportedAlgorithms::all`.
#[verifier::external_body]
fn verify_with(
    algorithms: &rustls::crypto::WebPkiSupportedAlgorithms,
    index: usize,
    key: &[u8],
    message: &[u8],
    signature: &[u8],
) -> (holds: bool)
    requires
        index < identifiers(*algorithms).len(),
    ensures
        holds == signature_holds(*algorithms, index as int, key@, message@, signature@),
{
    algorithms.all[index].verify_signature(key, message, signature).is_ok()
}

/// The contents of an algorithm identifier.
pub fn algorithm_identifier_value(algorithm: &AlgorithmDer) -> (value: Vec<u8>)
    ensures
        value@ == algorithm.value(),
{
    let mut value: Vec<u8> = copy_of(algorithm.oid.as_slice());
    if let Some(parameters) = &algorithm.parameters {
        value.extend_from_slice(parameters.as_slice());
        assert(value@ =~= algorithm.oid@ + parameters@);
    }
    value
}

/// Whether `index` is the first algorithm for a pair of identifiers.
pub open spec fn first_algorithm(
    known: Seq<(Seq<u8>, Seq<u8>)>,
    wanted: (Seq<u8>, Seq<u8>),
    index: int,
) -> bool {
    &&& 0 <= index < known.len()
    &&& known[index] == wanted
    &&& forall|earlier: int| #![trigger known[earlier]] 0 <= earlier < index ==> known[earlier] != wanted
}

/// Whether a signature is accepted: an algorithm for its identifier and the key's is known, and the
/// first such one verifies it.
pub open spec fn accepts(
    algorithms: rustls::crypto::WebPkiSupportedAlgorithms,
    signature_algorithm: Seq<u8>,
    key_algorithm: Seq<u8>,
    key: Seq<u8>,
    message: Seq<u8>,
    signature: Seq<u8>,
) -> bool {
    exists|index: int| #[trigger]
        first_algorithm(identifiers(algorithms), (signature_algorithm, key_algorithm), index) && signature_holds(
            algorithms,
            index,
            key,
            message,
            signature,
        )
}

/// Verifies a signature with the provider's algorithms.
pub fn verify_signature(
    algorithms: &rustls::crypto::WebPkiSupportedAlgorithms,
    signature_algorithm: &AlgorithmDer,
    key_algorithm: &AlgorithmDer,
    key: &[u8],
    message: &[u8],
    signature: &[u8],
) -> (accepted: bool)
    ensures
        accepted == accepts(
            *algorithms,
            signature_algorithm.value(),
            key_algorithm.value(),
            key@,
            message@,
            signature@,
        ),
{
    let signature_id = algorithm_identifier_value(signature_algorithm);
    let key_id = algorithm_identifier_value(key_algorithm);
    let known = algorithm_identifiers(algorithms);
    let ghost read = identifiers(*algorithms);
    let ghost wanted = (signature_id@, key_id@);
    let mut at: usize = 0;
    while at < known.len()
        invariant
            at <= known.len(),
            read == identifiers_read(known@),
            read == identifiers(*algorithms),
            wanted == (signature_id@, key_id@),
            signature_id@ == signature_algorithm.value(),
            key_id@ == key_algorithm.value(),
            forall|earlier: int| #![trigger read[earlier]] 0 <= earlier < at ==> read[earlier] != wanted,
        decreases known.len() - at,
    {
        let pair = &known[at];
        assert(read[at as int] == (pair.0@, pair.1@));
        if same_bytes(pair.0.as_slice(), signature_id.as_slice()) && same_bytes(
            pair.1.as_slice(),
            key_id.as_slice(),
        ) {
            assert(first_algorithm(read, wanted, at as int));
            assert forall|index: int| #[trigger] first_algorithm(read, wanted, index) implies index == at by {
                assert(read[index] == wanted);
            }
            return verify_with(algorithms, at, key, message, signature);
        }
        at = at + 1;
    }
    false
}

/// Verifies signatures with the algorithms of a TLS provider, for whoever checks a response.
#[derive(Clone, Copy)]
pub struct ProviderVerifier {
    pub algorithms: rustls::crypto::WebPkiSupportedAlgorithms,
}

impl pkix_path::SignatureVerifier for ProviderVerifier {
    /// Hands what `pkix_path` holds of a signature to `verify_signature`: the two algorithms encoded by
    /// `der::Encode::to_der`, and the key by `der::asn1::BitStringRef::raw_bytes`. Nothing is claimed of
    /// it: `pkix_revocation` calls it while it reads a response.
    #[verifier::external_body]
    fn verify_signature(
        &self,
        algorithm: spki::AlgorithmIdentifier<der::asn1::AnyRef<'_>>,
        issuer_spki: spki::SubjectPublicKeyInfo<der::asn1::AnyRef<'_>, der::asn1::BitStringRef<'_>>,
        message: &[u8],
        signature: &[u8],
    ) -> Result<(), signature::Error> {
        let fault = |_| signature::Error::new();
        let key = issuer_spki.algorithm;
        let parameters = algorithm.parameters.map(|any| any.to_der()).transpose().map_err(fault)?;
        let signed = AlgorithmDer { oid: algorithm.oid.to_der().map_err(fault)?, parameters };
        let parameters = key.parameters.map(|any| any.to_der()).transpose().map_err(fault)?;
        let keyed = AlgorithmDer { oid: key.oid.to_der().map_err(fault)?, parameters };
        let bits = issuer_spki.subject_public_key.raw_bytes();
        match verify_signature(&self.algorithms, &signed, &keyed, bits, message, signature) {
            true => Ok(()),
            false => Err(signature::Error::new()),
        }
    }
}

/// The checker for an OCSP response in DER at a time in seconds, if it can be read.
pub uninterp spec fn checker_of(
    response: Seq<u8>,
    now: u64,
    algorithms: rustls::crypto::WebPkiSupportedAlgorithms,
) -> Option<pkix_revocation::OcspChecker<ProviderVerifier>>;

/// Whether a checker finds that a certificate is good, in current words of the issuer's. Both are in DER.
pub uninterp spec fn found_good(
    checker: pkix_revocation::OcspChecker<ProviderVerifier>,
    certificate: Seq<u8>,
    issuer: Seq<u8>,
) -> bool;

/// `pkix_revocation::OcspChecker::new`, with a `ProviderVerifier` to verify the signatures in the response.
/// How a response is read is left unsaid.
#[verifier::external_body]
fn open_response(
    response: &[u8],
    now: u64,
    algorithms: &rustls::crypto::WebPkiSupportedAlgorithms,
) -> (checker: Option<pkix_revocation::OcspChecker<ProviderVerifier>>)
    ensures
        checker == checker_of(response@, now, *algorithms),
{
    pkix_revocation::OcspChecker::new(response, now, ProviderVerifier { algorithms: *algorithms }).ok()
}

/// `pkix_revocation::RevocationChecker::check_revocation` of the OCSP checker: whether it succeeds on the
/// certificates, as `x509_cert::Certificate::from_der` reads them. It does not where one cannot be read.
/// Which certificates a response speaks of is left unsaid.
#[verifier::external_body]
fn check_revocation(
    checker: &pkix_revocation::OcspChecker<ProviderVerifier>,
    certificate: &[u8],
    issuer: &[u8],
) -> (good: bool)
    ensures
        good == found_good(*checker, certificate@, issuer@),
{
    match (x509_cert::Certificate::from_der(certificate), x509_cert::Certificate::from_der(issuer)) {
        (Ok(certificate), Ok(issuer)) => checker.check_revocation(&certificate, &issuer).is_ok(),
        _ => false,
    }
}

/// Whether an OCSP response says, in words of the issuer's that are current at `now`, that a certificate
/// is good. All are in DER.
pub open spec fn response_good(
    response: Seq<u8>,
    certificate: Seq<u8>,
    issuer: Seq<u8>,
    now: u64,
    algorithms: rustls::crypto::WebPkiSupportedAlgorithms,
) -> bool {
    match checker_of(response, now, algorithms) {
        Some(checker) => found_good(checker, certificate, issuer),
        None => false,
    }
}

/// Whether an OCSP response says that a certificate is good.
pub fn check_response(
    response: &[u8],
    certificate: &[u8],
    issuer: &[u8],
    now: u64,
    algorithms: &rustls::crypto::WebPkiSupportedAlgorithms,
) -> (good: bool)
    ensures
        good == response_good(response@, certificate@, issuer@, now, *algorithms),
{
    match open_response(response, now, algorithms) {
        Some(checker) => check_revocation(&checker, certificate, issuer),
        None => false,
    }
}

/// Whether a certificate names `subject` as its issuer and carries the signature of that one's key.
pub open spec fn issued(
    certificate: PartsView,
    subject: Seq<u8>,
    key: KeyView,
    algorithms: rustls::crypto::WebPkiSupportedAlgorithms,
) -> bool {
    &&& certificate.issuer == subject
    &&& accepts(
        algorithms,
        certificate.algorithm,
        key.algorithm,
        key.key,
        certificate.signed,
        certificate.signature,
    )
}

/// Whether the holder of a name and a key issued a certificate.
pub fn issued_by(
    certificate: &CertificateParts,
    subject: &[u8],
    key: &SubjectKey,
    algorithms: &rustls::crypto::WebPkiSupportedAlgorithms,
) -> (yes: bool)
    ensures
        yes == issued(certificate.view(), subject@, key.view(), *algorithms),
{
    if !same_bytes(certificate.issuer.as_slice(), subject) {
        return false;
    }
    verify_signature(
        algorithms,
        &certificate.algorithm,
        &key.algorithm,
        key.key.as_slice(),
        certificate.signed.as_slice(),
        certificate.signature.as_slice(),
    )
}

/// Whether a candidate can be read and issued a certificate.
pub open spec fn is_issuer(
    certificate: Seq<u8>,
    candidate: Seq<u8>,
    algorithms: rustls::crypto::WebPkiSupportedAlgorithms,
) -> bool {
    match (parts_of(certificate), parts_of(candidate), key_of(candidate)) {
        (Some(certificate), Some(candidate), Some(key)) => issued(certificate, candidate.subject, key, algorithms),
        _ => false,
    }
}

/// Finds whose word on the revocation of a certificate counts: the first candidate that issued it,
/// intermediates before roots. There is none where the response is empty or the certificate cannot
/// be read.
pub fn verify(
    response: &[u8],
    end_entity: &[u8],
    candidates: &Vec<Vec<u8>>,
    algorithms: &rustls::crypto::WebPkiSupportedAlgorithms,
) -> (issuer: Option<usize>)
    ensures
        match issuer {
            Some(issuer) => {
                &&& response@.len() > 0
                &&& issuer < candidates@.len()
                &&& is_issuer(end_entity@, candidates@[issuer as int]@, *algorithms)
                &&& forall|i: int|
                    #![trigger candidates@[i]]
                    0 <= i < issuer ==> !is_issuer(end_entity@, candidates@[i]@, *algorithms)
            },
            None => response@.len() == 0 || forall|i: int|
                #![trigger candidates@[i]]
                0 <= i < candidates@.len() ==> !is_issuer(end_entity@, candidates@[i]@, *algorithms),
        },
{
    if response.len() == 0 {
        return None;
    }
    let certificate = match read_certificate(end_entity) {
        Some(certificate) => certificate,
        None => return None,
    };
    let mut at: usize = 0;
    while at < candidates.len()
        invariant
            at <= candidates.len(),
            response@.len() > 0,
            parts_of(end_entity@) == Some(certificate.view()),
            forall|i: int|
                #![trigger candidates@[i]]
                0 <= i < at ==> !is_issuer(end_entity@, candidates@[i]@, *algorithms),
        decreases candidates.len() - at,
    {
        let candidate = candidates[at].as_slice();
        if let (Some(issuer), Some(key)) = (read_certificate(candidate), read_key(candidate)) {
            if issued_by(&certificate, issuer.subject.as_slice(), &key, algorithms) {
                return Some(at);
            }
        }
        at = at + 1;
    }
    None
}

/// A signature is accepted exactly if the first known algorithm for its identifier and that of the key verifies
/// it: `index` is that one.
pub proof fn first_matching_algorithm_decides(
    algorithms: rustls::crypto::WebPkiSupportedAlgorithms,
    signature_algorithm: Seq<u8>,
    key_algorithm: Seq<u8>,
    key: Seq<u8>,
    message: Seq<u8>,
    signature: Seq<u8>,
    index: int,
)
    requires
        0 <= index < identifiers(algorithms).len(),
        identifiers(algorithms)[index] == (signature_algorithm, key_algorithm),
        forall|earlier: int|
            #![trigger identifiers(algorithms)[earlier]]
            0 <= earlier < index ==> identifiers(algorithms)[earlier] != (signature_algorithm, key_algorithm),
    ensures
        accepts(algorithms, signature_algorithm, key_algorithm, key, message, signature) == signature_holds(
            algorithms,
            index,
            key,
            message,
            signature,
        ),
{
    let known = identifiers(algorithms);
    let wanted = (signature_algorithm, key_algorithm);
    assert(first_algorithm(known, wanted, index));
    assert forall|other: int| #[trigger] first_algorithm(known, wanted, other) implies other == index by {
        if other < index {
            assert(known[other] != wanted);
        }
        if index < other {
            assert(known[index] != wanted);
        }
    }
}

/// A signature for which no algorithm is known is refused.
pub proof fn unknown_algorithm_is_refused(
    algorithms: rustls::crypto::WebPkiSupportedAlgorithms,
    signature_algorithm: Seq<u8>,
    key_algorithm: Seq<u8>,
    key: Seq<u8>,
    message: Seq<u8>,
    signature: Seq<u8>,
)
    requires
        forall|i: int|
            #![trigger identifiers(algorithms)[i]]
            0 <= i < identifiers(algorithms).len() ==> identifiers(algorithms)[i] != (signature_algorithm, key_algorithm),
    ensures
        !accepts(algorithms, signature_algorithm, key_algorithm, key, message, signature),
{
}

/// A candidate issued a certificate exactly if both can be read, the certificate names the subject of the
/// candidate as its issuer, and what it signs bears the signature of the candidate's key.
pub proof fn issuer_is_named_and_signed(
    certificate: Seq<u8>,
    candidate: Seq<u8>,
    algorithms: rustls::crypto::WebPkiSupportedAlgorithms,
)
    ensures
        is_issuer(certificate, candidate, algorithms) <==> {
            &&& parts_of(certificate) is Some
            &&& parts_of(candidate) is Some
            &&& key_of(candidate) is Some
            &&& parts_of(certificate)->Some_0.issuer == parts_of(candidate)->Some_0.subject
            &&& accepts(
                algorithms,
                parts_of(certificate)->Some_0.algorithm,
                key_of(candidate)->Some_0.algorithm,
                key_of(candidate)->Some_0.key,
                parts_of(certificate)->Some_0.signed,
                parts_of(certificate)->Some_0.signature,
            )
        },
{
}

} // verus!

//! The certificates that trust starts from.
use std::sync::Arc;

use vstd::prelude::*;

use crate::tls::authority::chain_bytes;
use crate::tls::error::{TlsConfigError, TlsFault};
use crate::transport::protection::share;

verus! {

#[verifier::external_type_specification]
#[verifier::external_body]
pub struct ExRootCertStore(rustls::RootCertStore);

#[verifier::external_type_specification]
#[verifier::external_body]
pub struct ExTrustAnchor<'a>(rustls::pki_types::TrustAnchor<'a>);

/// The trust anchors that a store holds.
pub uninterp spec fn anchors(store: rustls::RootCertStore) -> Seq<rustls::pki_types::TrustAnchor<'static>>;

/// The trust anchor that a certificate in DER is, or why it is none.
pub uninterp spec fn anchor_of(certificate: Seq<u8>) -> Result<rustls::pki_types::TrustAnchor<'static>, Seq<char>>;

/// `rustls::RootCertStore::empty`: a store without anchors.
#[verifier::external_body]
fn empty_store() -> (store: rustls::RootCertStore)
    ensures
        anchors(store).len() == 0,
{
    rustls::RootCertStore::empty()
}

/// `rustls::RootCertStore::add`: puts the anchor that a certificate is last, or leaves the store as
/// it was and gives the text of its error.
#[verifier::external_body]
fn add_root(store: &mut rustls::RootCertStore, certificate: &Vec<u8>) -> (result: Result<(), String>)
    ensures
        match result {
            Ok(_) => anchor_of(certificate@) matches Ok(anchor) && anchors(*final(store)) == anchors(*old(store)).push(
                anchor,
            ),
            Err(reason) => anchor_of(certificate@) matches Err(fault) && reason@ == fault && *final(store) == *old(
                store,
            ),
        },
{
    store.add(rustls::pki_types::CertificateDer::from(certificate.as_slice())).map_err(|error| error.to_string())
}

/// The trust anchors in force, with the certificates they came from.
pub struct RootCertsSnapshot {
    pub store: Arc<rustls::RootCertStore>,
    pub certificates: Arc<Vec<Vec<u8>>>,
}

/// Whether each of the first `n` certificates is a trust anchor.
pub open spec fn all_anchors(certificates: Seq<Seq<u8>>, n: int) -> bool {
    forall|i: int| 0 <= i < n ==> #[trigger] anchor_of(certificates[i]) is Ok
}

/// The trust anchors that certificates are.
pub open spec fn anchors_of(certificates: Seq<Seq<u8>>) -> Seq<rustls::pki_types::TrustAnchor<'static>> {
    certificates.map_values(|certificate: Seq<u8>| anchor_of(certificate)->Ok_0)
}

/// Why certificates cannot be the roots: the first that is no trust anchor, or that there is none.
pub open spec fn roots_fault(certificates: Seq<Seq<u8>>) -> Option<Seq<char>> {
    if all_anchors(certificates, certificates.len() as int) {
        if certificates.len() == 0 {
            Some("root certificate collection is empty"@)
        } else {
            None
        }
    } else {
        let first = choose|i: int|
            0 <= i < certificates.len() && all_anchors(certificates, i) && #[trigger] anchor_of(certificates[i]) is Err;
        Some(anchor_of(certificates[first])->Err_0)
    }
}

pub open spec fn config_fault(error: TlsConfigError) -> TlsFault {
    match error {
        TlsConfigError::Invalid(reason) => TlsFault::InvalidConfig(reason@),
        TlsConfigError::RootCertsNotSet => TlsFault::RootCertsNotSet,
    }
}

/// The roots in force, if any were set.
pub struct RootCerts {
    pub current: Option<RootCertsSnapshot>,
}

impl RootCerts {
    /// Whether the roots in force are these certificates.
    pub open spec fn hold(&self, certificates: Seq<Seq<u8>>) -> bool {
        self.current matches Some(snapshot) && snapshot.holds(certificates)
    }

    /// No roots.
    pub fn new() -> (roots: RootCerts)
        ensures
            roots.current is None,
    {
        RootCerts { current: None }
    }

    /// Puts new roots in force. Where they are refused, the ones before stay.
    pub fn set(&mut self, certificates: Vec<Vec<u8>>) -> (result: Result<(), TlsConfigError>)
        ensures
            match roots_fault(chain_bytes(certificates@)) {
                None => result is Ok && final(self).hold(chain_bytes(certificates@)),
                Some(reason) => *final(self) == *old(self) && (result matches Err(error) && config_fault(error)
                    == TlsFault::InvalidConfig(reason)),
            },
    {
        let ghost chain = chain_bytes(certificates@);
        let mut store = empty_store();
        let mut at: usize = 0;
        while at < certificates.len()
            invariant
                at <= certificates.len(),
                chain == chain_bytes(certificates@),
                all_anchors(chain, at as int),
                anchors(store) == anchors_of(chain.take(at as int)),
                *self == *old(self),
            decreases certificates.len() - at,
        {
            assert(chain[at as int] == certificates@[at as int]@);
            match add_root(&mut store, &certificates[at]) {
                Ok(_) => {
                    assert(anchors_of(chain.take(at as int + 1)) =~= anchors_of(chain.take(at as int)).push(
                        anchor_of(chain[at as int])->Ok_0,
                    ));
                },
                Err(reason) => {
                    assert(anchor_of(chain[at as int]) is Err);
                    assert forall|i: int|
                        0 <= i < chain.len() && all_anchors(chain, i) && #[trigger] anchor_of(
                            chain[i],
                        ) is Err implies i == at by {
                        assert(anchor_of(chain[at as int]) is Err);
                    }
                    return Err(TlsConfigError::Invalid(reason));
                },
            }
            at = at + 1;
        }
        if certificates.len() == 0 {
            return Err(TlsConfigError::Invalid("root certificate collection is empty".to_owned()));
        }
        assert(chain.take(chain.len() as int) =~= chain);
        self.current = Some(RootCertsSnapshot { store: Arc::new(store), certificates: Arc::new(certificates) });
        Ok(())
    }

    /// The roots in force.
    pub fn get(&self) -> (result: Result<RootCertsSnapshot, TlsConfigError>)
        ensures
            match self.current {
                Some(snapshot) => result == Ok::<RootCertsSnapshot, TlsConfigError>(snapshot),
                None => result matches Err(error) && error is RootCertsNotSet,
            },
    {
        match &self.current {
            Some(snapshot) => Ok(
                RootCertsSnapshot { store: share(&snapshot.store), certificates: share(&snapshot.certificates) },
            ),
            None => Err(TlsConfigError::RootCertsNotSet),
        }
    }
}

impl RootCertsSnapshot {
    /// Whether these are the roots made of the certificates.
    pub open spec fn holds(&self, certificates: Seq<Seq<u8>>) -> bool {
        &&& chain_bytes(self.certificates@) == certificates
        &&& anchors(*self.store) == anchors_of(certificates)
    }
}

/// Roots are in force only where a nonempty collection of trust anchors was set.
pub proof fn roots_are_never_empty(certificates: Seq<Seq<u8>>)
    requires
        roots_fault(certificates) is None,
    ensures
        anchors_of(certificates).len() > 0,
{
}

/// Roots are accepted exactly if there is one at least and each is a trust anchor; the first that is not says
/// why they are refused.
pub proof fn roots_are_accepted_if_all_are_anchors(certificates: Seq<Seq<u8>>, index: int)
    ensures
        roots_fault(certificates) is None <==> certificates.len() > 0 && forall|i: int|
            #![trigger certificates[i]]
            0 <= i < certificates.len() ==> anchor_of(certificates[i]) is Ok,
        0 <= index < certificates.len() && anchor_of(certificates[index]) is Err && (forall|earlier: int|
            #![trigger certificates[earlier]]
            0 <= earlier < index ==> anchor_of(certificates[earlier]) is Ok) ==> roots_fault(certificates) == Some(
            anchor_of(certificates[index])->Err_0,
        ),
        anchors_of(certificates).len() == certificates.len(),
        0 <= index < certificates.len() && anchor_of(certificates[index]) is Ok ==> anchors_of(certificates)[index]
            == anchor_of(certificates[index])->Ok_0,
{
    if 0 <= index < certificates.len() && anchor_of(certificates[index]) is Err && (forall|earlier: int|
        #![trigger certificates[earlier]]
        0 <= earlier < index ==> anchor_of(certificates[earlier]) is Ok) {
        assert(all_anchors(certificates, index)) by {
            assert forall|i: int| 0 <= i < index implies #[trigger] anchor_of(certificates[i]) is Ok by {
                assert(certificates[i] == certificates[i]);
            }
        }
        assert(!all_anchors(certificates, certificates.len() as int)) by {
            assert(anchor_of(certificates[index]) is Err);
        }
        let first = choose|i: int|
            0 <= i < certificates.len() && all_anchors(certificates, i) && #[trigger] anchor_of(certificates[i]) is Err;
        assert(first == index) by {
            if first < index {
                assert(anchor_of(certificates[first]) is Ok);
            }
            if index < first {
                assert(anchor_of(certificates[index]) is Ok);
            }
        }
    }
    if all_anchors(certificates, certificates.len() as int) {
        assert forall|i: int| #![trigger certificates[i]] 0 <= i < certificates.len() implies anchor_of(certificates[i])
            is Ok by {}
    } else {
        let i = choose|i: int| 0 <= i < certificates.len() && !(#[trigger] anchor_of(certificates[i]) is Ok);
        assert(certificates[i] == certificates[i]);
    }
}

/// Roots that are held are exactly the certificates that were set, and their anchors.
pub proof fn roots_held_are_those_set(roots: RootCerts, certificates: Seq<Seq<u8>>, index: int)
    requires
        roots.hold(certificates),
    ensures
        roots.current is Some,
        ({
            let snapshot = roots.current->Some_0;
            &&& snapshot.certificates@.len() == certificates.len()
            &&& anchors(*snapshot.store).len() == certificates.len()
            &&& 0 <= index < certificates.len() ==> snapshot.certificates@[index]@ == certificates[index]
            &&& 0 <= index < certificates.len() ==> anchors(*snapshot.store)[index] == anchor_of(
                certificates[index],
            )->Ok_0
        }),
{
    let snapshot = roots.current->Some_0;
    assert(chain_bytes(snapshot.certificates@).len() == snapshot.certificates@.len());
    if 0 <= index < certificates.len() {
        assert(chain_bytes(snapshot.certificates@)[index] == snapshot.certificates@[index]@);
    }
}

} // verus!

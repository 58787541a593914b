//! The active identity: the signing identity currently used for outgoing
//! calls, a hot-swappable slot holding it, and the materialization of a
//! verified delegation chain into such an identity.
//!
//! The slot's notification payload carries only the principal and the
//! chain's expiry — never private key material — and a swap replaces the
//! whole value, so readers always see one complete identity.

use vstd::prelude::*;

use crate::crypto::{principal_of, self_authenticating_principal};
use crate::delegation::{chain_valid, min_expiration, verify_delegation_chain};
use crate::keys::spec_session_pubkey;
use crate::model::{
    links_view, InternetIdentityAuth, SignedDelegation, SignedDelegationV,
};
use crate::utils::SensitiveData;
use crate::Error;

verus! {

/// The identity used for outgoing signed calls: anonymous, or a delegated
/// identity that signs with the session key while presenting the
/// principal derived from the user's root public key.
pub enum ActiveIdentity {
    Anonymous,
    Delegated {
        user_pubkey: Vec<u8>,
        session_secret: SensitiveData<[u8; 32]>,
        delegations: Vec<SignedDelegation>,
    },
}

/// The view of an `ActiveIdentity`.
pub enum ActiveIdentityV {
    Anonymous,
    Delegated {
        user_pubkey: Seq<u8>,
        session_secret: Seq<u8>,
        delegations: Seq<SignedDelegationV>,
    },
}

impl View for ActiveIdentity {
    type V = ActiveIdentityV;

    open spec fn view(&self) -> ActiveIdentityV {
        match self {
            ActiveIdentity::Anonymous => ActiveIdentityV::Anonymous,
            ActiveIdentity::Delegated { user_pubkey, session_secret, delegations } =>
                ActiveIdentityV::Delegated {
                user_pubkey: user_pubkey@,
                session_secret: session_secret.0@,
                delegations: links_view(delegations@),
            },
        }
    }
}

/// The delegation chain an identity carries (empty for anonymous).
pub open spec fn spec_delegations(id: ActiveIdentityV) -> Seq<SignedDelegationV> {
    match id {
        ActiveIdentityV::Anonymous => Seq::empty(),
        ActiveIdentityV::Delegated { delegations, .. } => delegations,
    }
}

/// The principal an identity presents: the single anonymous byte, or the
/// self-authenticating principal of the root public key — a function of
/// that key alone.
pub open spec fn spec_principal(id: ActiveIdentityV) -> Seq<u8> {
    match id {
        ActiveIdentityV::Anonymous => seq![4u8],
        ActiveIdentityV::Delegated { user_pubkey, .. } => principal_of(user_pubkey),
    }
}

impl ActiveIdentity {
    /// The principal this identity presents.
    pub fn principal(&self) -> (r: Vec<u8>)
        ensures
            r@ == spec_principal(self@),
    {
        match self {
            ActiveIdentity::Anonymous => {
                let mut v: Vec<u8> = Vec::new();
                v.push(4u8);
                proof {
                    assert(v@ =~= seq![4u8]);
                }
                v
            },
            ActiveIdentity::Delegated { user_pubkey, .. } => self_authenticating_principal(
                user_pubkey,
            ),
        }
    }

    /// Whether this identity is anonymous.
    pub fn is_anonymous(&self) -> (r: bool)
        ensures
            r == (self@ is Anonymous),
    {
        match self {
            ActiveIdentity::Anonymous => true,
            _ => false,
        }
    }

    /// The earliest expiry of the identity's delegation chain, in
    /// nanoseconds; `None` when it does not expire.
    pub fn expiration_ns(&self) -> (r: Option<u64>)
        ensures
            (r is None) <==> spec_delegations(self@).len() == 0,
            r matches Some(m) ==> {
                &&& exists|i: int|
                    0 <= i < spec_delegations(self@).len() && spec_delegations(
                        self@,
                    )[i].expiration == m
                &&& forall|i: int|
                    0 <= i < spec_delegations(self@).len() ==> m <= (#[trigger] spec_delegations(
                        self@,
                    )[i]).expiration
            },
    {
        match self {
            ActiveIdentity::Anonymous => None,
            ActiveIdentity::Delegated { delegations, .. } => {
                let r = min_expiration(delegations);
                proof {
                    let dd = delegations@;
                    let dv = spec_delegations(self@);
                    assert(dv =~= links_view(dd));
                    match r {
                        Some(m) => {
                            let j = choose|j: int| 0 <= j < dd.len() && dd[j].expiration == m;
                            assert(dv[j] == dd[j]@);
                            assert(dv[j].expiration == m);
                            assert forall|i: int| 0 <= i < dv.len() implies m
                                <= (#[trigger] dv[i]).expiration by {
                                assert(dv[i] == dd[i]@);
                                assert(m <= dd[i].expiration);
                            }
                        },
                        None => {},
                    }
                }
                r
            },
        }
    }
}

/// The notification payload of an identity change: the new principal and
/// the chain's expiry in milliseconds. It carries no private material by
/// construction.
pub struct IdentityInfo {
    pub id: Vec<u8>,
    pub expiration: Option<u64>,
}

impl IdentityInfo {
    /// Reads the public facts of an identity: the principal, and the
    /// earliest chain expiry converted from nanoseconds to milliseconds.
    pub fn from(id: &ActiveIdentity) -> (r: IdentityInfo)
        ensures
            r.id@ == spec_principal(id@),
            (r.expiration is None) <==> spec_delegations(id@).len() == 0,
            r.expiration matches Some(ms) ==> {
                &&& exists|i: int|
                    0 <= i < spec_delegations(id@).len() && spec_delegations(
                        id@,
                    )[i].expiration / 1_000_000 == ms
                &&& forall|i: int|
                    0 <= i < spec_delegations(id@).len() ==> ms <= (#[trigger] spec_delegations(
                        id@,
                    )[i]).expiration / 1_000_000
            },
    {
        let expiration_ns = id.expiration_ns();
        let expiration = match expiration_ns {
            Some(ns) => {
                proof {
                    let d = spec_delegations(id@);
                    let j = choose|j: int| 0 <= j < d.len() && d[j].expiration == ns;
                    assert(d[j].expiration / 1_000_000 == ns / 1_000_000);
                    assert forall|i: int|
                        0 <= i < d.len() implies ns / 1_000_000 <= (#[trigger] d[i]).expiration
                        / 1_000_000 by {
                        assert(ns <= d[i].expiration);
                        assert(ns / 1_000_000 <= d[i].expiration / 1_000_000) by (nonlinear_arith)
                            requires
                                ns <= d[i].expiration,
                        ;
                    }
                }
                Some(ns / 1_000_000)
            },
            None => None,
        };
        IdentityInfo { id: id.principal(), expiration }
    }
}

/// The hot-swappable slot holding the identity in current use. Within the
/// library it is a plain owned value; the embedder shares it behind its
/// chosen atomic-swap primitive, replacing the whole value on `set`.
pub struct IdentityHolder {
    current: ActiveIdentity,
}

impl View for IdentityHolder {
    type V = ActiveIdentityV;

    closed spec fn view(&self) -> ActiveIdentityV {
        self.current@
    }
}

impl IdentityHolder {
    /// A fresh slot holding the anonymous identity.
    pub fn new() -> (r: IdentityHolder)
        ensures
            r@ is Anonymous,
    {
        IdentityHolder { current: ActiveIdentity::Anonymous }
    }

    /// The current identity snapshot.
    pub fn get(&self) -> (r: &ActiveIdentity)
        ensures
            r@ == self@,
    {
        &self.current
    }

    /// Replaces the identity wholesale and returns the change notification
    /// to emit: the new principal and the earliest chain expiry in
    /// milliseconds, nothing secret.
    pub fn set(&mut self, id: ActiveIdentity) -> (evt: IdentityInfo)
        ensures
            final(self)@ == id@,
            evt.id@ == spec_principal(id@),
            (evt.expiration is None) <==> spec_delegations(id@).len() == 0,
            evt.expiration matches Some(ms) ==> {
                &&& exists|i: int|
                    0 <= i < spec_delegations(id@).len() && spec_delegations(
                        id@,
                    )[i].expiration / 1_000_000 == ms
                &&& forall|i: int|
                    0 <= i < spec_delegations(id@).len() ==> ms <= (#[trigger] spec_delegations(
                        id@,
                    )[i]).expiration / 1_000_000
            },
    {
        let evt = IdentityInfo::from(&id);
        self.current = id;
        evt
    }

    /// Whether the current identity is authenticated at `now_ms`:
    /// non-anonymous, and its chain (if it has one) unexpired.
    pub fn is_authenticated(&self, now_ms: u64) -> (r: bool)
        ensures
            r == spec_is_authenticated(self@, now_ms),
    {
        match &self.current {
            ActiveIdentity::Anonymous => false,
            ActiveIdentity::Delegated { delegations, .. } => {
                let me = min_expiration(delegations);
                proof {
                    assert(spec_delegations(self@) =~= links_view(delegations@));
                }
                match me {
                    None => true,
                    Some(m) => {
                        let r = m / 1_000_000 > now_ms;
                        proof {
                            let dd = delegations@;
                            let dv = spec_delegations(self@);
                            assert(dv =~= links_view(dd));
                            if r {
                                assert forall|i: int|
                                    0 <= i < dv.len() implies (#[trigger] dv[i]).expiration
                                        / 1_000_000 > now_ms by {
                                    assert(dv[i] == dd[i]@);
                                    assert(m <= dd[i].expiration);
                                    assert(m / 1_000_000 <= dd[i].expiration / 1_000_000) by (
                                    nonlinear_arith)
                                        requires
                                            m <= dd[i].expiration,
                                    ;
                                }
                            } else {
                                let j = choose|j: int|
                                    0 <= j < dd.len() && dd[j].expiration == m;
                                assert(dv[j] == dd[j]@);
                                assert(!(dv[j].expiration / 1_000_000 > now_ms));
                            }
                        }
                        r
                    },
                }
            },
        }
    }
}

/// Authenticated at `now_ms`: not anonymous, and every link of the chain
/// (if any) still unexpired when its nanosecond expiry is read in
/// milliseconds.
pub open spec fn spec_is_authenticated(id: ActiveIdentityV, now_ms: u64) -> bool {
    &&& !(id is Anonymous)
    &&& forall|i: int|
        0 <= i < spec_delegations(id).len() ==> (#[trigger] spec_delegations(
            id,
        )[i]).expiration / 1_000_000 > now_ms
}

impl InternetIdentityAuth {
    /// The principal of the signed-in user.
    pub fn principal(&self) -> (r: Vec<u8>)
        ensures
            r@ == principal_of(self@.user_pubkey),
    {
        self_authenticating_principal(&self.user_pubkey)
    }

    /// Materializes this auth record into a signing identity: verifies the
    /// delegation chain against the session key derived from
    /// `session_secret`, and on success yields the delegated identity that
    /// signs with that session key while presenting the root principal.
    /// Succeeds exactly when the chain is valid at `now_ms`.
    pub fn to_identity(&self, session_secret: [u8; 32], now_ms: u64) -> (r: Result<
        ActiveIdentity,
        Error,
    >)
        ensures
            (r is Ok) <==> chain_valid(
                self@.user_pubkey,
                spec_session_pubkey(session_secret@),
                self@.delegations,
                now_ms,
            ),
            r matches Ok(id) ==> id@ == (ActiveIdentityV::Delegated {
                user_pubkey: self@.user_pubkey,
                session_secret: session_secret@,
                delegations: self@.delegations,
            }),
            r matches Err(e) ==> e is ExpiredOrInvalidDelegation,
    {
        let session_pubkey = crate::keys::der_ed25519(
            &crate::crypto::ed25519_pubkey(&session_secret),
        );
        match verify_delegation_chain(&self.user_pubkey, &session_pubkey, &self.delegations, now_ms) {
            Ok(()) => Ok(
                ActiveIdentity::Delegated {
                    user_pubkey: clone_bytes(&self.user_pubkey),
                    session_secret: SensitiveData(session_secret),
                    delegations: clone_links(&self.delegations),
                },
            ),
            Err(e) => Err(e),
        }
    }
}

/// An exact copy of a byte vector.
pub fn clone_bytes(v: &Vec<u8>) -> (r: Vec<u8>)
    ensures
        r@ == v@,
{
    let mut r: Vec<u8> = Vec::new();
    r.extend_from_slice(v.as_slice());
    proof {
        assert(r@ =~= v@);
    }
    r
}

/// An exact copy of a delegation chain.
pub fn clone_links(links: &Vec<SignedDelegation>) -> (r: Vec<SignedDelegation>)
    ensures
        links_view(r@) == links_view(links@),
{
    let n = links.len();
    let mut r: Vec<SignedDelegation> = Vec::new();
    let mut i: usize = 0;
    while i < n
        invariant
            i <= n,
            n == links@.len(),
            r@.len() == i,
            forall|j: int| 0 <= j < i ==> #[trigger] r@[j]@ == links@[j]@,
        decreases n - i,
    {
        let l = &links[i];
        r.push(
            SignedDelegation {
                pubkey: clone_bytes(&l.pubkey),
                expiration: l.expiration,
                signature: clone_bytes(&l.signature),
            },
        );
        i += 1;
    }
    proof {
        assert(links_view(r@) =~= links_view(links@));
    }
    r
}

} // verus!

//! The delegation-chain verifier: an iterative walk over the ordered links,
//! checking at each step that the link has not expired and that its
//! signature was made by the key established by the previous link (or the
//! root key for the first), and finally that the chain ends at the expected
//! session key. Verification is pure: it depends only on the inputs and the
//! given time.

use vstd::prelude::*;

use crate::crypto::{link_sig_ok, verify_link};
use crate::model::{links_view, SignedDelegation, SignedDelegationV};
use crate::Error;

verus! {

/// A link is still usable at `now_ms`: its nanosecond expiry, read as
/// milliseconds, lies strictly in the future.
pub open spec fn link_fresh(l: SignedDelegationV, now_ms: u64) -> bool {
    l.expiration / 1_000_000 > now_ms
}

/// The key that must have signed link `i`: the root key for the first
/// link, the previous link's key afterwards.
pub open spec fn chain_parent(root: Seq<u8>, links: Seq<SignedDelegationV>, i: int) -> Seq<u8> {
    if i == 0 {
        root
    } else {
        links[i - 1].pubkey
    }
}

/// A delegation chain proves that `leaf` may act for `root` at `now_ms`:
/// it is non-empty, every link is unexpired and carries a valid signature
/// by its parent key, and the last link delegates to `leaf`. An empty
/// chain proves nothing; no upper length is enforced here.
pub open spec fn chain_valid(
    root: Seq<u8>,
    leaf: Seq<u8>,
    links: Seq<SignedDelegationV>,
    now_ms: u64,
) -> bool {
    &&& links.len() > 0
    &&& forall|i: int| 0 <= i < links.len() ==> link_fresh(#[trigger] links[i], now_ms)
    &&& forall|i: int|
        0 <= i < links.len() ==> link_sig_ok(
            chain_parent(root, links, i),
            (#[trigger] links[i]).pubkey,
            links[i].expiration,
            links[i].signature,
            now_ms,
        )
    &&& links[links.len() - 1].pubkey == leaf
}

/// True byte-for-byte equality of two byte vectors.
pub fn bytes_eq(a: &Vec<u8>, b: &Vec<u8>) -> (r: bool)
    ensures
        r == (a@ == b@),
{
    if a.len() != b.len() {
        return false;
    }
    let n = a.len();
    let mut i: usize = 0;
    while i < n
        invariant
            n == a@.len() == b@.len(),
            i <= n,
            forall|j: int| 0 <= j < i ==> a@[j] == b@[j],
        decreases n - i,
    {
        if a[i] != b[i] {
            return false;
        }
        i += 1;
    }
    proof {
        assert(a@ =~= b@);
    }
    true
}

/// Walks the chain from the first link to the last and accepts exactly the
/// chains that prove `leaf` may act for `root` at `now_ms`. Rejects at the
/// first expired or wrongly signed link, without partial trust.
pub fn verify_delegation_chain(
    root: &Vec<u8>,
    leaf: &Vec<u8>,
    links: &Vec<SignedDelegation>,
    now_ms: u64,
) -> (r: Result<(), Error>)
    ensures
        r is Ok <==> chain_valid(root@, leaf@, links_view(links@), now_ms),
        r matches Err(e) ==> e is ExpiredOrInvalidDelegation,
{
    let ghost lv = links_view(links@);
    if links.len() == 0 {
        return Err(
            Error::ExpiredOrInvalidDelegation(String::from_str("delegation chain is empty")),
        );
    }
    let n = links.len();
    let mut i: usize = 0;
    while i < n
        invariant
            i <= n,
            n == links@.len(),
            lv == links_view(links@),
            forall|j: int| 0 <= j < i ==> link_fresh(#[trigger] lv[j], now_ms),
            forall|j: int|
                0 <= j < i ==> link_sig_ok(
                    chain_parent(root@, lv, j),
                    (#[trigger] lv[j]).pubkey,
                    lv[j].expiration,
                    lv[j].signature,
                    now_ms,
                ),
        decreases n - i,
    {
        let l = &links[i];
        if !(now_ms < l.expiration / 1_000_000) {
            proof {
                assert(!link_fresh(lv[i as int], now_ms));
            }
            return Err(
                Error::ExpiredOrInvalidDelegation(String::from_str("delegation link has expired")),
            );
        }
        let sig_ok = if i == 0 {
            verify_link(root, &l.pubkey, l.expiration, &l.signature, now_ms)
        } else {
            verify_link(&links[i - 1].pubkey, &l.pubkey, l.expiration, &l.signature, now_ms)
        };
        if !sig_ok {
            proof {
                assert(!link_sig_ok(
                    chain_parent(root@, lv, i as int),
                    lv[i as int].pubkey,
                    lv[i as int].expiration,
                    lv[i as int].signature,
                    now_ms,
                ));
            }
            return Err(
                Error::ExpiredOrInvalidDelegation(
                    String::from_str("delegation link signature is invalid"),
                ),
            );
        }
        i += 1;
    }
    if !bytes_eq(&links[n - 1].pubkey, leaf) {
        return Err(
            Error::ExpiredOrInvalidDelegation(
                String::from_str("delegation chain does not end at the session key"),
            ),
        );
    }
    Ok(())
}

/// The earliest expiry in the chain, in nanoseconds; `None` for an empty
/// chain.
pub fn min_expiration(links: &Vec<SignedDelegation>) -> (r: Option<u64>)
    ensures
        (r is None) <==> links@.len() == 0,
        r matches Some(m) ==> {
            &&& exists|i: int| 0 <= i < links@.len() && links@[i].expiration == m
            &&& forall|i: int| 0 <= i < links@.len() ==> m <= (#[trigger] links@[i]).expiration
        },
{
    if links.len() == 0 {
        return None;
    }
    let n = links.len();
    let mut m: u64 = links[0].expiration;
    let mut i: usize = 1;
    while i < n
        invariant
            1 <= i <= n,
            n == links@.len(),
            exists|j: int| 0 <= j < i && links@[j].expiration == m,
            forall|j: int| 0 <= j < i ==> m <= (#[trigger] links@[j]).expiration,
        decreases n - i,
    {
        if links[i].expiration < m {
            m = links[i].expiration;
        }
        i += 1;
    }
    Some(m)
}

/// A chain of two links, each signed by its predecessor and unexpired,
/// ending at the session key, verifies.
pub proof fn lemma_two_link_chain_valid(
    root: Seq<u8>,
    leaf: Seq<u8>,
    l1: SignedDelegationV,
    l2: SignedDelegationV,
    now_ms: u64,
)
    requires
        link_fresh(l1, now_ms),
        link_fresh(l2, now_ms),
        link_sig_ok(root, l1.pubkey, l1.expiration, l1.signature, now_ms),
        link_sig_ok(l1.pubkey, l2.pubkey, l2.expiration, l2.signature, now_ms),
        l2.pubkey == leaf,
    ensures
        chain_valid(root, leaf, seq![l1, l2], now_ms),
{
    let links = seq![l1, l2];
    assert forall|i: int| 0 <= i < links.len() implies link_fresh(#[trigger] links[i], now_ms) by {
        if i == 0 {
            assert(links[0] == l1);
        } else {
            assert(links[1] == l2);
        }
    }
    assert forall|i: int| 0 <= i < links.len() implies link_sig_ok(
        chain_parent(root, links, i),
        (#[trigger] links[i]).pubkey,
        links[i].expiration,
        links[i].signature,
        now_ms,
    ) by {
        if i == 0 {
            assert(links[0] == l1);
            assert(chain_parent(root, links, 0) == root);
        } else {
            assert(links[1] == l2);
            assert(chain_parent(root, links, 1) == l1.pubkey);
        }
    }
    assert(links[links.len() - 1] == l2);
}

/// A chain whose last link has already expired never verifies, whatever
/// else holds of it.
pub proof fn lemma_expired_chain_invalid(
    root: Seq<u8>,
    leaf: Seq<u8>,
    links: Seq<SignedDelegationV>,
    now_ms: u64,
)
    requires
        links.len() > 0,
        links[links.len() - 1].expiration / 1_000_000 <= now_ms,
    ensures
        !chain_valid(root, leaf, links, now_ms),
{
    assert(!link_fresh(links[links.len() - 1], now_ms));
}

} // verus!

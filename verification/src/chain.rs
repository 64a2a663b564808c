//! The certificate-chain validator: a walk over path positions.
//!
//! The path runs from the leaf at position zero toward the root at the
//! end.  At each position the walk checks, in order: that the issuer
//! name equals the next certificate's subject, that the next
//! certificate's key verifies this certificate's signature, that the
//! check time falls inside this certificate's validity window, and that
//! the next certificate is a constrained authority.  The walk accepts
//! only when the final certificate is byte-identical to the pinned
//! anchor.  Over-long paths and paths that revisit a subject name are
//! rejected before the walk starts, so attacker-supplied cycles cost
//! nothing.  The whole rule is stated once in [`spec_validate_chain`];
//! the executable validator is proved equal to it.

use vstd::prelude::*;

use crate::cert::{Certificate, SpecCertificate};
use crate::crypto::{ecdsa_p384_valid, ecdsa_p384_verify};
use crate::decode::bytes_eq;
use crate::VerificationFailure;

verus! {

/// The models of a sequence of certificates.
pub open spec fn certs_view(cs: Seq<Certificate>) -> Seq<SpecCertificate> {
    Seq::new(
        cs.len(),
        |i: int|
            if 0 <= i < cs.len() {
                cs[i]@
            } else {
                cs[0]@
            },
    )
}

/// Whether some path certificate carries `subject` as its subject name.
pub open spec fn spec_subject_present(path: Seq<SpecCertificate>, subject: Seq<u8>) -> bool {
    exists|j: int| 0 <= j < path.len() && path[j].subject == subject
}

/// Whether a declared remaining path length admits `below` intermediate
/// certificates beneath the holder.
pub open spec fn spec_pathlen_ok(pl: Option<u64>, below: int) -> bool {
    match pl {
        Option::None => true,
        Option::Some(n) => n >= below,
    }
}

/// One walk step and everything after it, starting at position `i`.
pub open spec fn spec_walk(
    path: Seq<SpecCertificate>,
    anchor: Seq<u8>,
    time: u64,
    i: int,
) -> Result<(), VerificationFailure>
    decreases path.len() - i,
{
    if i < 0 || i >= path.len() {
        Err(VerificationFailure::ChainIncomplete { index: 0 })
    } else {
        let c = path[i];
        if i + 1 < path.len() {
            let nxt = path[i + 1];
            if c.issuer != nxt.subject {
                if spec_subject_present(path, c.issuer) {
                    Err(VerificationFailure::ChainBroken { index: i as usize })
                } else {
                    Err(VerificationFailure::ChainIncomplete { index: i as usize })
                }
            } else if !ecdsa_p384_valid(nxt.pub_key, c.tbs, c.sig) {
                Err(VerificationFailure::SignatureInvalid)
            } else if time > c.not_after {
                Err(VerificationFailure::CertificateExpired { index: i as usize })
            } else if time < c.not_before {
                Err(VerificationFailure::CertificateNotYetValid { index: i as usize })
            } else if !nxt.is_ca || !spec_pathlen_ok(nxt.path_len, i) {
                Err(VerificationFailure::NotACertificateAuthority { index: (i + 1) as usize })
            } else {
                spec_walk(path, anchor, time, i + 1)
            }
        } else {
            if time > c.not_after {
                Err(VerificationFailure::CertificateExpired { index: i as usize })
            } else if time < c.not_before {
                Err(VerificationFailure::CertificateNotYetValid { index: i as usize })
            } else if c.raw == anchor {
                Ok(())
            } else {
                Err(VerificationFailure::UntrustedRoot)
            }
        }
    }
}

/// Whether two path positions share a subject name.
pub open spec fn spec_dup_subject(path: Seq<SpecCertificate>) -> bool {
    exists|i: int, j: int| 0 <= i < j < path.len() && path[i].subject == path[j].subject
}

/// The whole chain rule: length and cycle bounds, then the walk from the
/// leaf.
pub open spec fn spec_validate_chain(
    path: Seq<SpecCertificate>,
    anchor: Seq<u8>,
    time: u64,
    max_len: int,
) -> Result<(), VerificationFailure> {
    if path.len() == 0 {
        Err(VerificationFailure::ChainIncomplete { index: 0 })
    } else if path.len() > max_len {
        Err(VerificationFailure::ChainTooLong)
    } else if spec_dup_subject(path) {
        Err(VerificationFailure::ChainTooLong)
    } else {
        spec_walk(path, anchor, time, 0)
    }
}

/// Searches the path for a certificate with the given subject name.
fn subject_present(path: &Vec<Certificate>, subject: &Vec<u8>) -> (r: bool)
    ensures
        r == spec_subject_present(certs_view(path@), subject@),
{
    for i in 0..path.len()
        invariant
            forall|j: int| 0 <= j < i ==> certs_view(path@)[j].subject != subject@,
        decreases path@.len() - i,
    {
        if bytes_eq(&path[i].subject, subject) {
            assert(certs_view(path@)[i as int].subject == subject@);
            return true;
        }
    }
    false
}

/// Searches the path for two positions sharing a subject name.
fn dup_subject(path: &Vec<Certificate>) -> (r: bool)
    ensures
        r == spec_dup_subject(certs_view(path@)),
{
    for i in 0..path.len()
        invariant
            forall|a: int, b: int|
                0 <= a < b < path@.len() && a < i ==> certs_view(path@)[a].subject != certs_view(
                    path@,
                )[b].subject,
        decreases path@.len() - i,
    {
        for j in (i + 1)..path.len()
            invariant
                i < path@.len(),
                forall|a: int, b: int|
                    0 <= a < b < path@.len() && a < i ==> certs_view(path@)[a].subject
                        != certs_view(path@)[b].subject,
                forall|b: int|
                    i < b < j ==> certs_view(path@)[i as int].subject != certs_view(
                        path@,
                    )[b].subject,
            decreases path@.len() - j,
        {
            if bytes_eq(&path[i].subject, &path[j].subject) {
                assert(certs_view(path@)[i as int].subject == certs_view(path@)[j as int].subject);
                return true;
            }
        }
    }
    false
}

/// Runs the walk from position `i`.
fn walk(path: &Vec<Certificate>, anchor: &Vec<u8>, time: u64, i: usize) -> (r: Result<
    (),
    VerificationFailure,
>)
    requires
        i < path@.len(),
    ensures
        r == spec_walk(certs_view(path@), anchor@, time, i as int),
    decreases path@.len() - i,
{
    if i < path.len() - 1 {
        if !bytes_eq(&path[i].issuer, &path[i + 1].subject) {
            if subject_present(path, &path[i].issuer) {
                Err(VerificationFailure::ChainBroken { index: i })
            } else {
                Err(VerificationFailure::ChainIncomplete { index: i })
            }
        } else if !ecdsa_p384_verify(&path[i + 1].pub_key, &path[i].tbs, &path[i].sig) {
            Err(VerificationFailure::SignatureInvalid)
        } else if time > path[i].not_after {
            Err(VerificationFailure::CertificateExpired { index: i })
        } else if time < path[i].not_before {
            Err(VerificationFailure::CertificateNotYetValid { index: i })
        } else {
            let ca_ok = path[i + 1].is_ca && (match path[i + 1].path_len {
                Option::Some(n) => n >= (i as u64),
                Option::None => true,
            });
            if !ca_ok {
                Err(VerificationFailure::NotACertificateAuthority { index: i + 1 })
            } else {
                walk(path, anchor, time, i + 1)
            }
        }
    } else {
        if time > path[i].not_after {
            Err(VerificationFailure::CertificateExpired { index: i })
        } else if time < path[i].not_before {
            Err(VerificationFailure::CertificateNotYetValid { index: i })
        } else if bytes_eq(&path[i].raw, anchor) {
            Ok(())
        } else {
            Err(VerificationFailure::UntrustedRoot)
        }
    }
}

/// Validates a whole path, leaf first, against the pinned anchor at the
/// given check time.
pub fn validate_chain(path: &Vec<Certificate>, anchor: &Vec<u8>, time: u64, max_len: usize) -> (r:
    Result<(), VerificationFailure>)
    ensures
        r == spec_validate_chain(certs_view(path@), anchor@, time, max_len as int),
{
    if path.len() == 0 {
        return Err(VerificationFailure::ChainIncomplete { index: 0 });
    }
    if path.len() > max_len {
        return Err(VerificationFailure::ChainTooLong);
    }
    if dup_subject(path) {
        return Err(VerificationFailure::ChainTooLong);
    }
    walk(path, anchor, time, 0)
}

/// The checks a walk step makes at position `i` apart from the validity
/// window: the name link, the signature under the issuer's key, and the
/// issuer's authority constraints.
pub open spec fn spec_link_ok(path: Seq<SpecCertificate>, i: int) -> bool {
    &&& path[i].issuer == path[i + 1].subject
    &&& ecdsa_p384_valid(path[i + 1].pub_key, path[i].tbs, path[i].sig)
    &&& path[i + 1].is_ca
    &&& spec_pathlen_ok(path[i + 1].path_len, i)
}

/// Whether the check time falls inside the validity window at `i`.
pub open spec fn spec_window_ok(path: Seq<SpecCertificate>, time: u64, i: int) -> bool {
    path[i].not_before <= time <= path[i].not_after
}

/// The walk from `k` ends at the first bad validity window.
proof fn lemma_walk_to_bad_window(
    path: Seq<SpecCertificate>,
    anchor: Seq<u8>,
    time: u64,
    k: int,
    i: int,
)
    requires
        0 <= k <= i < path.len(),
        forall|j: int| k <= j < path.len() - 1 ==> spec_link_ok(path, j),
        forall|j: int| k <= j < i ==> spec_window_ok(path, time, j),
        !spec_window_ok(path, time, i),
    ensures
        spec_walk(path, anchor, time, k) == (if time > path[i].not_after {
            Err::<(), VerificationFailure>(VerificationFailure::CertificateExpired {
                index: i as usize,
            })
        } else {
            Err::<(), VerificationFailure>(VerificationFailure::CertificateNotYetValid {
                index: i as usize,
            })
        }),
    decreases i - k,
{
    if k < i {
        assert(spec_link_ok(path, k));
        assert(spec_window_ok(path, time, k));
        lemma_walk_to_bad_window(path, anchor, time, k + 1, i);
    } else {
        if i < path.len() - 1 {
            assert(spec_link_ok(path, i));
        }
    }
}

/// The walk from `k` reaches the final certificate and compares it to
/// the anchor when every link and window on the way holds.
proof fn lemma_walk_to_anchor(path: Seq<SpecCertificate>, anchor: Seq<u8>, time: u64, k: int)
    requires
        0 <= k < path.len(),
        forall|j: int| k <= j < path.len() - 1 ==> spec_link_ok(path, j),
        forall|j: int| k <= j < path.len() ==> spec_window_ok(path, time, j),
    ensures
        spec_walk(path, anchor, time, k) == (if path[path.len() - 1].raw == anchor {
            Ok::<(), VerificationFailure>(())
        } else {
            Err::<(), VerificationFailure>(VerificationFailure::UntrustedRoot)
        }),
    decreases path.len() - k,
{
    assert(spec_window_ok(path, time, k));
    if k < path.len() - 1 {
        assert(spec_link_ok(path, k));
        lemma_walk_to_anchor(path, anchor, time, k + 1);
    }
}

/// When a validity window excludes the check time, validation fails with
/// exactly the expiry failure of the first such certificate, and the
/// walk never looks past it: every later certificate is irrelevant to
/// the outcome.
pub proof fn lemma_chain_stops_at_first_bad_window(
    path: Seq<SpecCertificate>,
    anchor: Seq<u8>,
    time: u64,
    max_len: int,
    i: int,
)
    requires
        0 < path.len() <= max_len,
        !spec_dup_subject(path),
        forall|j: int| 0 <= j < path.len() - 1 ==> spec_link_ok(path, j),
        0 <= i < path.len(),
        forall|j: int| 0 <= j < i ==> spec_window_ok(path, time, j),
        !spec_window_ok(path, time, i),
    ensures
        time > path[i].not_after ==> spec_validate_chain(path, anchor, time, max_len) == Err::<
            (),
            VerificationFailure,
        >(VerificationFailure::CertificateExpired { index: i as usize }),
        time < path[i].not_before && time <= path[i].not_after ==> spec_validate_chain(
            path,
            anchor,
            time,
            max_len,
        ) == Err::<(), VerificationFailure>(
            VerificationFailure::CertificateNotYetValid { index: i as usize },
        ),
{
    lemma_walk_to_bad_window(path, anchor, time, 0, i);
}

/// When every link and window holds, the anchor alone decides: the path
/// is accepted exactly when its final certificate is byte-identical to
/// the pinned anchor, and any difference, even one byte, is refused as
/// an untrusted root.
pub proof fn lemma_chain_anchor_decides(
    path: Seq<SpecCertificate>,
    anchor: Seq<u8>,
    time: u64,
    max_len: int,
)
    requires
        0 < path.len() <= max_len,
        !spec_dup_subject(path),
        forall|j: int| 0 <= j < path.len() - 1 ==> spec_link_ok(path, j),
        forall|j: int| 0 <= j < path.len() ==> spec_window_ok(path, time, j),
    ensures
        path[path.len() - 1].raw == anchor ==> spec_validate_chain(path, anchor, time, max_len)
            == Ok::<(), VerificationFailure>(()),
        path[path.len() - 1].raw != anchor ==> spec_validate_chain(path, anchor, time, max_len)
            == Err::<(), VerificationFailure>(VerificationFailure::UntrustedRoot),
{
    lemma_walk_to_anchor(path, anchor, time, 0);
}

/// An accepted walk ends at the anchor: whatever route the checks took,
/// success means the final path certificate is byte-identical to it.
pub proof fn lemma_walk_ok_ends_at_anchor(
    path: Seq<SpecCertificate>,
    anchor: Seq<u8>,
    time: u64,
    k: int,
)
    requires
        spec_walk(path, anchor, time, k) is Ok,
    ensures
        path.len() > 0 && path[path.len() - 1].raw == anchor,
    decreases path.len() - k,
{
    if 0 <= k < path.len() && k + 1 < path.len() {
        lemma_walk_ok_ends_at_anchor(path, anchor, time, k + 1);
    }
}

/// An accepted chain ends at the anchor.
pub proof fn lemma_chain_ok_ends_at_anchor(
    path: Seq<SpecCertificate>,
    anchor: Seq<u8>,
    time: u64,
    max_len: int,
)
    requires
        spec_validate_chain(path, anchor, time, max_len) is Ok,
    ensures
        path.len() > 0 && path[path.len() - 1].raw == anchor,
{
    lemma_walk_ok_ends_at_anchor(path, anchor, time, 0);
}

} // verus!

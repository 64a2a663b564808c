//! The verification orchestrator.
//!
//! One entry point composes the engine: decode the envelope, check its
//! algorithm and signature width, decode the typed payload, parse the
//! leaf certificate and bundle into a path, validate the path against
//! the pinned anchor, and only then check the envelope signature with
//! the chain-validated leaf key.  The first failing stage ends the call;
//! a payload never comes back partially trusted.  Chain validity is
//! checked against the attestation's own embedded timestamp, so the
//! verifier needs no clock; that policy choice is fixed here.
//!
//! The whole sequence is stated once in [`spec_verify`]; the executable
//! entry points are proved equal to it, which also makes every
//! verification a pure function of the evidence and the configuration.

use vstd::prelude::*;

use crate::cert::{parse_certificate, spec_parse_cert, Certificate, SpecCertificate};
use crate::chain::{certs_view, spec_validate_chain, validate_chain};
use crate::crypto::{ecdsa_p384_valid, ecdsa_p384_verify};
use crate::envelope::{
    envelope_decode, protected_alg_ok, sig_structure, spec_envelope_decode, spec_protected_alg_ok,
    spec_sig_structure,
};
use crate::payload::{decode_payload, spec_payload_decode, AttestationPayload, SpecPayload};
use crate::{FieldId, VerificationFailure};

verus! {

/// The default bound on accepted evidence size, in bytes.
pub const DEFAULT_MAX_EVIDENCE: usize = 16384;

/// The default bound on certificate path length.
pub const DEFAULT_MAX_CHAIN: usize = 8;

/// The width of a signature: two 48-byte scalars.
pub const SIGNATURE_LEN: usize = 96;

/// The certificates of the bundle parsed in order, or the failure.
pub open spec fn spec_parse_bundle(bundle: Seq<Seq<u8>>, i: int) -> Result<
    Seq<SpecCertificate>,
    VerificationFailure,
>
    decreases bundle.len() - i,
{
    if i < 0 || i >= bundle.len() {
        Ok(Seq::empty())
    } else {
        match spec_parse_cert(bundle[i]) {
            Some(c) => match spec_parse_bundle(bundle, i + 1) {
                Ok(rest) => Ok(seq![c] + rest),
                Err(e) => Err(e),
            },
            None => Err(VerificationFailure::InvalidField { field: FieldId::CaBundle }),
        }
    }
}

/// The validation path of a payload: the leaf certificate first, then
/// the bundle reversed, so the pinned root comes last.  The bundle is
/// supplied root first; that orientation is fixed here.
pub open spec fn spec_build_path(sp: SpecPayload) -> Result<
    Seq<SpecCertificate>,
    VerificationFailure,
> {
    match spec_parse_cert(sp.certificate) {
        None => Err(VerificationFailure::InvalidField { field: FieldId::Certificate }),
        Some(leaf) => match spec_parse_bundle(sp.cabundle, 0) {
            Err(e) => Err(e),
            Ok(parsed) => Ok(
                seq![leaf] + Seq::new(
                    parsed.len(),
                    |k: int|
                        if 0 <= k < parsed.len() {
                            parsed[parsed.len() - 1 - k]
                        } else {
                            leaf
                        },
                ),
            ),
        },
    }
}

/// What verification of raw evidence yields under a pinned anchor and
/// the given limits: the single point of truth for the orchestrator.
pub open spec fn spec_verify(
    evidence: Seq<u8>,
    anchor: Seq<u8>,
    max_evidence: int,
    max_chain: int,
) -> Result<SpecPayload, VerificationFailure> {
    if evidence.len() > max_evidence {
        Err(VerificationFailure::EvidenceTooLarge)
    } else {
        match spec_envelope_decode(evidence) {
            Err(e) => Err(e),
            Ok(env) => {
                if !spec_protected_alg_ok(env.protected) {
                    Err(VerificationFailure::MalformedEnvelope)
                } else if env.signature.len() != SIGNATURE_LEN {
                    Err(VerificationFailure::MalformedSignature)
                } else {
                    match spec_payload_decode(env.payload) {
                        Err(e) => Err(e),
                        Ok(sp) => match spec_build_path(sp) {
                            Err(e) => Err(e),
                            Ok(path) => match spec_validate_chain(
                                path,
                                anchor,
                                sp.timestamp / 1000,
                                max_chain,
                            ) {
                                Err(e) => Err(e),
                                Ok(_) => {
                                    if ecdsa_p384_valid(
                                        path[0].pub_key,
                                        spec_sig_structure(env.protected, env.payload),
                                        env.signature,
                                    ) {
                                        Ok(sp)
                                    } else {
                                        Err(VerificationFailure::SignatureInvalid)
                                    }
                                },
                            },
                        },
                    }
                }
            },
        }
    }
}

/// What decoding evidence without any trust decision yields: the
/// envelope's payload run through the typed schema.
pub open spec fn spec_attestation_decode(evidence: Seq<u8>) -> Result<
    SpecPayload,
    VerificationFailure,
> {
    match spec_envelope_decode(evidence) {
        Err(e) => Err(e),
        Ok(env) => spec_payload_decode(env.payload),
    }
}

/// Decodes evidence to its typed payload without verifying anything:
/// no signature check and no chain validation.
pub fn attestation_decode(evidence: &Vec<u8>) -> (r: Result<
    AttestationPayload,
    VerificationFailure,
>)
    ensures
        match spec_attestation_decode(evidence@) {
            Ok(sp) => r is Ok && (r->Ok_0)@ == sp,
            Err(e) => r == Err::<AttestationPayload, VerificationFailure>(e),
        },
{
    match envelope_decode(evidence) {
        Err(e) => Err(e),
        Ok(env) => decode_payload(&env.payload),
    }
}

/// Builds the validation path from a payload's certificates.
#[verifier::rlimit(100)]
#[verifier::spinoff_prover]
fn build_path(p: &AttestationPayload) -> (r: Result<Vec<Certificate>, VerificationFailure>)
    ensures
        match spec_build_path(p@) {
            Ok(path) => r is Ok && certs_view((r->Ok_0)@) == path,
            Err(e) => r == Err::<Vec<Certificate>, VerificationFailure>(e),
        },
{
    let leaf = match parse_certificate(&p.certificate) {
        Some(c) => c,
        None => {
            return Err(VerificationFailure::InvalidField { field: FieldId::Certificate });
        },
    };
    let mut path: Vec<Certificate> = Vec::new();
    path.push(leaf);
    let n = p.cabundle.len();
    for k in 0..n
        invariant
            n == p.cabundle@.len(),
            path@.len() == k + 1,
            spec_parse_cert(p.certificate@) == Some(path@[0]@),
            forall|j: int|
                0 <= j < k ==> spec_parse_cert(p@.cabundle[n - 1 - j]) == Some(
                    #[trigger] path@[j + 1]@,
                ),
        decreases n - k,
    {
        match parse_certificate(&p.cabundle[n - 1 - k]) {
            Some(c) => {
                path.push(c);
            },
            None => {
                proof {
                    lemma_parse_bundle_err(p@.cabundle, n - 1 - k);
                }
                return Err(VerificationFailure::InvalidField { field: FieldId::CaBundle });
            },
        }
    }
    proof {
        lemma_parse_bundle_all(p@.cabundle, path@);
    }
    Ok(path)
}

/// When one bundle certificate does not parse, parsing the bundle fails.
proof fn lemma_parse_bundle_err(bundle: Seq<Seq<u8>>, bad: int)
    requires
        0 <= bad < bundle.len(),
        spec_parse_cert(bundle[bad]) is None,
    ensures
        forall|i: int|
            0 <= i <= bad ==> spec_parse_bundle(bundle, i) == Err::<
                Seq<SpecCertificate>,
                VerificationFailure,
            >(VerificationFailure::InvalidField { field: FieldId::CaBundle }),
    decreases bundle.len(),
{
    assert forall|i: int|
        0 <= i <= bad implies spec_parse_bundle(bundle, i) == Err::<
        Seq<SpecCertificate>,
        VerificationFailure,
    >(VerificationFailure::InvalidField { field: FieldId::CaBundle }) by {
        lemma_parse_bundle_err_from(bundle, i, bad);
    }
}

/// The helper induction for [`lemma_parse_bundle_err`].
proof fn lemma_parse_bundle_err_from(bundle: Seq<Seq<u8>>, i: int, bad: int)
    requires
        0 <= i <= bad < bundle.len(),
        spec_parse_cert(bundle[bad]) is None,
    ensures
        spec_parse_bundle(bundle, i) == Err::<Seq<SpecCertificate>, VerificationFailure>(
            VerificationFailure::InvalidField { field: FieldId::CaBundle },
        ),
    decreases bad - i,
{
    if i < bad {
        match spec_parse_cert(bundle[i]) {
            Some(_) => {
                lemma_parse_bundle_err_from(bundle, i + 1, bad);
            },
            None => {},
        }
    }
}

/// When every bundle certificate parses to the reversed tail of `path`,
/// parsing the bundle succeeds with exactly those certificates.
proof fn lemma_parse_bundle_all(bundle: Seq<Seq<u8>>, path: Seq<Certificate>)
    requires
        path.len() == bundle.len() + 1,
        forall|j: int|
            0 <= j < bundle.len() ==> spec_parse_cert(bundle[bundle.len() - 1 - j]) == Some(
                #[trigger] path[j + 1]@,
            ),
    ensures
        spec_parse_bundle(bundle, 0) matches Ok(parsed) && parsed.len() == bundle.len() && (forall|
            k: int,
        |
            0 <= k < bundle.len() ==> #[trigger] parsed[k] == path[bundle.len() - k]@),
{
    lemma_parse_bundle_all_from(bundle, path, 0);
}

/// The helper induction for [`lemma_parse_bundle_all`].
#[verifier::rlimit(100)]
#[verifier::spinoff_prover]
proof fn lemma_parse_bundle_all_from(bundle: Seq<Seq<u8>>, path: Seq<Certificate>, i: int)
    requires
        0 <= i <= bundle.len(),
        path.len() == bundle.len() + 1,
        forall|j: int|
            0 <= j < bundle.len() ==> spec_parse_cert(bundle[bundle.len() - 1 - j]) == Some(
                #[trigger] path[j + 1]@,
            ),
    ensures
        spec_parse_bundle(bundle, i) matches Ok(parsed) && parsed.len() == bundle.len() - i && (
        forall|k: int|
            0 <= k < bundle.len() - i ==> #[trigger] parsed[k] == path[bundle.len() - i - k]@),
    decreases bundle.len() - i,
{
    if i < bundle.len() {
        let j = bundle.len() - 1 - i;
        assert(spec_parse_cert(bundle[i]) == Some(path[j + 1]@));
        lemma_parse_bundle_all_from(bundle, path, i + 1);
        let rest = spec_parse_bundle(bundle, i + 1)->Ok_0;
        let parsed = spec_parse_bundle(bundle, i)->Ok_0;
        assert(parsed == seq![path[j + 1]@] + rest);
        let blen = bundle.len() as int;
        assert forall|k: int| 0 <= k < blen - i implies #[trigger] parsed[k] == path[blen - i
            - k]@ by {
            if k == 0 {
                assert(parsed[0] == path[j + 1]@);
            } else {
                assert(parsed[k] == rest[k - 1]);
            }
        }
    }
}

/// The configured verifier: a pinned trust anchor and the resource
/// limits, fixed at construction.
pub struct Verifier {
    /// The pinned root certificate bytes; a path is accepted only when
    /// its final certificate is byte-identical to these.
    pub anchor: Vec<u8>,
    /// The largest evidence buffer accepted.
    pub max_evidence: usize,
    /// The longest certificate path accepted.
    pub max_chain: usize,
}

impl Verifier {
    /// A verifier with the default limits.
    pub fn new(anchor: Vec<u8>) -> (r: Verifier)
        ensures
            r.anchor@ == anchor@,
            r.max_evidence == DEFAULT_MAX_EVIDENCE,
            r.max_chain == DEFAULT_MAX_CHAIN,
    {
        Verifier { anchor, max_evidence: DEFAULT_MAX_EVIDENCE, max_chain: DEFAULT_MAX_CHAIN }
    }

    /// A verifier with explicit limits.
    pub fn with_limits(anchor: Vec<u8>, max_evidence: usize, max_chain: usize) -> (r: Verifier)
        ensures
            r.anchor@ == anchor@,
            r.max_evidence == max_evidence,
            r.max_chain == max_chain,
    {
        Verifier { anchor, max_evidence, max_chain }
    }

    /// Verifies raw evidence: decodes it, validates the certificate
    /// chain against the pinned anchor at the attestation's own
    /// timestamp, and checks the envelope signature with the
    /// chain-validated leaf key.  Returns the trusted payload, or the
    /// first failure.
    pub fn verify(&self, evidence: &Vec<u8>) -> (r: Result<AttestationPayload, VerificationFailure>)
        ensures
            match spec_verify(evidence@, self.anchor@, self.max_evidence as int, self.max_chain as int) {
                Ok(sp) => r is Ok && (r->Ok_0)@ == sp,
                Err(e) => r == Err::<AttestationPayload, VerificationFailure>(e),
            },
    {
        if evidence.len() > self.max_evidence {
            return Err(VerificationFailure::EvidenceTooLarge);
        }
        let env = match envelope_decode(evidence) {
            Ok(env) => env,
            Err(e) => {
                return Err(e);
            },
        };
        if !protected_alg_ok(&env.protected) {
            return Err(VerificationFailure::MalformedEnvelope);
        }
        if env.signature.len() != SIGNATURE_LEN {
            return Err(VerificationFailure::MalformedSignature);
        }
        let sp = match decode_payload(&env.payload) {
            Ok(sp) => sp,
            Err(e) => {
                return Err(e);
            },
        };
        let path = match build_path(&sp) {
            Ok(path) => path,
            Err(e) => {
                return Err(e);
            },
        };
        match validate_chain(&path, &self.anchor, sp.timestamp / 1000, self.max_chain) {
            Ok(_) => {},
            Err(e) => {
                return Err(e);
            },
        }
        let tbs = sig_structure(&env.protected, &env.payload);
        proof {
            assert(certs_view(path@)[0] == path@[0]@);
        }
        if ecdsa_p384_verify(&path[0].pub_key, &tbs, &env.signature) {
            Ok(sp)
        } else {
            Err(VerificationFailure::SignatureInvalid)
        }
    }
}

/// Verification is a pure function of its inputs: two runs over the
/// same evidence, anchor and limits yield the very same result.
pub proof fn lemma_verify_deterministic(
    evidence: Seq<u8>,
    anchor: Seq<u8>,
    max_evidence: int,
    max_chain: int,
    r1: Result<SpecPayload, VerificationFailure>,
    r2: Result<SpecPayload, VerificationFailure>,
)
    requires
        r1 == spec_verify(evidence, anchor, max_evidence, max_chain),
        r2 == spec_verify(evidence, anchor, max_evidence, max_chain),
    ensures
        r1 == r2,
{
}

/// A verification that succeeds vouches for the signature: the envelope
/// signature is genuine under the chain-validated leaf key, and the
/// chain itself was accepted.  Conversely, when every stage before the
/// signature check passes but the signature is not genuine, the result
/// is exactly the signature failure.
pub proof fn lemma_signature_gate(
    evidence: Seq<u8>,
    anchor: Seq<u8>,
    max_evidence: int,
    max_chain: int,
)
    requires
        evidence.len() <= max_evidence,
        spec_envelope_decode(evidence) is Ok,
        spec_protected_alg_ok(spec_envelope_decode(evidence)->Ok_0.protected),
        spec_envelope_decode(evidence)->Ok_0.signature.len() == SIGNATURE_LEN,
        spec_payload_decode(spec_envelope_decode(evidence)->Ok_0.payload) is Ok,
        spec_build_path(spec_payload_decode(spec_envelope_decode(evidence)->Ok_0.payload)->Ok_0)
            is Ok,
        spec_validate_chain(
            spec_build_path(
                spec_payload_decode(spec_envelope_decode(evidence)->Ok_0.payload)->Ok_0,
            )->Ok_0,
            anchor,
            spec_payload_decode(spec_envelope_decode(evidence)->Ok_0.payload)->Ok_0.timestamp
                / 1000,
            max_chain,
        ) is Ok,
    ensures
        ({
            let env = spec_envelope_decode(evidence)->Ok_0;
            let sp = spec_payload_decode(env.payload)->Ok_0;
            let path = spec_build_path(sp)->Ok_0;
            let genuine = ecdsa_p384_valid(
                path[0].pub_key,
                spec_sig_structure(env.protected, env.payload),
                env.signature,
            );
            &&& genuine ==> spec_verify(evidence, anchor, max_evidence, max_chain) == Ok::<
                SpecPayload,
                VerificationFailure,
            >(sp)
            &&& !genuine ==> spec_verify(evidence, anchor, max_evidence, max_chain) == Err::<
                SpecPayload,
                VerificationFailure,
            >(VerificationFailure::SignatureInvalid)
        }),
{
}

/// What acceptance vouches for: when verification succeeds, the
/// evidence decoded cleanly, the certificate path was validated and its
/// final certificate is byte-identical to the pinned anchor, and the
/// envelope signature is genuine under the path's leaf key over the
/// rebuilt to-be-signed bytes.  No payload is handed back on any weaker
/// grounds.
pub proof fn lemma_acceptance(evidence: Seq<u8>, anchor: Seq<u8>, max_evidence: int, max_chain: int)
    requires
        spec_verify(evidence, anchor, max_evidence, max_chain) is Ok,
    ensures
        ({
            let env = spec_envelope_decode(evidence)->Ok_0;
            let sp = spec_payload_decode(env.payload)->Ok_0;
            let path = spec_build_path(sp)->Ok_0;
            &&& spec_envelope_decode(evidence) is Ok
            &&& spec_protected_alg_ok(env.protected)
            &&& env.signature.len() == SIGNATURE_LEN
            &&& spec_payload_decode(env.payload) is Ok
            &&& spec_build_path(sp) is Ok
            &&& spec_validate_chain(path, anchor, sp.timestamp / 1000, max_chain) is Ok
            &&& path.len() > 0 && path[path.len() - 1].raw == anchor
            &&& ecdsa_p384_valid(
                path[0].pub_key,
                spec_sig_structure(env.protected, env.payload),
                env.signature,
            )
            &&& spec_verify(evidence, anchor, max_evidence, max_chain) == Ok::<
                SpecPayload,
                VerificationFailure,
            >(sp)
        }),
{
    let env = spec_envelope_decode(evidence)->Ok_0;
    let sp = spec_payload_decode(env.payload)->Ok_0;
    let path = spec_build_path(sp)->Ok_0;
    crate::chain::lemma_chain_ok_ends_at_anchor(path, anchor, sp.timestamp / 1000, max_chain);
}

} // verus!

//! Verification engine for hardware attestation evidence.
//!
//! The engine decodes a signed binary envelope, extracts the typed
//! attestation payload, validates the certificate chain against a pinned
//! trust anchor, and checks the envelope signature with the chain-validated
//! leaf key.  Every failure is reported as one structured
//! [`VerificationFailure`]; the engine never returns a partially trusted
//! payload.

use vstd::prelude::*;

pub mod cert;
pub mod chain;
pub mod crypto;
pub mod decode;
pub mod encode;
pub mod envelope;
pub mod payload;
pub mod value;
pub mod verify;

verus! {

/// Names a required or typed field of the attestation payload.
#[derive(Clone, Copy, Debug, PartialEq, Eq, Structural)]
pub enum FieldId {
    /// The payload document as a whole (it must be a mapping).
    Document,
    ModuleId,
    Digest,
    Timestamp,
    Pcrs,
    Certificate,
    CaBundle,
    PublicKey,
    UserData,
    Nonce,
}

/// Why a verification attempt was refused.  Terminal for the call: the
/// engine never retries and never downgrades a failure.
#[derive(Clone, Copy, Debug, PartialEq, Eq, Structural)]
pub enum VerificationFailure {
    /// The bytes do not conform to the binary grammar; `offset` is the
    /// position at which decoding failed.
    MalformedEncoding { offset: usize },
    /// The top-level structure is not the four-element signed envelope.
    MalformedEnvelope,
    /// The signature field does not have the fixed width the algorithm asks.
    MalformedSignature,
    /// The raw evidence exceeds the configured size bound.
    EvidenceTooLarge,
    /// A mapping contains the same key twice; `offset` is the position of
    /// the repeated key.
    DuplicateKey { offset: usize },
    /// A required payload field is absent.
    MissingField { field: FieldId },
    /// A payload field is present but has the wrong type or value.
    InvalidField { field: FieldId },
    /// A measurement register entry has a bad index or digest length.
    InvalidPcrEntry { index: u64 },
    /// The payload names a digest algorithm outside the supported set.
    UnsupportedDigestAlgorithm,
    /// The certificate path is longer than the configured bound, or
    /// revisits a subject name.
    ChainTooLong,
    /// Adjacent path certificates do not chain by name, though the needed
    /// subject appears elsewhere in the path; `index` is the child position.
    ChainBroken { index: usize },
    /// The issuer a path certificate needs appears nowhere in the path;
    /// `index` is the child position.
    ChainIncomplete { index: usize },
    /// A non-leaf path certificate lacks the CA constraint or its path
    /// length is exceeded; `index` is its position.
    NotACertificateAuthority { index: usize },
    /// The check time lies after the certificate's validity window;
    /// `index` is its position.
    CertificateExpired { index: usize },
    /// The check time lies before the certificate's validity window;
    /// `index` is its position.
    CertificateNotYetValid { index: usize },
    /// The final path certificate is not byte-identical to the anchor.
    UntrustedRoot,
    /// A cryptographic signature check failed, for a chain link or for the
    /// envelope itself.
    SignatureInvalid,
}

} // verus!

//! The signed envelope: the four-element structure around the payload.
//!
//! The raw evidence decodes to an ordered sequence of exactly four
//! values: the protected-attribute bytes, the unprotected-attribute
//! mapping, the payload bytes and the signature bytes.  The protected
//! attributes must themselves decode to a mapping binding attribute 1 to
//! the algorithm identifier -35 — the elliptic-curve family with the
//! 384-bit digest — held in the value model as `Nint(34)`, which stands
//! for `-1 - 34`.  Before checking a signature the verifier rebuilds the exact
//! to-be-signed structure: a four-element sequence of the context text,
//! the protected bytes, an empty external-data placeholder, and the
//! payload bytes.

use vstd::prelude::*;

use crate::decode::{copy_bytes, decode};
use crate::encode::{encode, spec_encode};
use crate::value::{pairs_view, seq_view, spec_decode, spec_view, SpecFault, SpecValue, Value};
use crate::VerificationFailure;

verus! {

/// The parsed envelope: the three byte strings the verifier reads.  The
/// unprotected mapping carries no verified meaning and is not kept.
pub struct Envelope {
    /// The serialized protected attributes, signed along with the
    /// payload.
    pub protected: Vec<u8>,
    /// The serialized payload, decoded separately into the typed model.
    pub payload: Vec<u8>,
    /// The detached signature bytes.
    pub signature: Vec<u8>,
}

/// The mathematical model of an [`Envelope`].
#[verifier::ext_equal]
pub struct SpecEnvelope {
    pub protected: Seq<u8>,
    pub payload: Seq<u8>,
    pub signature: Seq<u8>,
}

impl View for Envelope {
    type V = SpecEnvelope;

    open spec fn view(&self) -> SpecEnvelope {
        SpecEnvelope { protected: self.protected@, payload: self.payload@, signature: self.signature@ }
    }
}

/// The envelope a decoded value yields: exactly four elements in fixed
/// order, with byte strings at the first, third and fourth positions and
/// a mapping at the second.
pub open spec fn spec_envelope_of(sv: SpecValue) -> Result<SpecEnvelope, VerificationFailure> {
    match sv {
        SpecValue::Array(items) => {
            if items.len() == 4 {
                match (items[0], items[1], items[2], items[3]) {
                    (
                        SpecValue::Bytes(protected),
                        SpecValue::Mapping(_),
                        SpecValue::Bytes(payload),
                        SpecValue::Bytes(signature),
                    ) => Ok(SpecEnvelope { protected, payload, signature }),
                    _ => Err(VerificationFailure::MalformedEnvelope),
                }
            } else {
                Err(VerificationFailure::MalformedEnvelope)
            }
        },
        _ => Err(VerificationFailure::MalformedEnvelope),
    }
}

/// What decoding raw evidence to an envelope yields.
pub open spec fn spec_envelope_decode(s: Seq<u8>) -> Result<SpecEnvelope, VerificationFailure> {
    match spec_decode(s) {
        Ok(sv) => spec_envelope_of(sv),
        Err(SpecFault::Malformed { at }) => Err(
            VerificationFailure::MalformedEncoding { offset: at as usize },
        ),
        Err(SpecFault::Duplicate { at }) => Err(
            VerificationFailure::DuplicateKey { offset: at as usize },
        ),
    }
}

/// The first value bound to integer attribute `k` in a mapping.
pub open spec fn spec_lookup_uint(ps: Seq<(SpecValue, SpecValue)>, k: u64) -> Option<SpecValue>
    decreases ps.len(),
{
    if ps.len() == 0 {
        None
    } else if ps[0].0 == SpecValue::Uint(k) {
        Some(ps[0].1)
    } else {
        spec_lookup_uint(ps.drop_first(), k)
    }
}

/// Whether the protected attributes name the supported algorithm: they
/// decode to a mapping binding attribute 1 to the integer -35, the
/// elliptic-curve family with the 384-bit digest.
pub open spec fn spec_protected_alg_ok(protected: Seq<u8>) -> bool {
    match spec_decode(protected) {
        Ok(SpecValue::Mapping(ps)) => spec_lookup_uint(ps, 1) == Some(SpecValue::Nint(34)),
        _ => false,
    }
}

/// The context text of the to-be-signed structure.
pub open spec fn spec_sig_context() -> Seq<u8> {
    seq![83u8, 105, 103, 110, 97, 116, 117, 114, 101, 49]
}

/// The canonical to-be-signed bytes: the context text, the protected
/// bytes, an empty external-data placeholder, and the payload bytes, as
/// one encoded four-element sequence.  This exact structure, not a raw
/// concatenation, is what the signer signed.
pub open spec fn spec_sig_structure(protected: Seq<u8>, payload: Seq<u8>) -> Seq<u8> {
    spec_encode(
        SpecValue::Array(
            seq![
                SpecValue::Text(spec_sig_context()),
                SpecValue::Bytes(protected),
                SpecValue::Bytes(Seq::empty()),
                SpecValue::Bytes(payload),
            ],
        ),
    )
}

/// Splits a decoded value into the envelope.
pub fn envelope_from_value(v: &Value) -> (r: Result<Envelope, VerificationFailure>)
    ensures
        match spec_envelope_of(spec_view(*v)) {
            Ok(se) => r is Ok && (r->Ok_0)@ == se,
            Err(e) => r == Err::<Envelope, VerificationFailure>(e),
        },
{
    match v {
        Value::Array(items) => {
            if items.len() != 4 {
                return Err(VerificationFailure::MalformedEnvelope);
            }
            proof {
                assert(spec_view(*v) == SpecValue::Array(seq_view(items@)));
                assert(seq_view(items@)[0] == spec_view(items@[0]));
                assert(seq_view(items@)[1] == spec_view(items@[1]));
                assert(seq_view(items@)[2] == spec_view(items@[2]));
                assert(seq_view(items@)[3] == spec_view(items@[3]));
            }
            let protected = match &items[0] {
                Value::Bytes(b) => copy_bytes(b),
                _ => {
                    return Err(VerificationFailure::MalformedEnvelope);
                },
            };
            match &items[1] {
                Value::Mapping(_) => {},
                _ => {
                    return Err(VerificationFailure::MalformedEnvelope);
                },
            }
            let payload = match &items[2] {
                Value::Bytes(b) => copy_bytes(b),
                _ => {
                    return Err(VerificationFailure::MalformedEnvelope);
                },
            };
            let signature = match &items[3] {
                Value::Bytes(b) => copy_bytes(b),
                _ => {
                    return Err(VerificationFailure::MalformedEnvelope);
                },
            };
            Ok(Envelope { protected, payload, signature })
        },
        _ => Err(VerificationFailure::MalformedEnvelope),
    }
}

/// Decodes raw evidence into the envelope.
pub fn envelope_decode(s: &Vec<u8>) -> (r: Result<Envelope, VerificationFailure>)
    ensures
        match spec_envelope_decode(s@) {
            Ok(se) => r is Ok && (r->Ok_0)@ == se,
            Err(e) => r == Err::<Envelope, VerificationFailure>(e),
        },
{
    match decode(s) {
        Ok(v) => envelope_from_value(&v),
        Err(e) => Err(e),
    }
}

/// Checks the protected attributes for the supported algorithm.
#[verifier::loop_isolation(false)]
pub fn protected_alg_ok(protected: &Vec<u8>) -> (r: bool)
    ensures
        r == spec_protected_alg_ok(protected@),
{
    match decode(protected) {
        Ok(v) => match &v {
            Value::Mapping(ps) => {
                for i in 0..ps.len()
                    invariant
                        spec_view(v) is Mapping,
                        pairs_view(ps@) == spec_view(v)->Mapping_0,
                        forall|j: int|
                            0 <= j < i ==> pairs_view(ps@)[j].0 != SpecValue::Uint(1),
                    decreases ps@.len() - i,
                {
                    let hit = match &ps[i].0 {
                        Value::Uint(x) => *x == 1,
                        _ => false,
                    };
                    if hit {
                        let ok = match &ps[i].1 {
                            Value::Nint(n) => *n == 34,
                            _ => false,
                        };
                        proof {
                            assert(pairs_view(ps@)[i as int] == (
                                spec_view(ps@[i as int].0),
                                spec_view(ps@[i as int].1),
                            ));
                            lemma_lookup_uint_at(pairs_view(ps@), 1, i as int);
                        }
                        return ok;
                    }
                    proof {
                        assert(pairs_view(ps@)[i as int] == (
                            spec_view(ps@[i as int].0),
                            spec_view(ps@[i as int].1),
                        ));
                    }
                }
                proof {
                    lemma_lookup_uint_none(pairs_view(ps@), 1);
                }
                false
            },
            _ => false,
        },
        Err(_) => false,
    }
}

/// A first integer-attribute match at `i` settles the lookup.
proof fn lemma_lookup_uint_at(ps: Seq<(SpecValue, SpecValue)>, k: u64, i: int)
    requires
        0 <= i < ps.len(),
        ps[i].0 == SpecValue::Uint(k),
        forall|j: int| 0 <= j < i ==> ps[j].0 != SpecValue::Uint(k),
    ensures
        spec_lookup_uint(ps, k) == Some(ps[i].1),
    decreases i,
{
    if i > 0 {
        assert forall|j: int| 0 <= j < i - 1 implies ps.drop_first()[j].0 != SpecValue::Uint(
            k,
        ) by {
            assert(ps.drop_first()[j] == ps[j + 1]);
        }
        assert(ps.drop_first()[i - 1] == ps[i]);
        lemma_lookup_uint_at(ps.drop_first(), k, i - 1);
    }
}

/// No integer-attribute match anywhere settles the lookup as absent.
proof fn lemma_lookup_uint_none(ps: Seq<(SpecValue, SpecValue)>, k: u64)
    requires
        forall|j: int| 0 <= j < ps.len() ==> ps[j].0 != SpecValue::Uint(k),
    ensures
        spec_lookup_uint(ps, k) is None,
    decreases ps.len(),
{
    if ps.len() > 0 {
        assert forall|j: int| 0 <= j < ps.drop_first().len() implies ps.drop_first()[j].0
            != SpecValue::Uint(k) by {
            assert(ps.drop_first()[j] == ps[j + 1]);
        }
        lemma_lookup_uint_none(ps.drop_first(), k);
    }
}

/// The context text as a byte vector.
fn sig_context_v() -> (r: Vec<u8>)
    ensures
        r@ == spec_sig_context(),
{
    let mut v: Vec<u8> = Vec::new();
    v.push(83);
    v.push(105);
    v.push(103);
    v.push(110);
    v.push(97);
    v.push(116);
    v.push(117);
    v.push(114);
    v.push(101);
    v.push(49);
    proof {
        assert(v@ =~= spec_sig_context());
    }
    v
}

/// Rebuilds the canonical to-be-signed bytes.
pub fn sig_structure(protected: &Vec<u8>, payload: &Vec<u8>) -> (r: Vec<u8>)
    ensures
        r@ == spec_sig_structure(protected@, payload@),
{
    let mut items: Vec<Value> = Vec::new();
    items.push(Value::Text(sig_context_v()));
    items.push(Value::Bytes(copy_bytes(protected)));
    let empty: Vec<u8> = Vec::new();
    items.push(Value::Bytes(empty));
    items.push(Value::Bytes(copy_bytes(payload)));
    let v = Value::Array(items);
    proof {
        assert(seq_view(v->Array_0@) =~= seq![
            SpecValue::Text(spec_sig_context()),
            SpecValue::Bytes(protected@),
            SpecValue::Bytes(Seq::<u8>::empty()),
            SpecValue::Bytes(payload@),
        ]);
    }
    encode(&v)
}

} // verus!

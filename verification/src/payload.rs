//! The typed attestation payload and its schema.
//!
//! A decoded value tree is mapped field by field to an
//! [`AttestationPayload`]: module identity, digest algorithm, creation
//! timestamp, measurement registers, certificates and the optional
//! caller-supplied fields.  The schema — which fields are required, their
//! types, and the failure each violation earns — is stated once in
//! [`spec_payload_of`]; the executable extraction is proved equal to it.
//! Unrecognized top-level keys are ignored for forward compatibility.

use vstd::prelude::*;

use crate::decode::{bytes_eq, copy_bytes};
use crate::value::{pairs_view, seq_view, spec_view, SpecValue, Value};
use crate::{FieldId, VerificationFailure};

verus! {

/// The digest algorithm named by the payload.
#[derive(Clone, Copy, Debug, PartialEq, Eq, Structural)]
pub enum DigestAlg {
    Sha256,
    Sha384,
    Sha512,
}

impl DigestAlg {
    /// The digest output length in bytes.
    pub open spec fn spec_out_len(self) -> int {
        match self {
            DigestAlg::Sha256 => 32,
            DigestAlg::Sha384 => 48,
            DigestAlg::Sha512 => 64,
        }
    }

    /// The digest output length in bytes.
    pub fn out_len(&self) -> (r: usize)
        ensures
            r == self.spec_out_len(),
    {
        match self {
            DigestAlg::Sha256 => 32,
            DigestAlg::Sha384 => 48,
            DigestAlg::Sha512 => 64,
        }
    }
}

/// The typed attestation payload.
#[derive(Debug, PartialEq)]
pub struct AttestationPayload {
    /// Issuing module identity; always non-empty text bytes.
    pub module_id: Vec<u8>,
    /// The algorithm whose output length every register digest must have.
    pub digest: DigestAlg,
    /// Document creation time, in milliseconds since the epoch; always
    /// positive.
    pub timestamp: u64,
    /// Measurement registers: pairs of register index (0 to 31, unique)
    /// and digest bytes of the algorithm's output length.
    pub pcrs: Vec<(u8, Vec<u8>)>,
    /// The leaf signing certificate, in distinguished encoding; non-empty.
    pub certificate: Vec<u8>,
    /// The intermediate certificate bundle, root first; may be empty.
    pub cabundle: Vec<Vec<u8>>,
    /// Caller-supplied public key, if any.
    pub public_key: Option<Vec<u8>>,
    /// Caller-supplied user data, if any.
    pub user_data: Option<Vec<u8>>,
    /// Caller-supplied nonce, if any.
    pub nonce: Option<Vec<u8>>,
}

/// The mathematical model of an [`AttestationPayload`].
#[verifier::ext_equal]
pub struct SpecPayload {
    pub module_id: Seq<u8>,
    pub digest: DigestAlg,
    pub timestamp: u64,
    pub pcrs: Seq<(u8, Seq<u8>)>,
    pub certificate: Seq<u8>,
    pub cabundle: Seq<Seq<u8>>,
    pub public_key: Option<Seq<u8>>,
    pub user_data: Option<Seq<u8>>,
    pub nonce: Option<Seq<u8>>,
}

impl View for AttestationPayload {
    type V = SpecPayload;

    open spec fn view(&self) -> SpecPayload {
        SpecPayload {
            module_id: self.module_id@,
            digest: self.digest,
            timestamp: self.timestamp,
            pcrs: Seq::new(self.pcrs@.len(), |i: int| (self.pcrs@[i].0, self.pcrs@[i].1@)),
            certificate: self.certificate@,
            cabundle: Seq::new(self.cabundle@.len(), |i: int| self.cabundle@[i]@),
            public_key: match self.public_key {
                Option::Some(ref b) => Option::Some(b@),
                Option::None => Option::None,
            },
            user_data: match self.user_data {
                Option::Some(ref b) => Option::Some(b@),
                Option::None => Option::None,
            },
            nonce: match self.nonce {
                Option::Some(ref b) => Option::Some(b@),
                Option::None => Option::None,
            },
        }
    }
}

/// The bytes of the text key `"module_id"`.
pub open spec fn key_module_id() -> Seq<u8> {
    seq![109u8, 111, 100, 117, 108, 101, 95, 105, 100]
}

/// The bytes of the text key `"digest"`.
pub open spec fn key_digest() -> Seq<u8> {
    seq![100u8, 105, 103, 101, 115, 116]
}

/// The bytes of the text key `"timestamp"`.
pub open spec fn key_timestamp() -> Seq<u8> {
    seq![116u8, 105, 109, 101, 115, 116, 97, 109, 112]
}

/// The bytes of the text key `"pcrs"`.
pub open spec fn key_pcrs() -> Seq<u8> {
    seq![112u8, 99, 114, 115]
}

/// The bytes of the text key `"certificate"`.
pub open spec fn key_certificate() -> Seq<u8> {
    seq![99u8, 101, 114, 116, 105, 102, 105, 99, 97, 116, 101]
}

/// The bytes of the text key `"cabundle"`.
pub open spec fn key_cabundle() -> Seq<u8> {
    seq![99u8, 97, 98, 117, 110, 100, 108, 101]
}

/// The bytes of the text key `"public_key"`.
pub open spec fn key_public_key() -> Seq<u8> {
    seq![112u8, 117, 98, 108, 105, 99, 95, 107, 101, 121]
}

/// The bytes of the text key `"user_data"`.
pub open spec fn key_user_data() -> Seq<u8> {
    seq![117u8, 115, 101, 114, 95, 100, 97, 116, 97]
}

/// The bytes of the text key `"nonce"`.
pub open spec fn key_nonce() -> Seq<u8> {
    seq![110u8, 111, 110, 99, 101]
}

/// The key `"module_id"` as a byte vector.
fn key_module_id_v() -> (r: Vec<u8>)
    ensures
        r@ == key_module_id(),
{
    let mut v: Vec<u8> = Vec::new();
    v.push(109);
    v.push(111);
    v.push(100);
    v.push(117);
    v.push(108);
    v.push(101);
    v.push(95);
    v.push(105);
    v.push(100);
    proof {
        assert(v@ =~= key_module_id());
    }
    v
}

/// The key `"digest"` as a byte vector.
fn key_digest_v() -> (r: Vec<u8>)
    ensures
        r@ == key_digest(),
{
    let mut v: Vec<u8> = Vec::new();
    v.push(100);
    v.push(105);
    v.push(103);
    v.push(101);
    v.push(115);
    v.push(116);
    proof {
        assert(v@ =~= key_digest());
    }
    v
}

/// The key `"timestamp"` as a byte vector.
fn key_timestamp_v() -> (r: Vec<u8>)
    ensures
        r@ == key_timestamp(),
{
    let mut v: Vec<u8> = Vec::new();
    v.push(116);
    v.push(105);
    v.push(109);
    v.push(101);
    v.push(115);
    v.push(116);
    v.push(97);
    v.push(109);
    v.push(112);
    proof {
        assert(v@ =~= key_timestamp());
    }
    v
}

/// The key `"pcrs"` as a byte vector.
fn key_pcrs_v() -> (r: Vec<u8>)
    ensures
        r@ == key_pcrs(),
{
    let mut v: Vec<u8> = Vec::new();
    v.push(112);
    v.push(99);
    v.push(114);
    v.push(115);
    proof {
        assert(v@ =~= key_pcrs());
    }
    v
}

/// The key `"certificate"` as a byte vector.
fn key_certificate_v() -> (r: Vec<u8>)
    ensures
        r@ == key_certificate(),
{
    let mut v: Vec<u8> = Vec::new();
    v.push(99);
    v.push(101);
    v.push(114);
    v.push(116);
    v.push(105);
    v.push(102);
    v.push(105);
    v.push(99);
    v.push(97);
    v.push(116);
    v.push(101);
    proof {
        assert(v@ =~= key_certificate());
    }
    v
}

/// The key `"cabundle"` as a byte vector.
fn key_cabundle_v() -> (r: Vec<u8>)
    ensures
        r@ == key_cabundle(),
{
    let mut v: Vec<u8> = Vec::new();
    v.push(99);
    v.push(97);
    v.push(98);
    v.push(117);
    v.push(110);
    v.push(100);
    v.push(108);
    v.push(101);
    proof {
        assert(v@ =~= key_cabundle());
    }
    v
}

/// The key `"public_key"` as a byte vector.
fn key_public_key_v() -> (r: Vec<u8>)
    ensures
        r@ == key_public_key(),
{
    let mut v: Vec<u8> = Vec::new();
    v.push(112);
    v.push(117);
    v.push(98);
    v.push(108);
    v.push(105);
    v.push(99);
    v.push(95);
    v.push(107);
    v.push(101);
    v.push(121);
    proof {
        assert(v@ =~= key_public_key());
    }
    v
}

/// The key `"user_data"` as a byte vector.
fn key_user_data_v() -> (r: Vec<u8>)
    ensures
        r@ == key_user_data(),
{
    let mut v: Vec<u8> = Vec::new();
    v.push(117);
    v.push(115);
    v.push(101);
    v.push(114);
    v.push(95);
    v.push(100);
    v.push(97);
    v.push(116);
    v.push(97);
    proof {
        assert(v@ =~= key_user_data());
    }
    v
}

/// The key `"nonce"` as a byte vector.
fn key_nonce_v() -> (r: Vec<u8>)
    ensures
        r@ == key_nonce(),
{
    let mut v: Vec<u8> = Vec::new();
    v.push(110);
    v.push(111);
    v.push(110);
    v.push(99);
    v.push(101);
    proof {
        assert(v@ =~= key_nonce());
    }
    v
}

/// The bytes of the algorithm name with 256-bit output.
pub open spec fn name_sha256() -> Seq<u8> {
    seq![83u8, 72, 65, 50, 53, 54]
}

/// The bytes of the algorithm name with 384-bit output.
pub open spec fn name_sha384() -> Seq<u8> {
    seq![83u8, 72, 65, 51, 56, 52]
}

/// The bytes of the algorithm name with 512-bit output.
pub open spec fn name_sha512() -> Seq<u8> {
    seq![83u8, 72, 65, 53, 49, 50]
}

/// The name of the 256-bit algorithm as a byte vector.
fn name_sha256_v() -> (r: Vec<u8>)
    ensures
        r@ == name_sha256(),
{
    let mut v: Vec<u8> = Vec::new();
    v.push(83);
    v.push(72);
    v.push(65);
    v.push(50);
    v.push(53);
    v.push(54);
    proof {
        assert(v@ =~= name_sha256());
    }
    v
}

/// The name of the 384-bit algorithm as a byte vector.
fn name_sha384_v() -> (r: Vec<u8>)
    ensures
        r@ == name_sha384(),
{
    let mut v: Vec<u8> = Vec::new();
    v.push(83);
    v.push(72);
    v.push(65);
    v.push(51);
    v.push(56);
    v.push(52);
    proof {
        assert(v@ =~= name_sha384());
    }
    v
}

/// The name of the 512-bit algorithm as a byte vector.
fn name_sha512_v() -> (r: Vec<u8>)
    ensures
        r@ == name_sha512(),
{
    let mut v: Vec<u8> = Vec::new();
    v.push(83);
    v.push(72);
    v.push(65);
    v.push(53);
    v.push(49);
    v.push(50);
    proof {
        assert(v@ =~= name_sha512());
    }
    v
}

/// The first value bound to the text key `key`, if any.
pub open spec fn spec_lookup(ps: Seq<(SpecValue, SpecValue)>, key: Seq<u8>) -> Option<SpecValue>
    decreases ps.len(),
{
    if ps.len() == 0 {
        None
    } else if ps[0].0 == SpecValue::Text(key) {
        Some(ps[0].1)
    } else {
        spec_lookup(ps.drop_first(), key)
    }
}

/// A first match at `i` settles the lookup.
proof fn lemma_lookup_at(ps: Seq<(SpecValue, SpecValue)>, key: Seq<u8>, i: int)
    requires
        0 <= i < ps.len(),
        ps[i].0 == SpecValue::Text(key),
        forall|j: int| 0 <= j < i ==> ps[j].0 != SpecValue::Text(key),
    ensures
        spec_lookup(ps, key) == Some(ps[i].1),
    decreases i,
{
    if i > 0 {
        assert forall|j: int| 0 <= j < i - 1 implies ps.drop_first()[j].0 != SpecValue::Text(
            key,
        ) by {
            assert(ps.drop_first()[j] == ps[j + 1]);
        }
        assert(ps.drop_first()[i - 1] == ps[i]);
        lemma_lookup_at(ps.drop_first(), key, i - 1);
    }
}

/// No match anywhere settles the lookup as absent.
proof fn lemma_lookup_none(ps: Seq<(SpecValue, SpecValue)>, key: Seq<u8>)
    requires
        forall|j: int| 0 <= j < ps.len() ==> ps[j].0 != SpecValue::Text(key),
    ensures
        spec_lookup(ps, key) is None,
    decreases ps.len(),
{
    if ps.len() > 0 {
        assert forall|j: int| 0 <= j < ps.drop_first().len() implies ps.drop_first()[j].0
            != SpecValue::Text(key) by {
            assert(ps.drop_first()[j] == ps[j + 1]);
        }
        lemma_lookup_none(ps.drop_first(), key);
    }
}

/// Whether `v` is the text value holding exactly `key`.
fn is_text_key(v: &Value, key: &Vec<u8>) -> (r: bool)
    ensures
        r == (spec_view(*v) == SpecValue::Text(key@)),
{
    match v {
        Value::Text(t) => bytes_eq(t, key),
        _ => false,
    }
}

/// Looks `key` up among the entries of a decoded mapping.
fn lookup<'a>(ps: &'a Vec<(Value, Value)>, key: &Vec<u8>) -> (r: Option<&'a Value>)
    ensures
        match r {
            Some(v) => spec_lookup(pairs_view(ps@), key@) == Some(spec_view(*v)),
            None => spec_lookup(pairs_view(ps@), key@) is None,
        },
{
    for i in 0..ps.len()
        invariant
            i <= ps@.len(),
            forall|j: int| 0 <= j < i ==> pairs_view(ps@)[j].0 != SpecValue::Text(key@),
        decreases ps@.len() - i,
    {
        if is_text_key(&ps[i].0, key) {
            proof {
                lemma_lookup_at(pairs_view(ps@), key@, i as int);
            }
            return Some(&ps[i].1);
        }
    }
    proof {
        lemma_lookup_none(pairs_view(ps@), key@);
    }
    None
}


/// The module identity field: required, text, non-empty.
pub open spec fn spec_field_module_id(ps: Seq<(SpecValue, SpecValue)>) -> Result<
    Seq<u8>,
    VerificationFailure,
> {
    match spec_lookup(ps, key_module_id()) {
        Some(SpecValue::Text(t)) => if t.len() > 0 {
            Ok(t)
        } else {
            Err(VerificationFailure::MissingField { field: FieldId::ModuleId })
        },
        _ => Err(VerificationFailure::MissingField { field: FieldId::ModuleId }),
    }
}

/// The digest field: required, one of the supported algorithm names.
pub open spec fn spec_field_digest(ps: Seq<(SpecValue, SpecValue)>) -> Result<
    DigestAlg,
    VerificationFailure,
> {
    match spec_lookup(ps, key_digest()) {
        Some(SpecValue::Text(t)) => if t == name_sha256() {
            Ok(DigestAlg::Sha256)
        } else if t == name_sha384() {
            Ok(DigestAlg::Sha384)
        } else if t == name_sha512() {
            Ok(DigestAlg::Sha512)
        } else {
            Err(VerificationFailure::UnsupportedDigestAlgorithm)
        },
        _ => Err(VerificationFailure::UnsupportedDigestAlgorithm),
    }
}

/// The timestamp field: required, a positive integer of milliseconds.
pub open spec fn spec_field_timestamp(ps: Seq<(SpecValue, SpecValue)>) -> Result<
    u64,
    VerificationFailure,
> {
    match spec_lookup(ps, key_timestamp()) {
        Some(SpecValue::Uint(n)) => if n > 0 {
            Ok(n)
        } else {
            Err(VerificationFailure::InvalidField { field: FieldId::Timestamp })
        },
        _ => Err(VerificationFailure::InvalidField { field: FieldId::Timestamp }),
    }
}

/// The register entries from position `i` on: integer indices up to 31
/// with digest bytes of length `dl`.
pub open spec fn spec_pcrs_from(
    entries: Seq<(SpecValue, SpecValue)>,
    i: int,
    dl: int,
) -> Result<Seq<(u8, Seq<u8>)>, VerificationFailure>
    decreases entries.len() - i,
{
    if i < 0 || i >= entries.len() {
        Ok(Seq::empty())
    } else {
        match entries[i].0 {
            SpecValue::Uint(idx) => if idx > 31 {
                Err(VerificationFailure::InvalidPcrEntry { index: idx })
            } else {
                match entries[i].1 {
                    SpecValue::Bytes(b) => if b.len() == dl {
                        match spec_pcrs_from(entries, i + 1, dl) {
                            Ok(rest) => Ok(seq![(idx as u8, b)] + rest),
                            Err(e) => Err(e),
                        }
                    } else {
                        Err(VerificationFailure::InvalidPcrEntry { index: idx })
                    },
                    _ => Err(VerificationFailure::InvalidPcrEntry { index: idx }),
                }
            },
            _ => Err(VerificationFailure::InvalidPcrEntry { index: i as u64 }),
        }
    }
}

/// The register mapping: required; each entry validated against `dl`.
pub open spec fn spec_field_pcrs(ps: Seq<(SpecValue, SpecValue)>, dl: int) -> Result<
    Seq<(u8, Seq<u8>)>,
    VerificationFailure,
> {
    match spec_lookup(ps, key_pcrs()) {
        Some(SpecValue::Mapping(entries)) => spec_pcrs_from(entries, 0, dl),
        Some(_) => Err(VerificationFailure::InvalidField { field: FieldId::Pcrs }),
        None => Err(VerificationFailure::MissingField { field: FieldId::Pcrs }),
    }
}

/// The leaf certificate field: required, byte string, non-empty.
pub open spec fn spec_field_certificate(ps: Seq<(SpecValue, SpecValue)>) -> Result<
    Seq<u8>,
    VerificationFailure,
> {
    match spec_lookup(ps, key_certificate()) {
        Some(SpecValue::Bytes(b)) => if b.len() > 0 {
            Ok(b)
        } else {
            Err(VerificationFailure::InvalidField { field: FieldId::Certificate })
        },
        Some(_) => Err(VerificationFailure::InvalidField { field: FieldId::Certificate }),
        None => Err(VerificationFailure::MissingField { field: FieldId::Certificate }),
    }
}

/// The bundle items from position `i` on: each a byte string.
pub open spec fn spec_bundle_from(items: Seq<SpecValue>, i: int) -> Result<
    Seq<Seq<u8>>,
    VerificationFailure,
>
    decreases items.len() - i,
{
    if i < 0 || i >= items.len() {
        Ok(Seq::empty())
    } else {
        match items[i] {
            SpecValue::Bytes(b) => match spec_bundle_from(items, i + 1) {
                Ok(rest) => Ok(seq![b] + rest),
                Err(e) => Err(e),
            },
            _ => Err(VerificationFailure::InvalidField { field: FieldId::CaBundle }),
        }
    }
}

/// The certificate bundle field: required, a sequence of byte strings,
/// possibly empty.
pub open spec fn spec_field_cabundle(ps: Seq<(SpecValue, SpecValue)>) -> Result<
    Seq<Seq<u8>>,
    VerificationFailure,
> {
    match spec_lookup(ps, key_cabundle()) {
        Some(SpecValue::Array(items)) => spec_bundle_from(items, 0),
        Some(_) => Err(VerificationFailure::InvalidField { field: FieldId::CaBundle }),
        None => Err(VerificationFailure::MissingField { field: FieldId::CaBundle }),
    }
}

/// An optional byte-string field: absent and null both mean `None`.
pub open spec fn spec_field_opt(
    ps: Seq<(SpecValue, SpecValue)>,
    key: Seq<u8>,
    f: FieldId,
) -> Result<Option<Seq<u8>>, VerificationFailure> {
    match spec_lookup(ps, key) {
        None => Ok(None),
        Some(SpecValue::Null) => Ok(None),
        Some(SpecValue::Bytes(b)) => Ok(Some(b)),
        Some(_) => Err(VerificationFailure::InvalidField { field: f }),
    }
}

/// The whole schema: what payload a decoded value yields, or the first
/// failure in field order.
pub open spec fn spec_payload_of(sv: SpecValue) -> Result<SpecPayload, VerificationFailure> {
    match sv {
        SpecValue::Mapping(ps) => match spec_field_module_id(ps) {
            Err(e) => Err(e),
            Ok(module_id) => match spec_field_digest(ps) {
                Err(e) => Err(e),
                Ok(digest) => match spec_field_timestamp(ps) {
                    Err(e) => Err(e),
                    Ok(timestamp) => match spec_field_pcrs(ps, digest.spec_out_len()) {
                        Err(e) => Err(e),
                        Ok(pcrs) => match spec_field_certificate(ps) {
                            Err(e) => Err(e),
                            Ok(certificate) => match spec_field_cabundle(ps) {
                                Err(e) => Err(e),
                                Ok(cabundle) => match spec_field_opt(
                                    ps,
                                    key_public_key(),
                                    FieldId::PublicKey,
                                ) {
                                    Err(e) => Err(e),
                                    Ok(public_key) => match spec_field_opt(
                                        ps,
                                        key_user_data(),
                                        FieldId::UserData,
                                    ) {
                                        Err(e) => Err(e),
                                        Ok(user_data) => match spec_field_opt(
                                            ps,
                                            key_nonce(),
                                            FieldId::Nonce,
                                        ) {
                                            Err(e) => Err(e),
                                            Ok(nonce) => Ok(
                                                SpecPayload {
                                                    module_id,
                                                    digest,
                                                    timestamp,
                                                    pcrs,
                                                    certificate,
                                                    cabundle,
                                                    public_key,
                                                    user_data,
                                                    nonce,
                                                },
                                            ),
                                        },
                                    },
                                },
                            },
                        },
                    },
                },
            },
        },
        _ => Err(VerificationFailure::InvalidField { field: FieldId::Document }),
    }
}

/// Extracts the register entries from position `i` on.
fn pcrs_from(entries: &Vec<(Value, Value)>, i: usize, dl: usize) -> (r: Result<
    Vec<(u8, Vec<u8>)>,
    VerificationFailure,
>)
    requires
        i <= entries@.len(),
    ensures
        match spec_pcrs_from(pairs_view(entries@), i as int, dl as int) {
            Ok(sp) => r is Ok && Seq::new(
                (r->Ok_0)@.len(),
                |j: int| ((r->Ok_0)@[j].0, (r->Ok_0)@[j].1@),
            ) == sp,
            Err(e) => r == Err::<Vec<(u8, Vec<u8>)>, VerificationFailure>(e),
        },
    decreases entries@.len() - i,
{
    if i >= entries.len() {
        let out: Vec<(u8, Vec<u8>)> = Vec::new();
        proof {
            assert(Seq::new(out@.len(), |j: int| (out@[j].0, out@[j].1@)) =~= Seq::<
                (u8, Seq<u8>),
            >::empty());
        }
        return Ok(out);
    }
    match &entries[i].0 {
        Value::Uint(idx) => {
            let idx = *idx;
            if idx > 31 {
                return Err(VerificationFailure::InvalidPcrEntry { index: idx });
            }
            match &entries[i].1 {
                Value::Bytes(b) => {
                    if b.len() == dl {
                        match pcrs_from(entries, i + 1, dl) {
                            Ok(rest) => {
                                let mut out = rest;
                                out.insert(0, (idx as u8, copy_bytes(b)));
                                proof {
                                    let sp = match spec_pcrs_from(
                                        pairs_view(entries@),
                                        i + 1,
                                        dl as int,
                                    ) {
                                        Ok(sp) => sp,
                                        Err(_) => Seq::empty(),
                                    };
                                    assert(Seq::new(
                                        out@.len(),
                                        |j: int| (out@[j].0, out@[j].1@),
                                    ) =~= seq![(idx as u8, b@)] + sp);
                                }
                                Ok(out)
                            },
                            Err(e) => Err(e),
                        }
                    } else {
                        Err(VerificationFailure::InvalidPcrEntry { index: idx })
                    }
                },
                _ => Err(VerificationFailure::InvalidPcrEntry { index: idx }),
            }
        },
        _ => Err(VerificationFailure::InvalidPcrEntry { index: i as u64 }),
    }
}

/// Extracts the bundle items from position `i` on.
fn bundle_from(items: &Vec<Value>, i: usize) -> (r: Result<Vec<Vec<u8>>, VerificationFailure>)
    requires
        i <= items@.len(),
    ensures
        match spec_bundle_from(seq_view(items@), i as int) {
            Ok(sb) => r is Ok && Seq::new((r->Ok_0)@.len(), |j: int| (r->Ok_0)@[j]@) == sb,
            Err(e) => r == Err::<Vec<Vec<u8>>, VerificationFailure>(e),
        },
    decreases items@.len() - i,
{
    if i >= items.len() {
        let out: Vec<Vec<u8>> = Vec::new();
        proof {
            assert(Seq::new(out@.len(), |j: int| out@[j]@) =~= Seq::<Seq<u8>>::empty());
        }
        return Ok(out);
    }
    match &items[i] {
        Value::Bytes(b) => {
            match bundle_from(items, i + 1) {
                Ok(rest) => {
                    let mut out = rest;
                    out.insert(0, copy_bytes(b));
                    proof {
                        let sb = match spec_bundle_from(seq_view(items@), i + 1) {
                            Ok(sb) => sb,
                            Err(_) => Seq::empty(),
                        };
                        assert(Seq::new(out@.len(), |j: int| out@[j]@) =~= seq![b@] + sb);
                    }
                    Ok(out)
                },
                Err(e) => Err(e),
            }
        },
        _ => Err(VerificationFailure::InvalidField { field: FieldId::CaBundle }),
    }
}

/// Extracts an optional byte-string field.
fn field_opt(ps: &Vec<(Value, Value)>, key: &Vec<u8>, f: FieldId) -> (r: Result<
    Option<Vec<u8>>,
    VerificationFailure,
>)
    ensures
        match spec_field_opt(pairs_view(ps@), key@, f) {
            Ok(None) => r == Ok::<Option<Vec<u8>>, VerificationFailure>(None),
            Ok(Some(b)) => r is Ok && (r->Ok_0) is Some && ((r->Ok_0)->0)@ == b,
            Err(e) => r == Err::<Option<Vec<u8>>, VerificationFailure>(e),
        },
{
    match lookup(ps, key) {
        None => Ok(None),
        Some(v) => match v {
            Value::Null => Ok(None),
            Value::Bytes(b) => Ok(Some(copy_bytes(b))),
            _ => Err(VerificationFailure::InvalidField { field: f }),
        },
    }
}

/// Maps a decoded value tree to the typed payload, validating the schema
/// field by field in a fixed order and failing on the first violation.
pub fn payload_from_value(v: &Value) -> (r: Result<AttestationPayload, VerificationFailure>)
    ensures
        match spec_payload_of(spec_view(*v)) {
            Ok(sp) => r is Ok && (r->Ok_0)@ == sp,
            Err(e) => r == Err::<AttestationPayload, VerificationFailure>(e),
        },
{
    let ps = match v {
        Value::Mapping(ps) => ps,
        _ => {
            return Err(VerificationFailure::InvalidField { field: FieldId::Document });
        },
    };
    let module_id: Vec<u8> = match lookup(ps, &key_module_id_v()) {
        Some(val) => match val {
            Value::Text(t) => {
                if t.len() == 0 {
                    return Err(VerificationFailure::MissingField { field: FieldId::ModuleId });
                }
                copy_bytes(t)
            },
            _ => {
                return Err(VerificationFailure::MissingField { field: FieldId::ModuleId });
            },
        },
        None => {
            return Err(VerificationFailure::MissingField { field: FieldId::ModuleId });
        },
    };
    let digest: DigestAlg = match lookup(ps, &key_digest_v()) {
        Some(val) => match val {
            Value::Text(t) => {
                if bytes_eq(t, &name_sha256_v()) {
                    DigestAlg::Sha256
                } else if bytes_eq(t, &name_sha384_v()) {
                    DigestAlg::Sha384
                } else if bytes_eq(t, &name_sha512_v()) {
                    DigestAlg::Sha512
                } else {
                    return Err(VerificationFailure::UnsupportedDigestAlgorithm);
                }
            },
            _ => {
                return Err(VerificationFailure::UnsupportedDigestAlgorithm);
            },
        },
        None => {
            return Err(VerificationFailure::UnsupportedDigestAlgorithm);
        },
    };
    let timestamp: u64 = match lookup(ps, &key_timestamp_v()) {
        Some(val) => match val {
            Value::Uint(n) => {
                if *n == 0 {
                    return Err(VerificationFailure::InvalidField { field: FieldId::Timestamp });
                }
                *n
            },
            _ => {
                return Err(VerificationFailure::InvalidField { field: FieldId::Timestamp });
            },
        },
        None => {
            return Err(VerificationFailure::InvalidField { field: FieldId::Timestamp });
        },
    };
    let pcrs: Vec<(u8, Vec<u8>)> = match lookup(ps, &key_pcrs_v()) {
        Some(val) => match val {
            Value::Mapping(entries) => match pcrs_from(entries, 0, digest.out_len()) {
                Ok(pcrs) => pcrs,
                Err(e) => {
                    return Err(e);
                },
            },
            _ => {
                return Err(VerificationFailure::InvalidField { field: FieldId::Pcrs });
            },
        },
        None => {
            return Err(VerificationFailure::MissingField { field: FieldId::Pcrs });
        },
    };
    let certificate: Vec<u8> = match lookup(ps, &key_certificate_v()) {
        Some(val) => match val {
            Value::Bytes(b) => {
                if b.len() == 0 {
                    return Err(VerificationFailure::InvalidField { field: FieldId::Certificate });
                }
                copy_bytes(b)
            },
            _ => {
                return Err(VerificationFailure::InvalidField { field: FieldId::Certificate });
            },
        },
        None => {
            return Err(VerificationFailure::MissingField { field: FieldId::Certificate });
        },
    };
    let cabundle: Vec<Vec<u8>> = match lookup(ps, &key_cabundle_v()) {
        Some(val) => match val {
            Value::Array(items) => match bundle_from(items, 0) {
                Ok(cabundle) => cabundle,
                Err(e) => {
                    return Err(e);
                },
            },
            _ => {
                return Err(VerificationFailure::InvalidField { field: FieldId::CaBundle });
            },
        },
        None => {
            return Err(VerificationFailure::MissingField { field: FieldId::CaBundle });
        },
    };
    let public_key: Option<Vec<u8>> = match field_opt(ps, &key_public_key_v(), FieldId::PublicKey) {
        Ok(o) => o,
        Err(e) => {
            return Err(e);
        },
    };
    let user_data: Option<Vec<u8>> = match field_opt(ps, &key_user_data_v(), FieldId::UserData) {
        Ok(o) => o,
        Err(e) => {
            return Err(e);
        },
    };
    let nonce: Option<Vec<u8>> = match field_opt(ps, &key_nonce_v(), FieldId::Nonce) {
        Ok(o) => o,
        Err(e) => {
            return Err(e);
        },
    };
    Ok(
        AttestationPayload {
            module_id,
            digest,
            timestamp,
            pcrs,
            certificate,
            cabundle,
            public_key,
            user_data,
            nonce,
        },
    )
}

/// The value an optional byte-string field takes: null when absent.
pub open spec fn spec_opt_value(o: Option<Seq<u8>>) -> SpecValue {
    match o {
        Option::None => SpecValue::Null,
        Option::Some(b) => SpecValue::Bytes(b),
    }
}

/// The text name of a digest algorithm.
pub open spec fn spec_digest_name(d: DigestAlg) -> Seq<u8> {
    match d {
        DigestAlg::Sha256 => name_sha256(),
        DigestAlg::Sha384 => name_sha384(),
        DigestAlg::Sha512 => name_sha512(),
    }
}

/// The value tree a payload serializes to: one mapping holding the nine
/// fields in a fixed canonical order.
pub open spec fn spec_payload_value(sp: SpecPayload) -> SpecValue {
    SpecValue::Mapping(
        seq![
            (SpecValue::Text(key_module_id()), SpecValue::Text(sp.module_id)),
            (SpecValue::Text(key_digest()), SpecValue::Text(spec_digest_name(sp.digest))),
            (SpecValue::Text(key_timestamp()), SpecValue::Uint(sp.timestamp)),
            (
                SpecValue::Text(key_pcrs()),
                SpecValue::Mapping(
                    Seq::new(
                        sp.pcrs.len(),
                        |i: int| (SpecValue::Uint(sp.pcrs[i].0 as u64), SpecValue::Bytes(sp.pcrs[i].1)),
                    ),
                ),
            ),
            (SpecValue::Text(key_certificate()), SpecValue::Bytes(sp.certificate)),
            (
                SpecValue::Text(key_cabundle()),
                SpecValue::Array(Seq::new(sp.cabundle.len(), |i: int| SpecValue::Bytes(sp.cabundle[i]))),
            ),
            (SpecValue::Text(key_public_key()), spec_opt_value(sp.public_key)),
            (SpecValue::Text(key_user_data()), spec_opt_value(sp.user_data)),
            (SpecValue::Text(key_nonce()), spec_opt_value(sp.nonce)),
        ],
    )
}

/// Builds the optional-field value.
fn opt_value(o: &Option<Vec<u8>>) -> (r: Value)
    ensures
        spec_view(r) == spec_opt_value(
            match o {
                Option::Some(ref b) => Option::Some(b@),
                Option::None => Option::None,
            },
        ),
{
    match o {
        Option::None => Value::Null,
        Option::Some(b) => Value::Bytes(copy_bytes(b)),
    }
}

/// Serializes a payload to its value tree, fields in canonical order.
pub fn payload_to_value(p: &AttestationPayload) -> (r: Value)
    ensures
        spec_view(r) == spec_payload_value(p@),
{
    let mut entries: Vec<(Value, Value)> = Vec::new();
    entries.push((Value::Text(key_module_id_v()), Value::Text(copy_bytes(&p.module_id))));
    let dname: Vec<u8> = match p.digest {
        DigestAlg::Sha256 => name_sha256_v(),
        DigestAlg::Sha384 => name_sha384_v(),
        DigestAlg::Sha512 => name_sha512_v(),
    };
    entries.push((Value::Text(key_digest_v()), Value::Text(dname)));
    entries.push((Value::Text(key_timestamp_v()), Value::Uint(p.timestamp)));
    let mut regs: Vec<(Value, Value)> = Vec::new();
    for i in 0..p.pcrs.len()
        invariant
            regs@.len() == i,
            forall|j: int|
                0 <= j < i ==> spec_view(#[trigger] regs@[j].0) == SpecValue::Uint(
                    p.pcrs@[j].0 as u64,
                ) && spec_view(regs@[j].1) == SpecValue::Bytes(p.pcrs@[j].1@),
        decreases p.pcrs@.len() - i,
    {
        regs.push((Value::Uint(p.pcrs[i].0 as u64), Value::Bytes(copy_bytes(&p.pcrs[i].1))));
    }
    proof {
        assert(pairs_view(regs@) =~= Seq::new(
            p@.pcrs.len(),
            |i: int| (SpecValue::Uint(p@.pcrs[i].0 as u64), SpecValue::Bytes(p@.pcrs[i].1)),
        ));
    }
    entries.push((Value::Text(key_pcrs_v()), Value::Mapping(regs)));
    entries.push((Value::Text(key_certificate_v()), Value::Bytes(copy_bytes(&p.certificate))));
    let mut bundle: Vec<Value> = Vec::new();
    for i in 0..p.cabundle.len()
        invariant
            bundle@.len() == i,
            forall|j: int|
                0 <= j < i ==> spec_view(#[trigger] bundle@[j]) == SpecValue::Bytes(
                    p.cabundle@[j]@,
                ),
        decreases p.cabundle@.len() - i,
    {
        bundle.push(Value::Bytes(copy_bytes(&p.cabundle[i])));
    }
    proof {
        assert(seq_view(bundle@) =~= Seq::new(
            p@.cabundle.len(),
            |i: int| SpecValue::Bytes(p@.cabundle[i]),
        ));
    }
    entries.push((Value::Text(key_cabundle_v()), Value::Array(bundle)));
    entries.push((Value::Text(key_public_key_v()), opt_value(&p.public_key)));
    entries.push((Value::Text(key_user_data_v()), opt_value(&p.user_data)));
    entries.push((Value::Text(key_nonce_v()), opt_value(&p.nonce)));
    let r = Value::Mapping(entries);
    proof {
        assert(pairs_view(entries@) =~= spec_payload_value(p@)->Mapping_0);
    }
    r
}

/// A payload the engine can carry through a full encode-decode round
/// trip: the schema's own invariants, plus machine length bounds.
pub open spec fn spec_payload_wf(sp: SpecPayload) -> bool {
    &&& 0 < sp.module_id.len() <= u64::MAX
    &&& sp.timestamp > 0
    &&& sp.pcrs.len() <= u64::MAX
    &&& forall|i: int|
        0 <= i < sp.pcrs.len() ==> (#[trigger] sp.pcrs[i]).0 <= 31 && sp.pcrs[i].1.len()
            == sp.digest.spec_out_len()
    &&& forall|i: int, j: int| 0 <= i < j < sp.pcrs.len() ==> sp.pcrs[i].0 != sp.pcrs[j].0
    &&& 0 < sp.certificate.len() <= u64::MAX
    &&& sp.cabundle.len() <= u64::MAX
    &&& forall|i: int| 0 <= i < sp.cabundle.len() ==> (#[trigger] sp.cabundle[i]).len() <= u64::MAX
    &&& match sp.public_key {
        Option::Some(b) => b.len() <= u64::MAX,
        Option::None => true,
    }
    &&& match sp.user_data {
        Option::Some(b) => b.len() <= u64::MAX,
        Option::None => true,
    }
    &&& match sp.nonce {
        Option::Some(b) => b.len() <= u64::MAX,
        Option::None => true,
    }
}

/// The nine field keys, pairwise distinct.
proof fn lemma_keys_distinct()
    ensures
        forall|i: int, j: int|
            0 <= i < j < spec_payload_keys().len() ==> spec_payload_keys()[i]
                != spec_payload_keys()[j],
{
    let ks = spec_payload_keys();
    assert(ks[0] == key_module_id());
    assert(ks[1] == key_digest());
    assert(ks[2] == key_timestamp());
    assert(ks[3] == key_pcrs());
    assert(ks[4] == key_certificate());
    assert(ks[5] == key_cabundle());
    assert(ks[6] == key_public_key());
    assert(ks[7] == key_user_data());
    assert(ks[8] == key_nonce());
    assert(key_module_id().len() == 9);
    assert(key_digest().len() == 6);
    assert(key_timestamp().len() == 9);
    assert(key_pcrs().len() == 4);
    assert(key_certificate().len() == 11);
    assert(key_cabundle().len() == 8);
    assert(key_public_key().len() == 10);
    assert(key_user_data().len() == 9);
    assert(key_nonce().len() == 5);
    assert(key_module_id()[0] == 109u8);
    assert(key_timestamp()[0] == 116u8);
    assert(key_user_data()[0] == 117u8);
}

/// The nine field keys in canonical order.
pub open spec fn spec_payload_keys() -> Seq<Seq<u8>> {
    seq![
        key_module_id(),
        key_digest(),
        key_timestamp(),
        key_pcrs(),
        key_certificate(),
        key_cabundle(),
        key_public_key(),
        key_user_data(),
        key_nonce(),
    ]
}

/// A well-formed payload serializes to a well-formed value: lengths fit
/// and no mapping repeats a key.
pub proof fn lemma_payload_value_wf(sp: SpecPayload)
    requires
        spec_payload_wf(sp),
    ensures
        crate::encode::spec_wf(spec_payload_value(sp)),
{
    let v = spec_payload_value(sp);
    let ps = v->Mapping_0;
    lemma_keys_distinct();
    let regs = Seq::new(
        sp.pcrs.len(),
        |i: int| (SpecValue::Uint(sp.pcrs[i].0 as u64), SpecValue::Bytes(sp.pcrs[i].1)),
    );
    assert(crate::encode::spec_wf_entries(regs)) by {
        assert forall|i: int| 0 <= i < regs.len() implies crate::encode::spec_wf(
            #[trigger] regs[i].0,
        ) && crate::encode::spec_wf(regs[i].1) by {
            assert(sp.pcrs[i].1.len() == sp.digest.spec_out_len());
        }
    }
    assert forall|i: int, j: int| 0 <= i < j < regs.len() implies regs[i].0 != regs[j].0 by {
        assert(sp.pcrs[i].0 != sp.pcrs[j].0);
    }
    assert(crate::encode::spec_wf(SpecValue::Mapping(regs)));
    let bundle = Seq::new(sp.cabundle.len(), |i: int| SpecValue::Bytes(sp.cabundle[i]));
    assert(crate::encode::spec_wf_items(bundle)) by {
        assert forall|i: int| 0 <= i < bundle.len() implies crate::encode::spec_wf(
            #[trigger] bundle[i],
        ) by {
            assert(sp.cabundle[i].len() <= u64::MAX);
        }
    }
    assert(crate::encode::spec_wf(SpecValue::Array(bundle)));
    assert(crate::encode::spec_wf(SpecValue::Text(spec_digest_name(sp.digest)))) by {
        match sp.digest {
            DigestAlg::Sha256 => assert(name_sha256().len() == 6),
            DigestAlg::Sha384 => assert(name_sha384().len() == 6),
            DigestAlg::Sha512 => assert(name_sha512().len() == 6),
        }
    }
    assert(crate::encode::spec_wf(spec_opt_value(sp.public_key)));
    assert(crate::encode::spec_wf(spec_opt_value(sp.user_data)));
    assert(crate::encode::spec_wf(spec_opt_value(sp.nonce)));
    assert(crate::encode::spec_wf_entries(ps)) by {
        assert forall|i: int| 0 <= i < ps.len() implies crate::encode::spec_wf(
            #[trigger] ps[i].0,
        ) && crate::encode::spec_wf(ps[i].1) by {
            assert(ps[i].0 == SpecValue::Text(spec_payload_keys()[i]));
        }
    }
    assert forall|i: int, j: int| 0 <= i < j < ps.len() implies ps[i].0 != ps[j].0 by {
        assert(ps[i].0 == SpecValue::Text(spec_payload_keys()[i]));
        assert(ps[j].0 == SpecValue::Text(spec_payload_keys()[j]));
        assert(spec_payload_keys()[i] != spec_payload_keys()[j]);
    }
}

/// Reading back the serialized register mapping gives the registers.
proof fn lemma_pcrs_of_value(sp: SpecPayload, i: int)
    requires
        spec_payload_wf(sp),
        0 <= i <= sp.pcrs.len(),
    ensures
        spec_pcrs_from(
            Seq::new(
                sp.pcrs.len(),
                |k: int| (SpecValue::Uint(sp.pcrs[k].0 as u64), SpecValue::Bytes(sp.pcrs[k].1)),
            ),
            i,
            sp.digest.spec_out_len(),
        ) == Ok::<Seq<(u8, Seq<u8>)>, VerificationFailure>(sp.pcrs.skip(i)),
    decreases sp.pcrs.len() - i,
{
    let regs = Seq::new(
        sp.pcrs.len(),
        |k: int| (SpecValue::Uint(sp.pcrs[k].0 as u64), SpecValue::Bytes(sp.pcrs[k].1)),
    );
    if i == sp.pcrs.len() {
        assert(sp.pcrs.skip(i) =~= Seq::<(u8, Seq<u8>)>::empty());
    } else {
        assert(sp.pcrs[i].0 <= 31);
        assert(sp.pcrs[i].1.len() == sp.digest.spec_out_len());
        lemma_pcrs_of_value(sp, i + 1);
        assert(((sp.pcrs[i].0 as u64) as u8) == sp.pcrs[i].0);
        assert(seq![(sp.pcrs[i].0, sp.pcrs[i].1)] + sp.pcrs.skip(i + 1) =~= sp.pcrs.skip(i));
    }
}

/// Reading back the serialized bundle gives the bundle.
proof fn lemma_bundle_of_value(sp: SpecPayload, i: int)
    requires
        spec_payload_wf(sp),
        0 <= i <= sp.cabundle.len(),
    ensures
        spec_bundle_from(
            Seq::new(sp.cabundle.len(), |k: int| SpecValue::Bytes(sp.cabundle[k])),
            i,
        ) == Ok::<Seq<Seq<u8>>, VerificationFailure>(sp.cabundle.skip(i)),
    decreases sp.cabundle.len() - i,
{
    if i == sp.cabundle.len() {
        assert(sp.cabundle.skip(i) =~= Seq::<Seq<u8>>::empty());
    } else {
        lemma_bundle_of_value(sp, i + 1);
        assert(seq![sp.cabundle[i]] + sp.cabundle.skip(i + 1) =~= sp.cabundle.skip(i));
    }
}

/// Reading the serialized payload back through the schema gives the
/// payload, field for field.
pub proof fn lemma_payload_of_value(sp: SpecPayload)
    requires
        spec_payload_wf(sp),
    ensures
        spec_payload_of(spec_payload_value(sp)) == Ok::<SpecPayload, VerificationFailure>(sp),
{
    let v = spec_payload_value(sp);
    let ps = v->Mapping_0;
    lemma_keys_distinct();
    assert forall|f: int| 0 <= f < 9 implies spec_lookup(ps, spec_payload_keys()[f]) == Some(
        ps[f].1,
    ) by {
        assert forall|j: int| 0 <= j < f implies ps[j].0 != SpecValue::Text(
            spec_payload_keys()[f],
        ) by {
            assert(ps[j].0 == SpecValue::Text(spec_payload_keys()[j]));
            assert(spec_payload_keys()[j] != spec_payload_keys()[f]);
        }
        assert(ps[f].0 == SpecValue::Text(spec_payload_keys()[f]));
        lemma_lookup_at(ps, spec_payload_keys()[f], f);
    }
    assert(spec_lookup(ps, key_module_id()) == Some(SpecValue::Text(sp.module_id)));
    assert(spec_field_module_id(ps) == Ok::<Seq<u8>, VerificationFailure>(sp.module_id));
    assert(spec_lookup(ps, key_digest()) == Some(SpecValue::Text(spec_digest_name(sp.digest))));
    assert(spec_field_digest(ps) == Ok::<DigestAlg, VerificationFailure>(sp.digest)) by {
        assert(name_sha256()[3] == 50u8);
        assert(name_sha384()[3] == 51u8);
        assert(name_sha512()[3] == 53u8);
        match sp.digest {
            DigestAlg::Sha256 => {},
            DigestAlg::Sha384 => {},
            DigestAlg::Sha512 => {},
        }
    }
    assert(spec_lookup(ps, key_timestamp()) == Some(SpecValue::Uint(sp.timestamp)));
    assert(spec_field_timestamp(ps) == Ok::<u64, VerificationFailure>(sp.timestamp));
    lemma_pcrs_of_value(sp, 0);
    assert(sp.pcrs.skip(0) =~= sp.pcrs);
    assert(spec_field_pcrs(ps, sp.digest.spec_out_len()) == Ok::<
        Seq<(u8, Seq<u8>)>,
        VerificationFailure,
    >(sp.pcrs));
    assert(spec_field_certificate(ps) == Ok::<Seq<u8>, VerificationFailure>(sp.certificate));
    lemma_bundle_of_value(sp, 0);
    assert(sp.cabundle.skip(0) =~= sp.cabundle);
    assert(spec_field_cabundle(ps) == Ok::<Seq<Seq<u8>>, VerificationFailure>(sp.cabundle));
    assert(spec_field_opt(ps, key_public_key(), FieldId::PublicKey) == Ok::<
        Option<Seq<u8>>,
        VerificationFailure,
    >(sp.public_key));
    assert(spec_field_opt(ps, key_user_data(), FieldId::UserData) == Ok::<
        Option<Seq<u8>>,
        VerificationFailure,
    >(sp.user_data));
    assert(spec_field_opt(ps, key_nonce(), FieldId::Nonce) == Ok::<
        Option<Seq<u8>>,
        VerificationFailure,
    >(sp.nonce));
    assert(spec_payload_of(v) =~= Ok::<SpecPayload, VerificationFailure>(sp));
}

/// What decoding a payload buffer yields: the decoded value run through
/// the schema, or the decode fault.
pub open spec fn spec_payload_decode(s: Seq<u8>) -> Result<SpecPayload, VerificationFailure> {
    match crate::value::spec_decode(s) {
        Ok(sv) => spec_payload_of(sv),
        Err(crate::value::SpecFault::Malformed { at }) => Err(
            VerificationFailure::MalformedEncoding { offset: at as usize },
        ),
        Err(crate::value::SpecFault::Duplicate { at }) => Err(
            VerificationFailure::DuplicateKey { offset: at as usize },
        ),
    }
}

/// Serializes a payload to its canonical bytes.
pub fn encode_payload(p: &AttestationPayload) -> (r: Vec<u8>)
    ensures
        r@ == crate::encode::spec_encode(spec_payload_value(p@)),
{
    let v = payload_to_value(p);
    crate::encode::encode(&v)
}

/// Decodes a payload buffer and validates its schema.
pub fn decode_payload(s: &Vec<u8>) -> (r: Result<AttestationPayload, VerificationFailure>)
    ensures
        match spec_payload_decode(s@) {
            Ok(sp) => r is Ok && (r->Ok_0)@ == sp,
            Err(e) => r == Err::<AttestationPayload, VerificationFailure>(e),
        },
{
    match crate::decode::decode(s) {
        Ok(v) => payload_from_value(&v),
        Err(e) => Err(e),
    }
}

/// Round trip: the canonical bytes of a well-formed payload decode back
/// to that payload, field for field.
pub proof fn lemma_payload_round_trip(sp: SpecPayload)
    requires
        spec_payload_wf(sp),
    ensures
        spec_payload_decode(crate::encode::spec_encode(spec_payload_value(sp))) == Ok::<
            SpecPayload,
            VerificationFailure,
        >(sp),
{
    lemma_payload_value_wf(sp);
    crate::encode::lemma_round_trip(spec_payload_value(sp));
    lemma_payload_of_value(sp);
}

} // verus!

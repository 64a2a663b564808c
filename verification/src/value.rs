//! The self-describing binary value model.
//!
//! A decoded document is a tree of [`Value`]s: integers, byte strings,
//! text strings, arrays, maps, booleans and null.  The wire grammar is the
//! concise binary object representation restricted to definite lengths:
//! each item starts with one byte holding a major type (the high three
//! bits) and a small argument (the low five bits); arguments 24 to 27
//! continue the value in the next 1, 2, 4 or 8 bytes, big endian.
//! Indefinite-length items, tags and other extensions are refused.
//!
//! The grammar is stated once, as the spec functions [`spec_decode_at`],
//! [`spec_decode_list`] and [`spec_decode_pairs`]; the executable decoder
//! and encoder elsewhere in the crate are proved against these.

use vstd::prelude::*;

verus! {

/// A decoded tree node.
#[derive(Debug, PartialEq)]
pub enum Value {
    /// A non-negative integer.
    Uint(u64),
    /// A negative integer; `Nint(n)` stands for `-1 - n`.
    Nint(u64),
    /// A byte string.
    Bytes(Vec<u8>),
    /// A text string, kept as its raw bytes.
    Text(Vec<u8>),
    /// An ordered sequence of values.
    Array(Vec<Value>),
    /// An ordered mapping; keys must be pairwise distinct.
    Mapping(Vec<(Value, Value)>),
    /// A boolean.
    Bool(bool),
    /// The null value.
    Null,
}

/// The mathematical model of a [`Value`].
#[verifier::ext_equal]
pub enum SpecValue {
    Uint(u64),
    Nint(u64),
    Bytes(Seq<u8>),
    Text(Seq<u8>),
    Array(Seq<SpecValue>),
    Mapping(Seq<(SpecValue, SpecValue)>),
    Bool(bool),
    Null,
}

/// The model of a [`Value`]: the same tree with sequences for vectors.
pub open spec fn spec_view(v: Value) -> SpecValue
    decreases v, 0int,
    via spec_view_dec
{
    match v {
        Value::Uint(n) => SpecValue::Uint(n),
        Value::Nint(n) => SpecValue::Nint(n),
        Value::Bytes(b) => SpecValue::Bytes(b@),
        Value::Text(t) => SpecValue::Text(t@),
        Value::Array(vs) => SpecValue::Array(seq_view(vs@)),
        Value::Mapping(ps) => SpecValue::Mapping(pairs_view(ps@)),
        Value::Bool(b) => SpecValue::Bool(b),
        Value::Null => SpecValue::Null,
    }
}

/// The models of a sequence of values, element by element.
pub open spec fn seq_view(vs: Seq<Value>) -> Seq<SpecValue>
    decreases vs, 1int,
    via seq_view_dec
{
    Seq::new(
        vs.len(),
        |i: int|
            if 0 <= i < vs.len() {
                spec_view(vs[i])
            } else {
                SpecValue::Null
            },
    )
}

/// The models of a sequence of key-value pairs, pair by pair.
pub open spec fn pairs_view(ps: Seq<(Value, Value)>) -> Seq<(SpecValue, SpecValue)>
    decreases ps, 1int,
    via pairs_view_dec
{
    Seq::new(
        ps.len(),
        |i: int|
            if 0 <= i < ps.len() {
                (spec_view(ps[i].0), spec_view(ps[i].1))
            } else {
                (SpecValue::Null, SpecValue::Null)
            },
    )
}

#[via_fn]
proof fn spec_view_dec(v: Value) {
    match v {
        Value::Array(vs) => {
            assert(decreases_to!(v => vs));
            assert(decreases_to!(vs => vs@));
        },
        Value::Mapping(ps) => {
            assert(decreases_to!(v => ps));
            assert(decreases_to!(ps => ps@));
        },
        _ => {},
    }
}

#[via_fn]
proof fn seq_view_dec(vs: Seq<Value>) {
    assert forall|i: int| 0 <= i < vs.len() implies decreases_to!(vs => vs[i]) by {
        vstd::seq::axiom_seq_index_decreases(vs, i);
    }
}

#[via_fn]
proof fn pairs_view_dec(ps: Seq<(Value, Value)>) {
    assert forall|i: int| 0 <= i < ps.len() implies decreases_to!(ps => ps[i]) by {
        vstd::seq::axiom_seq_index_decreases(ps, i);
    }
}

impl View for Value {
    type V = SpecValue;

    open spec fn view(&self) -> SpecValue {
        spec_view(*self)
    }
}

/// How decoding a span of bytes can fail.
pub enum SpecFault {
    /// The bytes do not follow the grammar; `at` is the failing position.
    Malformed { at: int },
    /// A mapping repeats a key; `at` is the position of the repeated key.
    Duplicate { at: int },
}

/// The big-endian value of the `w` bytes of `s` starting at `pos`.
pub open spec fn spec_be_val(s: Seq<u8>, pos: int, w: int) -> int
    decreases w,
{
    if w <= 0 {
        0
    } else {
        spec_be_val(s, pos, w - 1) * 256 + s[pos + w - 1]
    }
}

/// Reads the initial byte and its argument extension at `pos`: the decoded
/// argument and the position just after the head, or failure.
pub open spec fn spec_head(s: Seq<u8>, pos: int) -> Result<(u64, int), ()> {
    if pos < 0 || pos >= s.len() {
        Err(())
    } else {
        let ai = s[pos] % 32;
        if ai < 24 {
            Ok((ai as u64, pos + 1))
        } else if ai == 24 {
            if pos + 2 <= s.len() {
                Ok((s[pos + 1] as u64, pos + 2))
            } else {
                Err(())
            }
        } else if ai == 25 {
            if pos + 3 <= s.len() {
                Ok((spec_be_val(s, pos + 1, 2) as u64, pos + 3))
            } else {
                Err(())
            }
        } else if ai == 26 {
            if pos + 5 <= s.len() {
                Ok((spec_be_val(s, pos + 1, 4) as u64, pos + 5))
            } else {
                Err(())
            }
        } else if ai == 27 {
            if pos + 9 <= s.len() {
                Ok((spec_be_val(s, pos + 1, 8) as u64, pos + 9))
            } else {
                Err(())
            }
        } else {
            Err(())
        }
    }
}

/// Whether some earlier entry of `ps` already carries the key `k`.
pub open spec fn spec_key_dup(ps: Seq<(SpecValue, SpecValue)>, k: SpecValue) -> bool {
    exists|i: int| 0 <= i < ps.len() && ps[i].0 == k
}

/// Decodes one value at `pos`: the value and the position just after it,
/// or the fault.  The grammar's single point of truth.
pub open spec fn spec_decode_at(s: Seq<u8>, pos: int) -> Result<(SpecValue, int), SpecFault>
    decreases s.len() - pos, 0int,
{
    if pos < 0 || pos >= s.len() {
        Err(SpecFault::Malformed { at: pos })
    } else {
        let major = s[pos] / 32;
        match spec_head(s, pos) {
            Err(_) => Err(SpecFault::Malformed { at: pos }),
            Ok((arg, bstart)) => {
                if major == 0 {
                    Ok((SpecValue::Uint(arg), bstart))
                } else if major == 1 {
                    Ok((SpecValue::Nint(arg), bstart))
                } else if major == 2 || major == 3 {
                    if bstart + arg <= s.len() {
                        let content = s.subrange(bstart, bstart + arg);
                        if major == 2 {
                            Ok((SpecValue::Bytes(content), bstart + arg))
                        } else {
                            Ok((SpecValue::Text(content), bstart + arg))
                        }
                    } else {
                        Err(SpecFault::Malformed { at: pos })
                    }
                } else if major == 4 {
                    if bstart <= pos {
                        Err(SpecFault::Malformed { at: pos })
                    } else {
                        match spec_decode_list(s, bstart, arg as nat) {
                            Ok((items, end)) => Ok((SpecValue::Array(items), end)),
                            Err(f) => Err(f),
                        }
                    }
                } else if major == 5 {
                    if bstart <= pos {
                        Err(SpecFault::Malformed { at: pos })
                    } else {
                        match spec_decode_pairs(s, bstart, arg as nat, Seq::empty()) {
                            Ok((ps, end)) => Ok((SpecValue::Mapping(ps), end)),
                            Err(f) => Err(f),
                        }
                    }
                } else if major == 7 {
                    if s[pos] % 32 == 20 {
                        Ok((SpecValue::Bool(false), bstart))
                    } else if s[pos] % 32 == 21 {
                        Ok((SpecValue::Bool(true), bstart))
                    } else if s[pos] % 32 == 22 {
                        Ok((SpecValue::Null, bstart))
                    } else {
                        Err(SpecFault::Malformed { at: pos })
                    }
                } else {
                    Err(SpecFault::Malformed { at: pos })
                }
            },
        }
    }
}

/// Decodes `n` consecutive values starting at `pos`.
pub open spec fn spec_decode_list(s: Seq<u8>, pos: int, n: nat) -> Result<
    (Seq<SpecValue>, int),
    SpecFault,
>
    decreases s.len() - pos, n,
{
    if n == 0 {
        Ok((Seq::empty(), pos))
    } else {
        match spec_decode_at(s, pos) {
            Err(f) => Err(f),
            Ok((v, end)) => {
                if end <= pos || end > s.len() {
                    Err(SpecFault::Malformed { at: pos })
                } else {
                    match spec_decode_list(s, end, (n - 1) as nat) {
                        Ok((rest, e2)) => Ok((seq![v] + rest, e2)),
                        Err(f) => Err(f),
                    }
                }
            },
        }
    }
}

/// Decodes `n` consecutive key-value pairs starting at `pos`, refusing a
/// key already held by the accumulated entries `acc`.
pub open spec fn spec_decode_pairs(
    s: Seq<u8>,
    pos: int,
    n: nat,
    acc: Seq<(SpecValue, SpecValue)>,
) -> Result<(Seq<(SpecValue, SpecValue)>, int), SpecFault>
    decreases s.len() - pos, n,
{
    if n == 0 {
        Ok((acc, pos))
    } else {
        match spec_decode_at(s, pos) {
            Err(f) => Err(f),
            Ok((k, kend)) => {
                if spec_key_dup(acc, k) {
                    Err(SpecFault::Duplicate { at: pos })
                } else if kend <= pos || kend > s.len() {
                    Err(SpecFault::Malformed { at: pos })
                } else {
                    match spec_decode_at(s, kend) {
                        Err(f) => Err(f),
                        Ok((v, vend)) => {
                            if vend <= kend || vend > s.len() {
                                Err(SpecFault::Malformed { at: kend })
                            } else {
                                spec_decode_pairs(s, vend, (n - 1) as nat, acc.push((k, v)))
                            }
                        },
                    }
                }
            },
        }
    }
}

/// Decodes a whole buffer as one value with nothing left over.
pub open spec fn spec_decode(s: Seq<u8>) -> Result<SpecValue, SpecFault> {
    match spec_decode_at(s, 0) {
        Err(f) => Err(f),
        Ok((v, end)) => {
            if end == s.len() {
                Ok(v)
            } else {
                Err(SpecFault::Malformed { at: end })
            }
        },
    }
}

} // verus!

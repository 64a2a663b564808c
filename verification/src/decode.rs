//! The executable binary decoder, proved equal to the spec grammar.
//!
//! Every function here returns exactly what the corresponding spec
//! function of [`crate::value`] says, fault for fault: a caller that
//! reasons over [`spec_decode`] reasons about this code.

use vstd::prelude::*;

use crate::value::{
    pairs_view, seq_view, spec_be_val, spec_decode, spec_decode_at, spec_decode_list,
    spec_decode_pairs, spec_head, spec_key_dup, spec_view, SpecFault, SpecValue, Value,
};
use crate::VerificationFailure;

verus! {

/// What the decoder returns when the spec grammar gives `r` at `pos`.
pub open spec fn matches_spec_at(
    s: Seq<u8>,
    pos: int,
    r: Result<(Value, usize), VerificationFailure>,
) -> bool {
    match spec_decode_at(s, pos) {
        Ok((sv, end)) => r is Ok && spec_view((r->Ok_0).0) == sv && (r->Ok_0).1 == end,
        Err(SpecFault::Malformed { at }) => r == Err::<(Value, usize), VerificationFailure>(
            VerificationFailure::MalformedEncoding { offset: at as usize },
        ),
        Err(SpecFault::Duplicate { at }) => r == Err::<(Value, usize), VerificationFailure>(
            VerificationFailure::DuplicateKey { offset: at as usize },
        ),
    }
}

/// The same correspondence for a run of `n` values.
pub open spec fn matches_spec_list(
    s: Seq<u8>,
    pos: int,
    n: nat,
    r: Result<(Vec<Value>, usize), VerificationFailure>,
) -> bool {
    match spec_decode_list(s, pos, n) {
        Ok((svs, end)) => r is Ok && seq_view((r->Ok_0).0@) == svs && (r->Ok_0).1 == end,
        Err(SpecFault::Malformed { at }) => r == Err::<(Vec<Value>, usize), VerificationFailure>(
            VerificationFailure::MalformedEncoding { offset: at as usize },
        ),
        Err(SpecFault::Duplicate { at }) => r == Err::<(Vec<Value>, usize), VerificationFailure>(
            VerificationFailure::DuplicateKey { offset: at as usize },
        ),
    }
}

/// The same correspondence for a run of `n` key-value pairs on top of the
/// already-decoded entries `acc`.
pub open spec fn matches_spec_pairs(
    s: Seq<u8>,
    pos: int,
    n: nat,
    acc: Seq<(SpecValue, SpecValue)>,
    r: Result<(Vec<(Value, Value)>, usize), VerificationFailure>,
) -> bool {
    match spec_decode_pairs(s, pos, n, acc) {
        Ok((sps, end)) => r is Ok && pairs_view((r->Ok_0).0@) == sps && (r->Ok_0).1 == end,
        Err(SpecFault::Malformed { at }) => r == Err::<
            (Vec<(Value, Value)>, usize),
            VerificationFailure,
        >(VerificationFailure::MalformedEncoding { offset: at as usize }),
        Err(SpecFault::Duplicate { at }) => r == Err::<
            (Vec<(Value, Value)>, usize),
            VerificationFailure,
        >(VerificationFailure::DuplicateKey { offset: at as usize }),
    }
}

/// A successful head read ends after `pos` and within the buffer.
pub proof fn lemma_head_range(s: Seq<u8>, pos: int)
    ensures
        spec_head(s, pos) matches Ok((a, b)) ==> pos < b <= s.len(),
{
}

/// A successfully decoded run of values only moves the cursor forward,
/// never past the end, and yields exactly `n` values.
pub proof fn lemma_decode_list_range(s: Seq<u8>, pos: int, n: nat)
    requires
        0 <= pos <= s.len(),
    ensures
        spec_decode_list(s, pos, n) matches Ok((vs, end)) ==> pos <= end <= s.len() && vs.len()
            == n,
    decreases s.len() - pos, n,
{
    if n > 0 {
        match spec_decode_at(s, pos) {
            Ok((v, end)) => {
                if pos < end <= s.len() {
                    lemma_decode_list_range(s, end, (n - 1) as nat);
                }
            },
            Err(_) => {},
        }
    }
}

/// The pair form of [`lemma_decode_list_range`].
pub proof fn lemma_decode_pairs_range(s: Seq<u8>, pos: int, n: nat, acc: Seq<(SpecValue, SpecValue)>)
    requires
        0 <= pos <= s.len(),
    ensures
        spec_decode_pairs(s, pos, n, acc) matches Ok((ps, end)) ==> pos <= end <= s.len()
            && ps.len() == acc.len() + n,
    decreases s.len() - pos, n,
{
    if n > 0 {
        match spec_decode_at(s, pos) {
            Ok((k, kend)) => {
                if !spec_key_dup(acc, k) && pos < kend <= s.len() {
                    match spec_decode_at(s, kend) {
                        Ok((v, vend)) => {
                            if kend < vend <= s.len() {
                                lemma_decode_pairs_range(s, vend, (n - 1) as nat, acc.push((k, v)));
                            }
                        },
                        Err(_) => {},
                    }
                }
            },
            Err(_) => {},
        }
    }
}

/// A successfully decoded value occupies at least one byte and ends
/// within the buffer.
pub proof fn lemma_decode_at_range(s: Seq<u8>, pos: int)
    ensures
        spec_decode_at(s, pos) matches Ok((v, end)) ==> 0 <= pos < end <= s.len(),
{
    if 0 <= pos < s.len() {
        match spec_head(s, pos) {
            Ok((arg, bstart)) => {
                lemma_head_range(s, pos);
                let major = s[pos] / 32;
                if major == 4 {
                    if bstart > pos {
                        lemma_decode_list_range(s, bstart, arg as nat);
                    }
                } else if major == 5 {
                    if bstart > pos {
                        lemma_decode_pairs_range(s, bstart, arg as nat, Seq::empty());
                    }
                }
            },
            Err(_) => {},
        }
    }
}

/// Reads `w` big-endian bytes at `pos` as an unsigned integer.
fn read_be(s: &Vec<u8>, pos: usize, w: usize) -> (r: u64)
    requires
        pos + w <= s@.len(),
        w == 1 || w == 2 || w == 4 || w == 8,
    ensures
        r == spec_be_val(s@, pos as int, w as int),
{
    let total = s.len();
    proof {
        reveal_with_fuel(spec_be_val, 9);
    }
    if w == 1 {
        s[pos] as u64
    } else if w == 2 {
        (s[pos] as u64) * 256 + (s[pos + 1] as u64)
    } else if w == 4 {
        (((s[pos] as u64) * 256 + (s[pos + 1] as u64)) * 256 + (s[pos + 2] as u64)) * 256 + (s[pos
            + 3] as u64)
    } else {
        (((((((s[pos] as u64) * 256 + (s[pos + 1] as u64)) * 256 + (s[pos + 2] as u64)) * 256 + (
        s[pos + 3] as u64)) * 256 + (s[pos + 4] as u64)) * 256 + (s[pos + 5] as u64)) * 256 + (s[pos
            + 6] as u64)) * 256 + (s[pos + 7] as u64)
    }
}

/// Reads the head (initial byte plus argument extension) at `pos`.
fn read_head(s: &Vec<u8>, pos: usize) -> (r: Result<(u64, usize), VerificationFailure>)
    requires
        pos < s@.len(),
    ensures
        match r {
            Ok((a, b)) => spec_head(s@, pos as int) == Ok::<(u64, int), ()>((a, b as int)) && pos
                < b <= s@.len(),
            Err(e) => spec_head(s@, pos as int) is Err && e
                == (VerificationFailure::MalformedEncoding { offset: pos }),
        },
{
    proof {
        reveal_with_fuel(spec_be_val, 9);
    }
    let ai = s[pos] % 32;
    let rem = s.len() - pos;
    if ai < 24 {
        Ok((ai as u64, pos + 1))
    } else if ai == 24 {
        if rem >= 2 {
            Ok((read_be(s, pos + 1, 1), pos + 2))
        } else {
            Err(VerificationFailure::MalformedEncoding { offset: pos })
        }
    } else if ai == 25 {
        if rem >= 3 {
            Ok((read_be(s, pos + 1, 2), pos + 3))
        } else {
            Err(VerificationFailure::MalformedEncoding { offset: pos })
        }
    } else if ai == 26 {
        if rem >= 5 {
            Ok((read_be(s, pos + 1, 4), pos + 5))
        } else {
            Err(VerificationFailure::MalformedEncoding { offset: pos })
        }
    } else if ai == 27 {
        if rem >= 9 {
            Ok((read_be(s, pos + 1, 8), pos + 9))
        } else {
            Err(VerificationFailure::MalformedEncoding { offset: pos })
        }
    } else {
        Err(VerificationFailure::MalformedEncoding { offset: pos })
    }
}

/// Whether two values are structurally equal.
#[verifier::loop_isolation(false)]
pub fn value_eq(a: &Value, b: &Value) -> (r: bool)
    ensures
        r == (spec_view(*a) == spec_view(*b)),
    decreases *a,
{
    match a {
        Value::Uint(x) => match b {
            Value::Uint(y) => *x == *y,
            _ => false,
        },
        Value::Nint(x) => match b {
            Value::Nint(y) => *x == *y,
            _ => false,
        },
        Value::Bytes(x) => match b {
            Value::Bytes(y) => bytes_eq(x, y),
            _ => false,
        },
        Value::Text(x) => match b {
            Value::Text(y) => bytes_eq(x, y),
            _ => false,
        },
        Value::Array(xs) => match b {
            Value::Array(ys) => {
                if xs.len() != ys.len() {
                    proof {
                        assert(seq_view(xs@).len() == xs@.len());
                        assert(seq_view(ys@).len() == ys@.len());
                        assert(spec_view(*a) == SpecValue::Array(seq_view(xs@)));
                        assert(spec_view(*b) == SpecValue::Array(seq_view(ys@)));
                    }
                    return false;
                }
                for i in 0..xs.len()
                    invariant
                        xs@.len() == ys@.len(),
                        i <= xs@.len(),
                        spec_view(*a) == SpecValue::Array(seq_view(xs@)),
                        spec_view(*b) == SpecValue::Array(seq_view(ys@)),
                        forall|j: int| 0 <= j < i ==> seq_view(xs@)[j] == seq_view(ys@)[j],
                    decreases xs@.len() - i,
                {
                    proof {
                        assert(decreases_to!(*a => *xs));
                        assert(decreases_to!(*xs => xs@));
                        assert(decreases_to!(xs@ => xs@[i as int]));
                    }
                    if !value_eq(&xs[i], &ys[i]) {
                        assert(seq_view(xs@)[i as int] != seq_view(ys@)[i as int]);
                        return false;
                    }
                }
                proof {
                    assert(seq_view(xs@) =~= seq_view(ys@));
                }
                true
            },
            _ => false,
        },
        Value::Mapping(xs) => match b {
            Value::Mapping(ys) => {
                if xs.len() != ys.len() {
                    proof {
                        assert(pairs_view(xs@).len() == xs@.len());
                        assert(pairs_view(ys@).len() == ys@.len());
                        assert(spec_view(*a) == SpecValue::Mapping(pairs_view(xs@)));
                        assert(spec_view(*b) == SpecValue::Mapping(pairs_view(ys@)));
                    }
                    return false;
                }
                for i in 0..xs.len()
                    invariant
                        xs@.len() == ys@.len(),
                        i <= xs@.len(),
                        spec_view(*a) == SpecValue::Mapping(pairs_view(xs@)),
                        spec_view(*b) == SpecValue::Mapping(pairs_view(ys@)),
                        forall|j: int| 0 <= j < i ==> pairs_view(xs@)[j] == pairs_view(ys@)[j],
                    decreases xs@.len() - i,
                {
                    proof {
                        assert(decreases_to!(*a => *xs));
                        assert(decreases_to!(*xs => xs@));
                        assert(decreases_to!(xs@ => xs@[i as int]));
                    }
                    if !value_eq(&xs[i].0, &ys[i].0) {
                        assert(pairs_view(xs@)[i as int] != pairs_view(ys@)[i as int]);
                        return false;
                    }
                    if !value_eq(&xs[i].1, &ys[i].1) {
                        assert(pairs_view(xs@)[i as int] != pairs_view(ys@)[i as int]);
                        return false;
                    }
                    assert(pairs_view(xs@)[i as int] == pairs_view(ys@)[i as int]);
                }
                proof {
                    assert(pairs_view(xs@) =~= pairs_view(ys@));
                }
                true
            },
            _ => false,
        },
        Value::Bool(x) => match b {
            Value::Bool(y) => *x == *y,
            _ => false,
        },
        Value::Null => match b {
            Value::Null => true,
            _ => false,
        },
    }
}

/// A fresh copy of a byte vector.
pub fn copy_bytes(b: &Vec<u8>) -> (r: Vec<u8>)
    ensures
        r@ == b@,
{
    let mut out: Vec<u8> = Vec::new();
    for i in 0..b.len()
        invariant
            out@ == b@.subrange(0, i as int),
        decreases b@.len() - i,
    {
        out.push(b[i]);
        proof {
            assert(out@ =~= b@.subrange(0, i + 1));
        }
    }
    proof {
        assert(out@ =~= b@);
    }
    out
}

/// Whether two byte vectors hold the same bytes.
pub fn bytes_eq(x: &Vec<u8>, y: &Vec<u8>) -> (r: bool)
    ensures
        r == (x@ == y@),
{
    if x.len() != y.len() {
        return false;
    }
    for i in 0..x.len()
        invariant
            x@.len() == y@.len(),
            i <= x@.len(),
            forall|j: int| 0 <= j < i ==> x@[j] == y@[j],
        decreases x@.len() - i,
    {
        if x[i] != y[i] {
            return false;
        }
    }
    proof {
        assert(x@ =~= y@);
    }
    true
}

/// Whether some entry of `ps` already carries the key `k`.
fn has_key(ps: &Vec<(Value, Value)>, k: &Value) -> (r: bool)
    ensures
        r == spec_key_dup(pairs_view(ps@), spec_view(*k)),
{
    for i in 0..ps.len()
        invariant
            i <= ps@.len(),
            forall|j: int| 0 <= j < i ==> pairs_view(ps@)[j].0 != spec_view(*k),
        decreases ps@.len() - i,
    {
        if value_eq(&ps[i].0, k) {
            assert(pairs_view(ps@)[i as int].0 == spec_view(*k));
            return true;
        }
    }
    false
}

/// Decodes one value at `pos`, returning it with the position just after.
pub fn decode_at(s: &Vec<u8>, pos: usize) -> (r: Result<(Value, usize), VerificationFailure>)
    ensures
        matches_spec_at(s@, pos as int, r),
    decreases s@.len() - pos, 0nat,
{
    if pos >= s.len() {
        return Err(VerificationFailure::MalformedEncoding { offset: pos });
    }
    let b = s[pos];
    let major = b / 32;
    let (arg, bstart) = match read_head(s, pos) {
        Ok(p) => p,
        Err(e) => {
            return Err(e);
        },
    };
    if major == 0 {
        Ok((Value::Uint(arg), bstart))
    } else if major == 1 {
        Ok((Value::Nint(arg), bstart))
    } else if major == 2 || major == 3 {
        if arg <= (s.len() - bstart) as u64 {
            let len = arg as usize;
            let end = bstart + len;
            let mut content: Vec<u8> = Vec::new();
            for i in bstart..end
                invariant
                    bstart <= i <= end,
                    end <= s@.len(),
                    content@ == s@.subrange(bstart as int, i as int),
                decreases end - i,
            {
                content.push(s[i]);
                proof {
                    assert(content@ =~= s@.subrange(bstart as int, i + 1));
                }
            }
            if major == 2 {
                Ok((Value::Bytes(content), end))
            } else {
                Ok((Value::Text(content), end))
            }
        } else {
            Err(VerificationFailure::MalformedEncoding { offset: pos })
        }
    } else if major == 4 {
        match decode_list(s, bstart, arg) {
            Ok((items, end)) => Ok((Value::Array(items), end)),
            Err(e) => Err(e),
        }
    } else if major == 5 {
        let acc: Vec<(Value, Value)> = Vec::new();
        proof {
            assert(pairs_view(acc@) =~= Seq::<(SpecValue, SpecValue)>::empty());
        }
        match decode_pairs(s, bstart, arg, acc) {
            Ok((ps, end)) => Ok((Value::Mapping(ps), end)),
            Err(e) => Err(e),
        }
    } else if major == 7 {
        let ai = b % 32;
        if ai == 20 {
            Ok((Value::Bool(false), bstart))
        } else if ai == 21 {
            Ok((Value::Bool(true), bstart))
        } else if ai == 22 {
            Ok((Value::Null, bstart))
        } else {
            Err(VerificationFailure::MalformedEncoding { offset: pos })
        }
    } else {
        Err(VerificationFailure::MalformedEncoding { offset: pos })
    }
}

/// Decodes `n` consecutive values starting at `pos`.
fn decode_list(s: &Vec<u8>, pos: usize, n: u64) -> (r: Result<
    (Vec<Value>, usize),
    VerificationFailure,
>)
    requires
        pos <= s@.len(),
    ensures
        matches_spec_list(s@, pos as int, n as nat, r),
    decreases s@.len() - pos, n,
{
    if n == 0 {
        let items: Vec<Value> = Vec::new();
        proof {
            assert(seq_view(items@) =~= Seq::<SpecValue>::empty());
        }
        return Ok((items, pos));
    }
    match decode_at(s, pos) {
        Err(e) => Err(e),
        Ok((v, end)) => {
            proof {
                lemma_decode_at_range(s@, pos as int);
            }
            match decode_list(s, end, n - 1) {
                Err(e) => Err(e),
                Ok((rest, e2)) => {
                    let mut items = rest;
                    items.insert(0, v);
                    proof {
                        let svs = match spec_decode_list(s@, end as int, (n - 1) as nat) {
                            Ok((svs, _)) => svs,
                            Err(_) => Seq::empty(),
                        };
                        assert(seq_view(items@) =~= seq![spec_view(v)] + svs);
                    }
                    Ok((items, e2))
                },
            }
        },
    }
}

/// Decodes `n` consecutive key-value pairs on top of the entries `acc`.
fn decode_pairs(s: &Vec<u8>, pos: usize, n: u64, acc: Vec<(Value, Value)>) -> (r: Result<
    (Vec<(Value, Value)>, usize),
    VerificationFailure,
>)
    requires
        pos <= s@.len(),
    ensures
        matches_spec_pairs(s@, pos as int, n as nat, pairs_view(acc@), r),
    decreases s@.len() - pos, n,
{
    if n == 0 {
        return Ok((acc, pos));
    }
    match decode_at(s, pos) {
        Err(e) => Err(e),
        Ok((k, kend)) => {
            proof {
                lemma_decode_at_range(s@, pos as int);
            }
            if has_key(&acc, &k) {
                return Err(VerificationFailure::DuplicateKey { offset: pos });
            }
            match decode_at(s, kend) {
                Err(e) => Err(e),
                Ok((v, vend)) => {
                    proof {
                        lemma_decode_at_range(s@, kend as int);
                    }
                    let mut acc2 = acc;
                    acc2.push((k, v));
                    proof {
                        assert(pairs_view(acc2@) =~= pairs_view(acc@).push(
                            (spec_view(k), spec_view(v)),
                        ));
                    }
                    decode_pairs(s, vend, n - 1, acc2)
                },
            }
        },
    }
}

/// Decodes a whole buffer as one value with nothing left over.
pub fn decode(s: &Vec<u8>) -> (r: Result<Value, VerificationFailure>)
    ensures
        match spec_decode(s@) {
            Ok(sv) => r is Ok && spec_view(r->Ok_0) == sv,
            Err(SpecFault::Malformed { at }) => r == Err::<Value, VerificationFailure>(
                VerificationFailure::MalformedEncoding { offset: at as usize },
            ),
            Err(SpecFault::Duplicate { at }) => r == Err::<Value, VerificationFailure>(
                VerificationFailure::DuplicateKey { offset: at as usize },
            ),
        },
{
    match decode_at(s, 0) {
        Err(e) => Err(e),
        Ok((v, end)) => {
            proof {
                lemma_decode_at_range(s@, 0);
            }
            if end == s.len() {
                Ok(v)
            } else {
                Err(VerificationFailure::MalformedEncoding { offset: end })
            }
        },
    }
}

} // verus!

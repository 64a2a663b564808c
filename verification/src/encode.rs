//! The canonical encoder, and the proof that decoding inverts it.
//!
//! [`spec_encode`] fixes one byte sequence for every value: heads use the
//! shortest argument form, so the encoding is canonical.  The executable
//! encoder is proved to produce exactly that sequence, and
//! [`lemma_decode_encode`] proves that the decoder maps it back to the
//! value it came from — the round trip that makes re-encoded evidence
//! trustworthy.

use vstd::prelude::*;

use crate::value::{
    pairs_view, seq_view, spec_be_val, spec_decode, spec_decode_at, spec_decode_list,
    spec_decode_pairs, spec_head, spec_key_dup, spec_view, SpecFault, SpecValue, Value,
};

verus! {

/// 256 to the power `w`.
pub open spec fn spec_pow256(w: int) -> int
    decreases w,
{
    if w <= 0 {
        1
    } else {
        256 * spec_pow256(w - 1)
    }
}

/// The `w` big-endian bytes of `n`.
pub open spec fn spec_be_bytes(n: int, w: int) -> Seq<u8>
    decreases w,
{
    if w <= 0 {
        Seq::empty()
    } else {
        spec_be_bytes(n / 256, w - 1).push((n % 256) as u8)
    }
}

/// The canonical head for major type `major` with argument `n`: the
/// shortest of the five argument forms.
pub open spec fn spec_head_bytes(major: u8, n: u64) -> Seq<u8> {
    if n < 24 {
        seq![(major * 32 + n) as u8]
    } else if n < 256 {
        seq![(major * 32 + 24) as u8] + spec_be_bytes(n as int, 1)
    } else if n < 65536 {
        seq![(major * 32 + 25) as u8] + spec_be_bytes(n as int, 2)
    } else if n < 4294967296 {
        seq![(major * 32 + 26) as u8] + spec_be_bytes(n as int, 4)
    } else {
        seq![(major * 32 + 27) as u8] + spec_be_bytes(n as int, 8)
    }
}

/// The canonical encoding of a value.
pub open spec fn spec_encode(v: SpecValue) -> Seq<u8>
    decreases v, 0int,
    via spec_encode_dec
{
    match v {
        SpecValue::Uint(n) => spec_head_bytes(0, n),
        SpecValue::Nint(n) => spec_head_bytes(1, n),
        SpecValue::Bytes(b) => spec_head_bytes(2, b.len() as u64) + b,
        SpecValue::Text(t) => spec_head_bytes(3, t.len() as u64) + t,
        SpecValue::Array(vs) => spec_head_bytes(4, vs.len() as u64) + spec_encode_items(vs),
        SpecValue::Mapping(ps) => spec_head_bytes(5, ps.len() as u64) + spec_encode_entries(ps),
        SpecValue::Bool(b) => if b {
            seq![245u8]
        } else {
            seq![244u8]
        },
        SpecValue::Null => seq![246u8],
    }
}

/// The encodings of a run of values, one after the other.
pub open spec fn spec_encode_items(vs: Seq<SpecValue>) -> Seq<u8>
    decreases vs, 1int,
    via spec_encode_items_dec
{
    if vs.len() == 0 {
        Seq::empty()
    } else {
        spec_encode(vs[0]) + spec_encode_items(vs.drop_first())
    }
}

/// The encodings of a run of key-value pairs, each key before its value.
pub open spec fn spec_encode_entries(ps: Seq<(SpecValue, SpecValue)>) -> Seq<u8>
    decreases ps, 1int,
    via spec_encode_entries_dec
{
    if ps.len() == 0 {
        Seq::empty()
    } else {
        spec_encode(ps[0].0) + spec_encode(ps[0].1) + spec_encode_entries(ps.drop_first())
    }
}

#[via_fn]
proof fn spec_encode_dec(v: SpecValue) {
    match v {
        SpecValue::Array(vs) => {
            assert(decreases_to!(v => vs));
        },
        SpecValue::Mapping(ps) => {
            assert(decreases_to!(v => ps));
        },
        _ => {},
    }
}

#[via_fn]
proof fn spec_encode_items_dec(vs: Seq<SpecValue>) {
    if vs.len() > 0 {
        vstd::seq::axiom_seq_index_decreases(vs, 0);
        vstd::seq::axiom_seq_subrange_decreases(vs, 1, vs.len() as int);
    }
}

#[via_fn]
proof fn spec_encode_entries_dec(ps: Seq<(SpecValue, SpecValue)>) {
    if ps.len() > 0 {
        vstd::seq::axiom_seq_index_decreases(ps, 0);
        vstd::seq::axiom_seq_subrange_decreases(ps, 1, ps.len() as int);
    }
}

/// A value the canonical encoding can carry faithfully: every length fits
/// the argument forms and every mapping has pairwise distinct keys.
pub open spec fn spec_wf(v: SpecValue) -> bool
    decreases v, 0int,
    via spec_wf_dec
{
    match v {
        SpecValue::Uint(_) => true,
        SpecValue::Nint(_) => true,
        SpecValue::Bytes(b) => b.len() <= u64::MAX,
        SpecValue::Text(t) => t.len() <= u64::MAX,
        SpecValue::Array(vs) => vs.len() <= u64::MAX && spec_wf_items(vs),
        SpecValue::Mapping(ps) => ps.len() <= u64::MAX && spec_wf_entries(ps) && (forall|
            i: int,
            j: int,
        |
            0 <= i < j < ps.len() ==> ps[i].0 != ps[j].0),
        SpecValue::Bool(_) => true,
        SpecValue::Null => true,
    }
}

/// Well-formedness of every element of a run of values.
pub open spec fn spec_wf_items(vs: Seq<SpecValue>) -> bool
    decreases vs, 1int,
    via spec_wf_items_dec
{
    forall|i: int| 0 <= i < vs.len() ==> spec_wf(#[trigger] vs[i])
}

/// Well-formedness of every key and value of a run of pairs.
pub open spec fn spec_wf_entries(ps: Seq<(SpecValue, SpecValue)>) -> bool
    decreases ps, 1int,
    via spec_wf_entries_dec
{
    forall|i: int|
        0 <= i < ps.len() ==> spec_wf(#[trigger] ps[i].0) && spec_wf(ps[i].1)
}

#[via_fn]
proof fn spec_wf_dec(v: SpecValue) {
    match v {
        SpecValue::Array(vs) => {
            assert(decreases_to!(v => vs));
        },
        SpecValue::Mapping(ps) => {
            assert(decreases_to!(v => ps));
        },
        _ => {},
    }
}

#[via_fn]
proof fn spec_wf_items_dec(vs: Seq<SpecValue>) {
    assert forall|i: int| 0 <= i < vs.len() implies decreases_to!(vs => vs[i]) by {
        vstd::seq::axiom_seq_index_decreases(vs, i);
    }
}

#[via_fn]
proof fn spec_wf_entries_dec(ps: Seq<(SpecValue, SpecValue)>) {
    assert forall|i: int| 0 <= i < ps.len() implies decreases_to!(ps => ps[i]) by {
        vstd::seq::axiom_seq_index_decreases(ps, i);
    }
}

/// Appends the `w` big-endian bytes of `n`.
fn push_be(n: u64, w: usize, out: &mut Vec<u8>)
    ensures
        final(out)@ == old(out)@ + spec_be_bytes(n as int, w as int),
    decreases w,
{
    if w == 0 {
        proof {
            assert(out@ =~= out@ + spec_be_bytes(n as int, 0));
        }
    } else {
        push_be(n / 256, w - 1, out);
        out.push((n % 256) as u8);
        proof {
            assert(final(out)@ =~= old(out)@ + spec_be_bytes(n as int, w as int));
        }
    }
}

/// Appends the canonical head for major type `major` with argument `n`.
fn push_head(major: u8, n: u64, out: &mut Vec<u8>)
    requires
        major <= 5,
    ensures
        final(out)@ == old(out)@ + spec_head_bytes(major, n),
{
    if n < 24 {
        out.push(major * 32 + n as u8);
        proof {
            assert(final(out)@ =~= old(out)@ + spec_head_bytes(major, n));
        }
    } else if n < 256 {
        out.push(major * 32 + 24);
        push_be(n, 1, out);
        proof {
            assert(final(out)@ =~= old(out)@ + spec_head_bytes(major, n));
        }
    } else if n < 65536 {
        out.push(major * 32 + 25);
        push_be(n, 2, out);
        proof {
            assert(final(out)@ =~= old(out)@ + spec_head_bytes(major, n));
        }
    } else if n < 4294967296 {
        out.push(major * 32 + 26);
        push_be(n, 4, out);
        proof {
            assert(final(out)@ =~= old(out)@ + spec_head_bytes(major, n));
        }
    } else {
        out.push(major * 32 + 27);
        push_be(n, 8, out);
        proof {
            assert(final(out)@ =~= old(out)@ + spec_head_bytes(major, n));
        }
    }
}

/// `spec_encode_items` grows by one encoding when the run grows by one
/// value.
pub proof fn lemma_encode_items_push(vs: Seq<SpecValue>, x: SpecValue)
    ensures
        spec_encode_items(vs.push(x)) == spec_encode_items(vs) + spec_encode(x),
    decreases vs.len(),
{
    if vs.len() == 0 {
        assert(vs.push(x)[0] == x);
        assert(vs.push(x).drop_first() =~= Seq::<SpecValue>::empty());
        assert(vs.push(x).len() == 1);
        assert(spec_encode_items(vs.push(x)) == spec_encode(vs.push(x)[0]) + spec_encode_items(
            vs.push(x).drop_first(),
        ));
        assert(spec_encode_items(vs.push(x).drop_first()) == Seq::<u8>::empty());
        assert(spec_encode_items(vs) == Seq::<u8>::empty());
        assert(spec_encode(x) + Seq::<u8>::empty() =~= Seq::<u8>::empty() + spec_encode(x));
    } else {
        assert(vs.push(x)[0] == vs[0]);
        assert(vs.push(x).drop_first() =~= vs.drop_first().push(x));
        lemma_encode_items_push(vs.drop_first(), x);
        assert(spec_encode_items(vs.push(x)) == spec_encode(vs[0]) + (spec_encode_items(
            vs.drop_first(),
        ) + spec_encode(x)));
        assert(spec_encode_items(vs) == spec_encode(vs[0]) + spec_encode_items(vs.drop_first()));
        assert(spec_encode(vs[0]) + (spec_encode_items(vs.drop_first()) + spec_encode(x)) =~= (
        spec_encode(vs[0]) + spec_encode_items(vs.drop_first())) + spec_encode(x));
    }
}

/// The pair form of [`lemma_encode_items_push`].
pub proof fn lemma_encode_entries_push(ps: Seq<(SpecValue, SpecValue)>, k: SpecValue, v: SpecValue)
    ensures
        spec_encode_entries(ps.push((k, v))) == spec_encode_entries(ps) + spec_encode(k)
            + spec_encode(v),
    decreases ps.len(),
{
    if ps.len() == 0 {
        assert(ps.push((k, v))[0] == (k, v));
        assert(ps.push((k, v)).drop_first() =~= Seq::<(SpecValue, SpecValue)>::empty());
        assert(ps.push((k, v)).len() == 1);
        assert(spec_encode_entries(ps.push((k, v))) == spec_encode(ps.push((k, v))[0].0)
            + spec_encode(ps.push((k, v))[0].1) + spec_encode_entries(
            ps.push((k, v)).drop_first(),
        ));
        assert(spec_encode_entries(ps.push((k, v)).drop_first()) == Seq::<u8>::empty());
        assert(spec_encode_entries(ps) == Seq::<u8>::empty());
        assert(spec_encode(k) + spec_encode(v) + Seq::<u8>::empty() =~= Seq::<u8>::empty()
            + spec_encode(k) + spec_encode(v));
    } else {
        assert(ps.push((k, v))[0] == ps[0]);
        assert(ps.push((k, v)).drop_first() =~= ps.drop_first().push((k, v)));
        lemma_encode_entries_push(ps.drop_first(), k, v);
        assert(spec_encode_entries(ps.push((k, v))) == spec_encode(ps[0].0) + spec_encode(ps[0].1)
            + (spec_encode_entries(ps.drop_first()) + spec_encode(k) + spec_encode(v)));
        assert(spec_encode_entries(ps) == spec_encode(ps[0].0) + spec_encode(ps[0].1)
            + spec_encode_entries(ps.drop_first()));
        assert(spec_encode(ps[0].0) + spec_encode(ps[0].1) + (spec_encode_entries(ps.drop_first())
            + spec_encode(k) + spec_encode(v)) =~= (spec_encode(ps[0].0) + spec_encode(ps[0].1)
            + spec_encode_entries(ps.drop_first())) + spec_encode(k) + spec_encode(v));
    }
}

/// Appends the canonical encoding of `v`.
#[verifier::loop_isolation(false)]
#[verifier::rlimit(60)]
fn encode_into(v: &Value, out: &mut Vec<u8>)
    ensures
        final(out)@ == old(out)@ + spec_encode(spec_view(*v)),
    decreases *v,
{
    match v {
        Value::Uint(n) => {
            push_head(0, *n, out);
        },
        Value::Nint(n) => {
            push_head(1, *n, out);
        },
        Value::Bytes(b) => {
            push_head(2, b.len() as u64, out);
            for i in 0..b.len()
                invariant
                    out@ == old(out)@ + spec_head_bytes(2, b@.len() as u64) + b@.subrange(
                        0,
                        i as int,
                    ),
                decreases b@.len() - i,
            {
                out.push(b[i]);
                proof {
                    assert(out@ =~= old(out)@ + spec_head_bytes(2, b@.len() as u64) + b@.subrange(
                        0,
                        i + 1,
                    ));
                }
            }
            proof {
                assert(b@.subrange(0, b@.len() as int) =~= b@);
                assert(final(out)@ =~= old(out)@ + spec_encode(spec_view(*v)));
            }
        },
        Value::Text(t) => {
            push_head(3, t.len() as u64, out);
            for i in 0..t.len()
                invariant
                    out@ == old(out)@ + spec_head_bytes(3, t@.len() as u64) + t@.subrange(
                        0,
                        i as int,
                    ),
                decreases t@.len() - i,
            {
                out.push(t[i]);
                proof {
                    assert(out@ =~= old(out)@ + spec_head_bytes(3, t@.len() as u64) + t@.subrange(
                        0,
                        i + 1,
                    ));
                }
            }
            proof {
                assert(t@.subrange(0, t@.len() as int) =~= t@);
                assert(final(out)@ =~= old(out)@ + spec_encode(spec_view(*v)));
            }
        },
        Value::Array(vs) => {
            push_head(4, vs.len() as u64, out);
            proof {
                assert(seq_view(vs@).take(0) =~= Seq::<SpecValue>::empty());
                assert(spec_encode_items(seq_view(vs@).take(0)) =~= Seq::<u8>::empty());
                assert(out@ =~= old(out)@ + spec_head_bytes(4, vs@.len() as u64)
                    + spec_encode_items(seq_view(vs@).take(0)));
            }
            for i in 0..vs.len()
                invariant
                    out@ == old(out)@ + spec_head_bytes(4, vs@.len() as u64) + spec_encode_items(
                        seq_view(vs@).take(i as int),
                    ),
                decreases vs@.len() - i,
            {
                proof {
                    assert(decreases_to!(*v => *vs));
                    assert(decreases_to!(*vs => vs@));
                    assert(decreases_to!(vs@ => vs@[i as int]));
                }
                encode_into(&vs[i], out);
                proof {
                    assert(seq_view(vs@).take(i + 1) =~= seq_view(vs@).take(i as int).push(
                        seq_view(vs@)[i as int],
                    ));
                    lemma_encode_items_push(seq_view(vs@).take(i as int), seq_view(vs@)[i as int]);
                    assert(out@ =~= old(out)@ + spec_head_bytes(4, vs@.len() as u64)
                        + spec_encode_items(seq_view(vs@).take(i + 1)));
                }
            }
            proof {
                assert(seq_view(vs@).take(vs@.len() as int) =~= seq_view(vs@));
                assert(final(out)@ =~= old(out)@ + spec_encode(spec_view(*v)));
            }
        },
        Value::Mapping(ps) => {
            push_head(5, ps.len() as u64, out);
            proof {
                assert(pairs_view(ps@).take(0) =~= Seq::<(SpecValue, SpecValue)>::empty());
                assert(spec_encode_entries(pairs_view(ps@).take(0)) =~= Seq::<u8>::empty());
                assert(out@ =~= old(out)@ + spec_head_bytes(5, ps@.len() as u64)
                    + spec_encode_entries(pairs_view(ps@).take(0)));
            }
            for i in 0..ps.len()
                invariant
                    out@ == old(out)@ + spec_head_bytes(5, ps@.len() as u64) + spec_encode_entries(
                        pairs_view(ps@).take(i as int),
                    ),
                decreases ps@.len() - i,
            {
                proof {
                    assert(decreases_to!(*v => *ps));
                    assert(decreases_to!(*ps => ps@));
                    assert(decreases_to!(ps@ => ps@[i as int]));
                }
                encode_into(&ps[i].0, out);
                encode_into(&ps[i].1, out);
                proof {
                    assert(pairs_view(ps@).take(i + 1) =~= pairs_view(ps@).take(i as int).push(
                        pairs_view(ps@)[i as int],
                    ));
                    lemma_encode_entries_push(
                        pairs_view(ps@).take(i as int),
                        pairs_view(ps@)[i as int].0,
                        pairs_view(ps@)[i as int].1,
                    );
                    assert(out@ =~= old(out)@ + spec_head_bytes(5, ps@.len() as u64)
                        + spec_encode_entries(pairs_view(ps@).take(i + 1)));
                }
            }
            proof {
                assert(pairs_view(ps@).take(ps@.len() as int) =~= pairs_view(ps@));
                assert(final(out)@ =~= old(out)@ + spec_encode(spec_view(*v)));
            }
        },
        Value::Bool(b) => {
            if *b {
                out.push(245);
            } else {
                out.push(244);
            }
            proof {
                assert(final(out)@ =~= old(out)@ + spec_encode(spec_view(*v)));
            }
        },
        Value::Null => {
            out.push(246);
            proof {
                assert(final(out)@ =~= old(out)@ + spec_encode(spec_view(*v)));
            }
        },
    }
}

/// The canonical encoding of `v` as a fresh buffer.
pub fn encode(v: &Value) -> (r: Vec<u8>)
    ensures
        r@ == spec_encode(spec_view(*v)),
{
    let mut out: Vec<u8> = Vec::new();
    encode_into(v, &mut out);
    proof {
        assert(out@ =~= spec_encode(spec_view(*v)));
    }
    out
}

/// Splitting a span known to hold `a + b` gives `a` then `b`.
pub proof fn lemma_subrange_cat(s: Seq<u8>, pos: int, a: Seq<u8>, b: Seq<u8>)
    requires
        0 <= pos,
        pos + a.len() + b.len() <= s.len(),
        s.subrange(pos, pos + a.len() + b.len()) == a + b,
    ensures
        s.subrange(pos, pos + a.len() as int) == a,
        s.subrange(pos + a.len(), pos + a.len() + b.len()) == b,
{
    assert forall|i: int| 0 <= i < a.len() implies s.subrange(pos, pos + a.len() as int)[i]
        == a[i] by {
        assert(s.subrange(pos, pos + a.len() + b.len())[i] == (a + b)[i]);
    }
    assert(s.subrange(pos, pos + a.len() as int) =~= a);
    assert forall|i: int|
        0 <= i < b.len() implies s.subrange(pos + a.len(), pos + a.len() + b.len())[i] == b[i] by {
        assert(s.subrange(pos, pos + a.len() + b.len())[a.len() + i] == (a + b)[a.len() + i]);
        assert((a + b)[a.len() + i] == b[i]);
        assert(s.subrange(pos, pos + a.len() + b.len())[a.len() + i] == s[pos + a.len() + i]);
        assert(s.subrange(pos + a.len(), pos + a.len() + b.len())[i] == s[pos + a.len() + i]);
    }
    assert(s.subrange(pos + a.len(), pos + a.len() + b.len()) =~= b);
}

/// `spec_be_bytes` yields exactly `w` bytes.
pub proof fn lemma_be_bytes_len(n: int, w: int)
    requires
        0 <= w,
    ensures
        spec_be_bytes(n, w).len() == w,
    decreases w,
{
    if w > 0 {
        lemma_be_bytes_len(n / 256, w - 1);
    }
}

/// Reading back the `w` big-endian bytes of `n` gives `n`.
pub proof fn lemma_be_val_bytes(n: int, w: int, s: Seq<u8>, pos: int)
    requires
        0 <= w,
        0 <= n < spec_pow256(w),
        0 <= pos,
        pos + w <= s.len(),
        s.subrange(pos, pos + w) == spec_be_bytes(n, w),
    ensures
        spec_be_val(s, pos, w) == n,
    decreases w,
{
    lemma_be_bytes_len(n, w);
    if w == 0 {
    } else {
        lemma_be_bytes_len(n / 256, w - 1);
        assert(s.subrange(pos, pos + w - 1) =~= spec_be_bytes(n / 256, w - 1));
        assert(n / 256 < spec_pow256(w - 1)) by {
            vstd::arithmetic::div_mod::lemma_fundamental_div_mod(n, 256);
            assert(spec_pow256(w) == 256 * spec_pow256(w - 1));
            if n / 256 >= spec_pow256(w - 1) {
                assert((n / 256) * 256 >= spec_pow256(w - 1) * 256) by (nonlinear_arith)
                    requires
                        n / 256 >= spec_pow256(w - 1),
                ;
            }
        }
        lemma_be_val_bytes(n / 256, w - 1, s, pos);
        assert(s[pos + w - 1] == spec_be_bytes(n, w)[w - 1]);
        assert(spec_be_bytes(n, w)[w - 1] == (n % 256) as u8);
        assert(0 <= n % 256 < 256);
        vstd::arithmetic::div_mod::lemma_fundamental_div_mod(n, 256);
        assert(spec_be_val(s, pos, w) == spec_be_val(s, pos, w - 1) * 256 + s[pos + w - 1]);
    }
}

/// The small powers of 256 that the argument forms use.
pub proof fn lemma_pow256_vals()
    ensures
        spec_pow256(1) == 256,
        spec_pow256(2) == 65536,
        spec_pow256(4) == 4294967296,
        spec_pow256(8) == 18446744073709551616,
{
    reveal_with_fuel(spec_pow256, 9);
    assert(spec_pow256(0) == 1);
    assert(spec_pow256(1) == 256);
    assert(spec_pow256(2) == 65536);
    assert(spec_pow256(3) == 16777216);
    assert(spec_pow256(4) == 4294967296);
    assert(spec_pow256(5) == 1099511627776);
    assert(spec_pow256(6) == 281474976710656);
    assert(spec_pow256(7) == 72057594037927936);
    assert(spec_pow256(8) == 18446744073709551616);
}

/// Decoding a head at the start of its canonical bytes gives back the
/// major type and argument.
pub proof fn lemma_head_encode(major: u8, n: u64, s: Seq<u8>, pos: int)
    requires
        major <= 5,
        0 <= pos,
        pos + spec_head_bytes(major, n).len() <= s.len(),
        s.subrange(pos, pos + spec_head_bytes(major, n).len() as int) == spec_head_bytes(major, n),
    ensures
        spec_head(s, pos) == Ok::<(u64, int), ()>(
            (n, pos + spec_head_bytes(major, n).len() as int),
        ),
        s[pos] / 32 == major,
        spec_head_bytes(major, n).len() >= 1,
{
    lemma_pow256_vals();
    let hb = spec_head_bytes(major, n);
    assert(s[pos] == hb[0]);
    if n < 24 {
        assert(hb =~= seq![(major * 32 + n) as u8]);
        vstd::arithmetic::div_mod::lemma_fundamental_div_mod_converse(
            major as int * 32 + n as int,
            32,
            major as int,
            n as int,
        );
    } else {
        let (w, ai) = if n < 256 {
            (1int, 24u8)
        } else if n < 65536 {
            (2int, 25u8)
        } else if n < 4294967296 {
            (3int, 26u8)
        } else {
            (4int, 27u8)
        };
        let width = if n < 256 {
            1int
        } else if n < 65536 {
            2int
        } else if n < 4294967296 {
            4int
        } else {
            8int
        };
        lemma_be_bytes_len(n as int, width);
        assert(hb[0] == (major * 32 + ai) as u8);
        vstd::arithmetic::div_mod::lemma_fundamental_div_mod_converse(
            major as int * 32 + ai as int,
            32,
            major as int,
            ai as int,
        );
        assert(hb =~= seq![hb[0]] + spec_be_bytes(n as int, width));
        lemma_subrange_cat(s, pos, seq![hb[0]], spec_be_bytes(n as int, width));
        lemma_be_val_bytes(n as int, width, s, pos + 1);
    }
}

/// Every canonical encoding takes at least one byte.
pub proof fn lemma_encode_len_pos(v: SpecValue)
    ensures
        spec_encode(v).len() >= 1,
{
    match v {
        SpecValue::Uint(n) => {
            lemma_be_bytes_len_any(n as int);
        },
        SpecValue::Nint(n) => {
            lemma_be_bytes_len_any(n as int);
        },
        _ => {},
    }
}

/// Helper: the lengths of the byte forms used by heads.
proof fn lemma_be_bytes_len_any(n: int)
    ensures
        spec_be_bytes(n, 1).len() == 1,
        spec_be_bytes(n, 2).len() == 2,
        spec_be_bytes(n, 4).len() == 4,
        spec_be_bytes(n, 8).len() == 8,
{
    lemma_be_bytes_len(n, 1);
    lemma_be_bytes_len(n, 2);
    lemma_be_bytes_len(n, 4);
    lemma_be_bytes_len(n, 8);
}

/// Decoding the canonical encoding of a well-formed value, wherever it
/// lies in a larger buffer, gives back exactly that value.
pub proof fn lemma_decode_encode(v: SpecValue, s: Seq<u8>, pos: int)
    requires
        spec_wf(v),
        0 <= pos,
        pos + spec_encode(v).len() <= s.len(),
        s.subrange(pos, pos + spec_encode(v).len() as int) == spec_encode(v),
    ensures
        spec_decode_at(s, pos) == Ok::<(SpecValue, int), SpecFault>(
            (v, pos + spec_encode(v).len() as int),
        ),
    decreases v, 0int,
{
    lemma_pow256_vals();
    let enc = spec_encode(v);
    match v {
        SpecValue::Uint(n) => {
            lemma_head_encode(0, n, s, pos);
        },
        SpecValue::Nint(n) => {
            lemma_head_encode(1, n, s, pos);
        },
        SpecValue::Bytes(b) => {
            let hb = spec_head_bytes(2, b.len() as u64);
            lemma_subrange_cat(s, pos, hb, b);
            lemma_head_encode(2, b.len() as u64, s, pos);
        },
        SpecValue::Text(t) => {
            let hb = spec_head_bytes(3, t.len() as u64);
            lemma_subrange_cat(s, pos, hb, t);
            lemma_head_encode(3, t.len() as u64, s, pos);
        },
        SpecValue::Array(vs) => {
            let hb = spec_head_bytes(4, vs.len() as u64);
            let body = spec_encode_items(vs);
            lemma_subrange_cat(s, pos, hb, body);
            lemma_head_encode(4, vs.len() as u64, s, pos);
            assert(decreases_to!(v => vs));
            lemma_decode_encode_items(vs, s, pos + hb.len() as int);
        },
        SpecValue::Mapping(ps) => {
            let hb = spec_head_bytes(5, ps.len() as u64);
            let body = spec_encode_entries(ps);
            lemma_subrange_cat(s, pos, hb, body);
            lemma_head_encode(5, ps.len() as u64, s, pos);
            assert forall|i: int| 0 <= i < ps.len() implies !spec_key_dup(
                Seq::<(SpecValue, SpecValue)>::empty(),
                ps[i].0,
            ) by {
                assert(Seq::<(SpecValue, SpecValue)>::empty().len() == 0);
            }
            assert(decreases_to!(v => ps));
            lemma_decode_encode_entries(ps, Seq::empty(), s, pos + hb.len() as int);
            assert(Seq::<(SpecValue, SpecValue)>::empty() + ps =~= ps);
        },
        SpecValue::Bool(b) => {
            assert(s[pos] == enc[0]);
        },
        SpecValue::Null => {
            assert(s[pos] == enc[0]);
        },
    }
}

/// The run form of [`lemma_decode_encode`].
pub proof fn lemma_decode_encode_items(vs: Seq<SpecValue>, s: Seq<u8>, pos: int)
    requires
        spec_wf_items(vs),
        0 <= pos,
        pos + spec_encode_items(vs).len() <= s.len(),
        s.subrange(pos, pos + spec_encode_items(vs).len() as int) == spec_encode_items(vs),
    ensures
        spec_decode_list(s, pos, vs.len()) == Ok::<(Seq<SpecValue>, int), SpecFault>(
            (vs, pos + spec_encode_items(vs).len() as int),
        ),
    decreases vs, 1int,
{
    if vs.len() == 0 {
        assert(vs =~= Seq::<SpecValue>::empty());
    } else {
        let e0 = spec_encode(vs[0]);
        let rest = spec_encode_items(vs.drop_first());
        assert(spec_encode_items(vs) == e0 + rest);
        lemma_subrange_cat(s, pos, e0, rest);
        vstd::seq::axiom_seq_index_decreases(vs, 0);
        lemma_decode_encode(vs[0], s, pos);
        lemma_encode_len_pos(vs[0]);
        assert(spec_wf_items(vs.drop_first())) by {
            assert forall|i: int| 0 <= i < vs.drop_first().len() implies spec_wf(
                #[trigger] vs.drop_first()[i],
            ) by {
                assert(vs.drop_first()[i] == vs[i + 1]);
            }
        }
        vstd::seq::axiom_seq_subrange_decreases(vs, 1, vs.len() as int);
        lemma_decode_encode_items(vs.drop_first(), s, pos + e0.len() as int);
        assert(seq![vs[0]] + vs.drop_first() =~= vs);
    }
}

/// The pair-run form of [`lemma_decode_encode`]: keys already in `acc`
/// must not recur in `ps`, and then decoding appends exactly `ps`.
pub proof fn lemma_decode_encode_entries(
    ps: Seq<(SpecValue, SpecValue)>,
    acc: Seq<(SpecValue, SpecValue)>,
    s: Seq<u8>,
    pos: int,
)
    requires
        spec_wf_entries(ps),
        forall|i: int, j: int| 0 <= i < j < ps.len() ==> ps[i].0 != ps[j].0,
        forall|i: int| 0 <= i < ps.len() ==> !spec_key_dup(acc, #[trigger] ps[i].0),
        0 <= pos,
        pos + spec_encode_entries(ps).len() <= s.len(),
        s.subrange(pos, pos + spec_encode_entries(ps).len() as int) == spec_encode_entries(ps),
    ensures
        spec_decode_pairs(s, pos, ps.len(), acc) == Ok::<
            (Seq<(SpecValue, SpecValue)>, int),
            SpecFault,
        >((acc + ps, pos + spec_encode_entries(ps).len() as int)),
    decreases ps, 1int,
{
    if ps.len() == 0 {
        assert(acc + ps =~= acc);
    } else {
        let k = ps[0].0;
        let w = ps[0].1;
        let ek = spec_encode(k);
        let ew = spec_encode(w);
        let rest = spec_encode_entries(ps.drop_first());
        assert(spec_encode_entries(ps) == ek + ew + rest);
        assert(ek + ew + rest =~= ek + (ew + rest));
        lemma_subrange_cat(s, pos, ek, ew + rest);
        lemma_subrange_cat(s, pos + ek.len() as int, ew, rest);
        vstd::seq::axiom_seq_index_decreases(ps, 0);
        assert(decreases_to!(ps[0] => k));
        lemma_decode_encode(k, s, pos);
        lemma_encode_len_pos(k);
        lemma_decode_encode(w, s, pos + ek.len() as int);
        lemma_encode_len_pos(w);
        assert(!spec_key_dup(acc, k));
        let pos2 = pos + ek.len() + ew.len();
        assert(spec_wf_entries(ps.drop_first())) by {
            assert forall|i: int| 0 <= i < ps.drop_first().len() implies spec_wf(
                #[trigger] ps.drop_first()[i].0,
            ) && spec_wf(ps.drop_first()[i].1) by {
                assert(ps.drop_first()[i] == ps[i + 1]);
            }
        }
        let acc2 = acc.push(ps[0]);
        assert forall|i: int| 0 <= i < ps.drop_first().len() implies !spec_key_dup(
            acc2,
            #[trigger] ps.drop_first()[i].0,
        ) by {
            assert(ps.drop_first()[i] == ps[i + 1]);
            assert(!spec_key_dup(acc, ps[i + 1].0));
            assert(ps[0].0 != ps[i + 1].0);
            if spec_key_dup(acc2, ps[i + 1].0) {
                let j = choose|j: int| 0 <= j < acc2.len() && acc2[j].0 == ps[i + 1].0;
                if j < acc.len() {
                    assert(acc[j].0 == ps[i + 1].0);
                } else {
                    assert(acc2[j] == ps[0]);
                }
            }
        }
        assert forall|i: int, j: int|
            0 <= i < j < ps.drop_first().len() implies ps.drop_first()[i].0 != ps.drop_first()[j].0
        by {
            assert(ps.drop_first()[i] == ps[i + 1]);
            assert(ps.drop_first()[j] == ps[j + 1]);
        }
        vstd::seq::axiom_seq_subrange_decreases(ps, 1, ps.len() as int);
        lemma_decode_encode_entries(ps.drop_first(), acc2, s, pos2);
        assert(acc2 + ps.drop_first() =~= acc + ps);
    }
}

/// The round trip at the root: decoding the canonical encoding of a
/// well-formed value gives back exactly that value.
pub proof fn lemma_round_trip(v: SpecValue)
    requires
        spec_wf(v),
    ensures
        spec_decode(spec_encode(v)) == Ok::<SpecValue, SpecFault>(v),
{
    let s = spec_encode(v);
    assert(s.subrange(0, s.len() as int) =~= s);
    lemma_decode_encode(v, s, 0);
}

} // verus!

//! Certificate parsing: the distinguished-encoding fields the chain
//! validator reads.
//!
//! A certificate arrives as distinguished-encoding bytes.  The validator
//! needs its to-be-signed span, issuer and subject names, validity
//! window, public key point, basic-constraints and signature scalars —
//! nothing else.  The grammar of those fields is stated once in
//! [`spec_parse_cert`] and the executable parser is proved equal to it.

use vstd::prelude::*;

use crate::encode::spec_pow256;
use crate::value::spec_be_val;

verus! {

/// One parsed certificate: exactly the fields the chain validator reads.
pub struct Certificate {
    /// The full certificate bytes, unaltered.
    pub raw: Vec<u8>,
    /// The to-be-signed element (header and content): what the issuer
    /// signed.
    pub tbs: Vec<u8>,
    /// The issuer name element, kept as raw bytes for exact comparison.
    pub issuer: Vec<u8>,
    /// The subject name element, kept as raw bytes for exact comparison.
    pub subject: Vec<u8>,
    /// Start of the validity window, in seconds since the epoch (clamped
    /// at zero for earlier dates).
    pub not_before: u64,
    /// End of the validity window, in seconds since the epoch.
    pub not_after: u64,
    /// The public key point bytes from the subject-public-key field.
    pub pub_key: Vec<u8>,
    /// Whether the basic-constraints extension marks this a certificate
    /// authority.
    pub is_ca: bool,
    /// The remaining path length from basic constraints, if constrained.
    pub path_len: Option<u64>,
    /// The signature as two fixed-width 48-byte scalars, concatenated.
    pub sig: Vec<u8>,
}

/// The mathematical model of a [`Certificate`].
#[verifier::ext_equal]
pub struct SpecCertificate {
    pub raw: Seq<u8>,
    pub tbs: Seq<u8>,
    pub issuer: Seq<u8>,
    pub subject: Seq<u8>,
    pub not_before: u64,
    pub not_after: u64,
    pub pub_key: Seq<u8>,
    pub is_ca: bool,
    pub path_len: Option<u64>,
    pub sig: Seq<u8>,
}

impl View for Certificate {
    type V = SpecCertificate;

    open spec fn view(&self) -> SpecCertificate {
        SpecCertificate {
            raw: self.raw@,
            tbs: self.tbs@,
            issuer: self.issuer@,
            subject: self.subject@,
            not_before: self.not_before,
            not_after: self.not_after,
            pub_key: self.pub_key@,
            is_ca: self.is_ca,
            path_len: self.path_len,
            sig: self.sig@,
        }
    }
}

/// Reads one element header at `pos`: its tag, the position where its
/// content starts, and the content length.  Multi-byte tags and
/// indefinite lengths are refused; the content must lie in the buffer.
pub open spec fn spec_der_header(s: Seq<u8>, pos: int) -> Option<(u8, int, int)> {
    if pos < 0 || pos + 2 > s.len() {
        None
    } else {
        let tag = s[pos];
        if tag % 32 == 31 {
            None
        } else {
            let l0 = s[pos + 1];
            if l0 < 128 {
                if pos + 2 + l0 <= s.len() {
                    Some((tag, pos + 2, l0 as int))
                } else {
                    None
                }
            } else if l0 == 128 {
                None
            } else {
                let nl = l0 - 128;
                if nl > 4 || pos + 2 + nl > s.len() {
                    None
                } else {
                    let len = spec_be_val(s, pos + 2, nl as int);
                    if pos + 2 + nl + len <= s.len() {
                        Some((tag, pos + 2 + nl, len))
                    } else {
                        None
                    }
                }
            }
        }
    }
}

/// A big-endian byte value is never negative.
pub proof fn lemma_be_val_nonneg(s: Seq<u8>, pos: int, w: int)
    ensures
        spec_be_val(s, pos, w) >= 0,
    decreases w,
{
    if w > 0 {
        lemma_be_val_nonneg(s, pos, w - 1);
    }
}

/// Reads one element header at `pos`.
pub fn der_header(s: &Vec<u8>, pos: usize) -> (r: Option<(u8, usize, usize)>)
    ensures
        match r {
            Some((tag, start, len)) => spec_der_header(s@, pos as int) == Some(
                (tag, start as int, len as int),
            ) && pos + 2 <= start && start + len <= s@.len(),
            None => spec_der_header(s@, pos as int) is None,
        },
{
    proof {
        reveal_with_fuel(spec_be_val, 6);
    }
    if pos >= s.len() || s.len() - pos < 2 {
        return None;
    }
    let tag = s[pos];
    if tag % 32 == 31 {
        return None;
    }
    let l0 = s[pos + 1];
    if l0 < 128 {
        if (l0 as usize) <= s.len() - (pos + 2) {
            Some((tag, pos + 2, l0 as usize))
        } else {
            None
        }
    } else if l0 == 128 {
        None
    } else {
        let nl = (l0 - 128) as usize;
        if nl > 4 || nl > s.len() - (pos + 2) {
            return None;
        }
        let total = s.len();
        let mut len: u64 = 0;
        let mut k: usize = 0;
        while k < nl
            invariant
                k <= nl,
                nl <= 4,
                pos + 2 + nl <= s@.len(),
                s@.len() == total,
                len == spec_be_val(s@, pos + 2, k as int),
                len < spec_pow256(k as int),
                len < 4294967296,
            decreases nl - k,
        {
            proof {
                lemma_be_val_nonneg(s@, pos + 2 as int, k as int);
                reveal_with_fuel(spec_pow256, 6);
                assert(spec_pow256(0) == 1);
                assert(spec_pow256(1) == 256);
                assert(spec_pow256(2) == 65536);
                assert(spec_pow256(3) == 16777216);
                assert(spec_pow256(4) == 4294967296);
                assert(len * 256 + 255 < spec_pow256(k + 1));
                if k == 0 {
                } else if k == 1 {
                } else if k == 2 {
                } else {
                    assert(k == 3);
                }
                assert(spec_pow256(k + 1) <= 4294967296);
            }
            len = len * 256 + (s[pos + 2 + k] as u64);
            k = k + 1;
            proof {
                assert(len == spec_be_val(s@, pos + 2, k as int));
            }
        }
        let start = pos + 2 + nl;
        if len <= (s.len() - start) as u64 {
            Some((tag, start, len as usize))
        } else {
            None
        }
    }
}

/// The value of two decimal digit bytes at `pos`, if they are digits.
pub open spec fn spec_digits2(s: Seq<u8>, pos: int) -> Option<int> {
    if 0 <= pos && pos + 2 <= s.len() && 48 <= s[pos] <= 57 && 48 <= s[pos + 1] <= 57 {
        Some((s[pos] - 48) * 10 + (s[pos + 1] - 48))
    } else {
        None
    }
}

/// Seconds since the epoch of a calendar date and time, clamped at zero
/// for dates before the epoch.
pub open spec fn spec_epoch_secs(y: int, mo: int, d: int, h: int, mi: int, sec: int) -> int {
    let yy = if mo <= 2 {
        y - 1
    } else {
        y
    };
    let era = yy / 400;
    let yoe = yy - era * 400;
    let mp = (mo + 9) % 12;
    let doy = (153 * mp + 2) / 5 + d - 1;
    let doe = yoe * 365 + yoe / 4 - yoe / 100 + doy;
    let days = era * 146097 + doe - 719468;
    let secs = days * 86400 + h * 3600 + mi * 60 + sec;
    if secs < 0 {
        0
    } else {
        secs
    }
}

/// The window timestamp encoded by a time element with tag `tag` and
/// content `c`: the two-digit-year form for tag 23, the four-digit-year
/// form for tag 24, both ending in the zone marker `Z`.
pub open spec fn spec_time_value(tag: u8, c: Seq<u8>) -> Option<int> {
    if tag == 23 {
        if c.len() == 13 && c[12] == 90 {
            match spec_digits2(c, 0) {
                Some(yy) => spec_time_fields(
                    if yy < 50 {
                        2000 + yy
                    } else {
                        1900 + yy
                    },
                    c,
                    2,
                ),
                None => None,
            }
        } else {
            None
        }
    } else if tag == 24 {
        if c.len() == 15 && c[14] == 90 {
            match (spec_digits2(c, 0), spec_digits2(c, 2)) {
                (Some(hi), Some(lo)) => spec_time_fields(hi * 100 + lo, c, 4),
                _ => None,
            }
        } else {
            None
        }
    } else {
        None
    }
}

/// The month, day, hour, minute and second fields starting at `pos`,
/// assembled with year `y` into epoch seconds.
pub open spec fn spec_time_fields(y: int, c: Seq<u8>, pos: int) -> Option<int> {
    match (
        spec_digits2(c, pos),
        spec_digits2(c, pos + 2),
        spec_digits2(c, pos + 4),
        spec_digits2(c, pos + 6),
        spec_digits2(c, pos + 8),
    ) {
        (Some(mo), Some(d), Some(h), Some(mi), Some(sec)) => {
            if 1582 <= y <= 9999 && 1 <= mo <= 12 && 1 <= d <= 31 && h <= 23 && mi <= 59 && sec
                <= 59 {
                Some(spec_epoch_secs(y, mo, d, h, mi, sec))
            } else {
                None
            }
        },
        _ => None,
    }
}

/// Reads two decimal digits at `pos`.
fn digits2(c: &Vec<u8>, pos: usize) -> (r: Option<u64>)
    ensures
        match r {
            Some(v) => spec_digits2(c@, pos as int) == Some(v as int) && v <= 99,
            None => spec_digits2(c@, pos as int) is None,
        },
{
    if pos < c.len() && c.len() - pos >= 2 {
        let a = c[pos];
        let b = c[pos + 1];
        if 48 <= a && a <= 57 && 48 <= b && b <= 57 {
            Some(((a - 48) as u64) * 10 + ((b - 48) as u64))
        } else {
            None
        }
    } else {
        None
    }
}

/// Computes the epoch seconds of a validated calendar time.
fn epoch_secs(y: u64, mo: u64, d: u64, h: u64, mi: u64, sec: u64) -> (r: u64)
    requires
        1582 <= y <= 9999,
        1 <= mo <= 12,
        1 <= d <= 31,
        h <= 23,
        mi <= 59,
        sec <= 59,
    ensures
        r == spec_epoch_secs(y as int, mo as int, d as int, h as int, mi as int, sec as int),
{
    let yy: u64 = if mo <= 2 {
        y - 1
    } else {
        y
    };
    let era: u64 = yy / 400;
    let yoe: u64 = yy - era * 400;
    let mp: u64 = (mo + 9) % 12;
    let doy: u64 = (153 * mp + 2) / 5 + d - 1;
    let doe: u64 = yoe * 365 + yoe / 4 - yoe / 100 + doy;
    let days_num: u64 = era * 146097 + doe;
    if days_num < 719468 {
        let neg_days: u64 = 719468 - days_num;
        let day_secs: u64 = h * 3600 + mi * 60 + sec;
        if day_secs < neg_days * 86400 {
            0
        } else {
            day_secs - neg_days * 86400
        }
    } else {
        let days: u64 = days_num - 719468;
        days * 86400 + h * 3600 + mi * 60 + sec
    }
}

/// Reads the window timestamp of a time element.
fn time_value(tag: u8, c: &Vec<u8>) -> (r: Option<u64>)
    ensures
        match r {
            Some(v) => spec_time_value(tag, c@) == Some(v as int),
            None => spec_time_value(tag, c@) is None,
        },
{
    let (y, fpos): (u64, usize) = if tag == 23 {
        if c.len() != 13 || c[12] != 90 {
            return None;
        }
        match digits2(c, 0) {
            Some(yy) => (
                if yy < 50 {
                    2000 + yy
                } else {
                    1900 + yy
                },
                2,
            ),
            None => {
                return None;
            },
        }
    } else if tag == 24 {
        if c.len() != 15 || c[14] != 90 {
            return None;
        }
        match (digits2(c, 0), digits2(c, 2)) {
            (Some(hi), Some(lo)) => (hi * 100 + lo, 4),
            _ => {
                return None;
            },
        }
    } else {
        return None;
    };
    let mo = match digits2(c, fpos) {
        Some(v) => v,
        None => {
            return None;
        },
    };
    let d = match digits2(c, fpos + 2) {
        Some(v) => v,
        None => {
            return None;
        },
    };
    let h = match digits2(c, fpos + 4) {
        Some(v) => v,
        None => {
            return None;
        },
    };
    let mi = match digits2(c, fpos + 6) {
        Some(v) => v,
        None => {
            return None;
        },
    };
    let sec = match digits2(c, fpos + 8) {
        Some(v) => v,
        None => {
            return None;
        },
    };
    if 1582 <= y && y <= 9999 && 1 <= mo && mo <= 12 && 1 <= d && d <= 31 && h <= 23 && mi <= 59
        && sec <= 59 {
        Some(epoch_secs(y, mo, d, h, mi, sec))
    } else {
        None
    }
}

/// A copy of the byte span `[a, b)` of `s`.
fn sub_vec(s: &Vec<u8>, a: usize, b: usize) -> (r: Vec<u8>)
    requires
        a <= b <= s@.len(),
    ensures
        r@ == s@.subrange(a as int, b as int),
{
    let mut out: Vec<u8> = Vec::new();
    for i in a..b
        invariant
            a <= i <= b <= s@.len(),
            out@ == s@.subrange(a as int, i as int),
        decreases b - i,
    {
        out.push(s[i]);
        proof {
            assert(out@ =~= s@.subrange(a as int, i + 1));
        }
    }
    out
}

/// `n` zero bytes.
pub open spec fn spec_zeros(n: int) -> Seq<u8> {
    Seq::new(if n < 0 { 0 } else { n as nat }, |i: int| 0u8)
}

/// The content of an integer element with leading zero bytes removed.
pub open spec fn spec_strip_zeros(c: Seq<u8>) -> Seq<u8>
    decreases c.len(),
{
    if c.len() > 0 && c[0] == 0 {
        spec_strip_zeros(c.drop_first())
    } else {
        c
    }
}

/// A signature scalar as 48 fixed-width bytes: the integer content at
/// `[pos, pos+len)`, non-negative and at most 48 significant bytes,
/// left-padded with zeros.
pub open spec fn spec_int_48(der: Seq<u8>, pos: int, len: int) -> Option<Seq<u8>> {
    if len < 1 || pos < 0 || pos + len > der.len() {
        None
    } else if der[pos] >= 128 {
        None
    } else {
        let stripped = spec_strip_zeros(der.subrange(pos, pos + len));
        if stripped.len() > 48 {
            None
        } else {
            Some(spec_zeros(48 - stripped.len()) + stripped)
        }
    }
}

/// The two fixed-width scalars of a distinguished-encoded signature
/// spanning exactly `[pos, end)`.
pub open spec fn spec_sig_fixed(der: Seq<u8>, pos: int, end: int) -> Option<Seq<u8>> {
    match spec_der_header(der, pos) {
        Some((48u8, ss, sl)) => {
            if ss + sl != end {
                None
            } else {
                match spec_der_header(der, ss) {
                    Some((2u8, rs, rl)) => match spec_der_header(der, rs + rl) {
                        Some((2u8, ws, wl)) => {
                            if ws + wl != end {
                                None
                            } else {
                                match (spec_int_48(der, rs, rl), spec_int_48(der, ws, wl)) {
                                    (Some(rb), Some(sb)) => Some(rb + sb),
                                    _ => None,
                                }
                            }
                        },
                        _ => None,
                    },
                    _ => None,
                }
            }
        },
        _ => None,
    }
}

/// The basic-constraints content at `[pos, pos+len)`: the authority flag
/// and the optional path length.
pub open spec fn spec_parse_bc(der: Seq<u8>, pos: int, len: int) -> Option<(bool, Option<u64>)> {
    match spec_der_header(der, pos) {
        Some((48u8, bs, bl)) => {
            if bs + bl != pos + len {
                None
            } else if bl == 0 {
                Some((false, None))
            } else {
                match spec_der_header(der, bs) {
                    Some((1u8, cs, cl)) => {
                        if cl != 1 {
                            None
                        } else {
                            let ca = der[cs] != 0;
                            if cs + cl == bs + bl {
                                Some((ca, None))
                            } else {
                                match spec_der_header(der, cs + cl) {
                                    Some((2u8, is_, il)) => {
                                        if is_ + il == bs + bl && 1 <= il <= 8 {
                                            Some((ca, Some(spec_be_val(der, is_, il) as u64)))
                                        } else {
                                            None
                                        }
                                    },
                                    _ => None,
                                }
                            }
                        }
                    },
                    Some((2u8, is_, il)) => {
                        if is_ + il == bs + bl && 1 <= il <= 8 {
                            Some((false, Some(spec_be_val(der, is_, il) as u64)))
                        } else {
                            None
                        }
                    },
                    _ => None,
                }
            }
        },
        _ => None,
    }
}

/// Scans the extension list in `[pos, end)` for basic constraints; when
/// the extension is absent the certificate is not an authority.
pub open spec fn spec_find_bc(der: Seq<u8>, pos: int, end: int) -> Option<(bool, Option<u64>)>
    decreases end - pos,
{
    if pos >= end {
        Some((false, None))
    } else {
        match spec_der_header(der, pos) {
            Some((48u8, s, l)) => {
                if s + l > end || s + l <= pos {
                    None
                } else {
                    match spec_der_header(der, s) {
                        Some((6u8, os, ol)) => {
                            if ol == 3 && der[os] == 85 && der[os + 1] == 29 && der[os + 2] == 19 {
                                match spec_der_header(der, os + ol) {
                                    Some((tagq, qs, ql)) => {
                                        if tagq == 1 {
                                            match spec_der_header(der, qs + ql) {
                                                Some((4u8, vs, vl)) => spec_parse_bc(der, vs, vl),
                                                _ => None,
                                            }
                                        } else if tagq == 4 {
                                            spec_parse_bc(der, qs, ql)
                                        } else {
                                            None
                                        }
                                    },
                                    _ => None,
                                }
                            } else {
                                spec_find_bc(der, s + l, end)
                            }
                        },
                        _ => None,
                    }
                }
            },
            _ => None,
        }
    }
}

/// Scans the to-be-signed tail after the public key for the extensions
/// element, skipping the optional unique-identifier fields.
pub open spec fn spec_tbs_tail(der: Seq<u8>, pos: int, end: int) -> Option<(bool, Option<u64>)>
    decreases end - pos,
{
    if pos >= end {
        Some((false, None))
    } else {
        match spec_der_header(der, pos) {
            Some((tag, s, l)) => {
                if s + l > end || s + l <= pos {
                    None
                } else if tag == 163 {
                    if s + l != end {
                        None
                    } else {
                        match spec_der_header(der, s) {
                            Some((48u8, es, el)) => {
                                if es + el != end {
                                    None
                                } else {
                                    spec_find_bc(der, es, end)
                                }
                            },
                            _ => None,
                        }
                    }
                } else {
                    spec_tbs_tail(der, s + l, end)
                }
            },
            _ => None,
        }
    }
}

/// The certificate fields the validator reads, or nothing when the bytes
/// do not follow the grammar.  The single point of truth for parsing.
pub open spec fn spec_parse_cert(der: Seq<u8>) -> Option<SpecCertificate> {
    match spec_der_header(der, 0) {
        Some((48u8, cstart, clen)) => {
            if cstart + clen != der.len() {
                None
            } else {
                match spec_der_header(der, cstart) {
                    Some((48u8, tstart, tlen)) => {
                        let tbs_end = tstart + tlen;
                        match spec_der_header(der, tstart) {
                            Some((tag0, s0, l0)) => {
                                let serial_pos = if tag0 == 160 {
                                    s0 + l0
                                } else {
                                    tstart
                                };
                                match spec_der_header(der, serial_pos) {
                                    Some((2u8, s1, l1)) => match spec_der_header(der, s1 + l1) {
                                        Some((48u8, s2, l2)) => {
                                            let issuer_pos = s2 + l2;
                                            match spec_der_header(der, issuer_pos) {
                                                Some((48u8, s3, l3)) => {
                                                    let val_pos = s3 + l3;
                                                    match spec_der_header(der, val_pos) {
                                                        Some((48u8, s4, l4)) => spec_cert_rest(
                                                            der,
                                                            cstart,
                                                            tstart,
                                                            tbs_end,
                                                            issuer_pos,
                                                            s3 + l3,
                                                            s4,
                                                            l4,
                                                        ),
                                                        _ => None,
                                                    }
                                                },
                                                _ => None,
                                            }
                                        },
                                        _ => None,
                                    },
                                    _ => None,
                                }
                            },
                            _ => None,
                        }
                    },
                    _ => None,
                }
            }
        },
        _ => None,
    }
}

/// The rest of the grammar from the validity element on.
pub open spec fn spec_cert_rest(
    der: Seq<u8>,
    cstart: int,
    tstart: int,
    tbs_end: int,
    issuer_pos: int,
    issuer_end: int,
    s4: int,
    l4: int,
) -> Option<SpecCertificate> {
    match spec_der_header(der, s4) {
        Some((tagnb, s5, l5)) => match spec_time_value(tagnb, der.subrange(s5, s5 + l5)) {
            Some(nb) => match spec_der_header(der, s5 + l5) {
                Some((tagna, s6, l6)) => match spec_time_value(tagna, der.subrange(s6, s6 + l6)) {
                    Some(na) => {
                        if s6 + l6 != s4 + l4 || nb > u64::MAX || na > u64::MAX {
                            None
                        } else {
                            let subj_pos = s4 + l4;
                            match spec_der_header(der, subj_pos) {
                                Some((48u8, s7, l7)) => {
                                    let spki_pos = s7 + l7;
                                    match spec_der_header(der, spki_pos) {
                                        Some((48u8, s8, l8)) => match spec_der_header(der, s8) {
                                            Some((48u8, s9, l9)) => match spec_der_header(
                                                der,
                                                s9 + l9,
                                            ) {
                                                Some((3u8, s10, l10)) => {
                                                    if l10 < 2 || der[s10] != 0 || s10 + l10 != s8
                                                        + l8 {
                                                        None
                                                    } else {
                                                        spec_cert_tail(
                                                            der,
                                                            cstart,
                                                            tstart,
                                                            tbs_end,
                                                            issuer_pos,
                                                            issuer_end,
                                                            nb as u64,
                                                            na as u64,
                                                            subj_pos,
                                                            s7 + l7,
                                                            der.subrange(s10 + 1, s10 + l10),
                                                            s8 + l8,
                                                        )
                                                    }
                                                },
                                                _ => None,
                                            },
                                            _ => None,
                                        },
                                        _ => None,
                                    }
                                },
                                _ => None,
                            }
                        }
                    },
                    None => None,
                },
                _ => None,
            },
            None => None,
        },
        _ => None,
    }
}

/// The end of the grammar: extensions, the signature algorithm element
/// and the signature scalars.
pub open spec fn spec_cert_tail(
    der: Seq<u8>,
    cstart: int,
    tstart: int,
    tbs_end: int,
    issuer_pos: int,
    issuer_end: int,
    nb: u64,
    na: u64,
    subj_pos: int,
    subj_end: int,
    pub_key: Seq<u8>,
    tail_pos: int,
) -> Option<SpecCertificate> {
    match spec_tbs_tail(der, tail_pos, tbs_end) {
        Some((is_ca, path_len)) => match spec_der_header(der, tbs_end) {
            Some((48u8, sa, la)) => match spec_der_header(der, sa + la) {
                Some((3u8, bs2, bl2)) => {
                    if bl2 < 1 || der[bs2] != 0 {
                        None
                    } else {
                        match spec_sig_fixed(der, bs2 + 1, der.len() as int) {
                            Some(sig) => Some(
                                SpecCertificate {
                                    raw: der,
                                    tbs: der.subrange(cstart, tbs_end),
                                    issuer: der.subrange(issuer_pos, issuer_end),
                                    subject: der.subrange(subj_pos, subj_end),
                                    not_before: nb,
                                    not_after: na,
                                    pub_key: pub_key,
                                    is_ca: is_ca,
                                    path_len: path_len,
                                    sig: sig,
                                },
                            ),
                            None => None,
                        }
                    }
                },
                _ => None,
            },
            _ => None,
        },
        None => None,
    }
}

/// Leading zeros stripped is the suffix from the first non-zero byte.
proof fn lemma_strip_zeros_skip(c: Seq<u8>, k: int)
    requires
        0 <= k <= c.len(),
        forall|j: int| 0 <= j < k ==> c[j] == 0,
        k == c.len() || c[k] != 0,
    ensures
        spec_strip_zeros(c) == c.skip(k),
    decreases k,
{
    if k == 0 {
        assert(c.skip(0) =~= c);
    } else {
        assert(c[0] == 0);
        assert forall|j: int| 0 <= j < k - 1 implies c.drop_first()[j] == 0 by {
            assert(c.drop_first()[j] == c[j + 1]);
        }
        if k - 1 < c.drop_first().len() {
            assert(c.drop_first()[k - 1] == c[k]);
        }
        lemma_strip_zeros_skip(c.drop_first(), k - 1);
        assert(c.drop_first().skip(k - 1) =~= c.skip(k));
    }
}

/// Reads an integer element's content as 48 fixed-width bytes.
fn int_48(der: &Vec<u8>, pos: usize, len: usize) -> (r: Option<Vec<u8>>)
    ensures
        match r {
            Some(v) => spec_int_48(der@, pos as int, len as int) == Some(v@),
            None => spec_int_48(der@, pos as int, len as int) is None,
        },
{
    proof {
        vstd::std_specs::vec::axiom_spec_len(der);
    }
    if len < 1 || pos > der.len() || len > der.len() - pos {
        return None;
    }
    if der[pos] >= 128 {
        return None;
    }
    let mut k: usize = 0;
    while k < len && der[pos + k] == 0
        invariant
            k <= len,
            pos + len <= der@.len(),
            der@.len() <= usize::MAX,
            forall|j: int| 0 <= j < k ==> der@[#[trigger] (pos + j)] == 0,
        decreases len - k,
    {
        k = k + 1;
    }
    proof {
        let c = der@.subrange(pos as int, pos + len);
        assert forall|j: int| 0 <= j < k implies c[j] == 0 by {
            assert(c[j] == der@[pos + j]);
        }
        if (k as int) < c.len() {
            assert(c[k as int] == der@[pos + k]);
        }
        lemma_strip_zeros_skip(c, k as int);
    }
    let sig_len = len - k;
    if sig_len > 48 {
        return None;
    }
    let mut out: Vec<u8> = Vec::new();
    let pad = 48 - sig_len;
    for i in 0..pad
        invariant
            out@.len() == i,
            forall|j: int| 0 <= j < i ==> out@[j] == 0u8,
        decreases pad - i,
    {
        out.push(0);
    }
    for i in 0..sig_len
        invariant
            pad + sig_len == 48,
            k + sig_len == len,
            pos + len <= der@.len(),
            der@.len() <= usize::MAX,
            out@.len() == pad + i,
            forall|j: int| 0 <= j < pad ==> out@[j] == 0u8,
            forall|j: int| 0 <= j < i ==> out@[#[trigger] (pad + j)] == der@[pos + k + j],
        decreases sig_len - i,
    {
        out.push(der[pos + k + i]);
    }
    proof {
        let c = der@.subrange(pos as int, pos + len);
        let stripped = c.skip(k as int);
        assert(stripped.len() == sig_len);
        assert(out@.len() == 48);
        assert forall|j: int|
            0 <= j < 48 implies out@[j] == (spec_zeros(48 - stripped.len()) + stripped)[j] by {
            if j < pad {
                assert(out@[j] == 0u8);
                assert((spec_zeros(48 - stripped.len()) + stripped)[j] == 0u8);
            } else {
                let q = j - pad;
                assert(out@[#[trigger] (pad + q)] == der@[pos + k + q]);
                assert(stripped[q] == c[k + q]);
                assert(c[k + q] == der@[pos as int + (k + q)]);
                assert((spec_zeros(48 - stripped.len()) + stripped)[j] == stripped[q]);
            }
        }
        assert(out@ =~= spec_zeros(48 - stripped.len()) + stripped);
    }
    Some(out)
}

/// Reads the two fixed-width signature scalars.
fn sig_fixed(der: &Vec<u8>, pos: usize, end: usize) -> (r: Option<Vec<u8>>)
    requires
        end == der@.len(),
    ensures
        match r {
            Some(v) => spec_sig_fixed(der@, pos as int, end as int) == Some(v@),
            None => spec_sig_fixed(der@, pos as int, end as int) is None,
        },
{
    proof {
        vstd::std_specs::vec::axiom_spec_len(der);
    }
    let (t1, ss, sl) = match der_header(der, pos) {
        Some(h) => h,
        None => {
            return None;
        },
    };
    if t1 != 48 || ss + sl != end {
        return None;
    }
    let (t2, rs, rl) = match der_header(der, ss) {
        Some(h) => h,
        None => {
            return None;
        },
    };
    if t2 != 2 {
        return None;
    }
    let (t3, ws, wl) = match der_header(der, rs + rl) {
        Some(h) => h,
        None => {
            return None;
        },
    };
    if t3 != 2 || ws + wl != end {
        return None;
    }
    let rb = match int_48(der, rs, rl) {
        Some(v) => v,
        None => {
            return None;
        },
    };
    let mut sb = match int_48(der, ws, wl) {
        Some(v) => v,
        None => {
            return None;
        },
    };
    let mut out = rb;
    out.append(&mut sb);
    Some(out)
}

/// Reads the basic-constraints content.
fn parse_bc(der: &Vec<u8>, pos: usize, len: usize) -> (r: Option<(bool, Option<u64>)>)
    requires
        pos + len <= der@.len(),
    ensures
        r == spec_parse_bc(der@, pos as int, len as int),
{
    proof {
        reveal_with_fuel(spec_be_val, 9);
        vstd::std_specs::vec::axiom_spec_len(der);
    }
    let (t1, bs, bl) = match der_header(der, pos) {
        Some(h) => h,
        None => {
            return None;
        },
    };
    if t1 != 48 || bs + bl != pos + len {
        return None;
    }
    if bl == 0 {
        return Some((false, None));
    }
    let (t2, cs, cl) = match der_header(der, bs) {
        Some(h) => h,
        None => {
            return None;
        },
    };
    if t2 == 1 {
        if cl != 1 {
            return None;
        }
        let ca = der[cs] != 0;
        if cs + cl == bs + bl {
            return Some((ca, None));
        }
        let (t3, is_, il) = match der_header(der, cs + cl) {
            Some(h) => h,
            None => {
                return None;
            },
        };
        if t3 == 2 && is_ + il == bs + bl && 1 <= il && il <= 8 {
            let v = read_int_u64(der, is_, il);
            Some((ca, Some(v)))
        } else {
            None
        }
    } else if t2 == 2 {
        if cs + cl == bs + bl && 1 <= cl && cl <= 8 {
            let v = read_int_u64(der, cs, cl);
            Some((false, Some(v)))
        } else {
            None
        }
    } else {
        None
    }
}

/// Reads up to eight big-endian bytes as an unsigned integer.
fn read_int_u64(der: &Vec<u8>, pos: usize, w: usize) -> (r: u64)
    requires
        pos + w <= der@.len(),
        1 <= w <= 8,
    ensures
        r == spec_be_val(der@, pos as int, w as int) as u64,
{
    let total = der.len();
    let mut acc: u64 = 0;
    let mut k: usize = 0;
    while k < w
        invariant
            k <= w,
            w <= 8,
            pos + w <= der@.len(),
            der@.len() == total,
            acc == spec_be_val(der@, pos as int, k as int),
            acc < spec_pow256(k as int),
        decreases w - k,
    {
        proof {
            lemma_be_val_nonneg(der@, pos as int, k as int);
            crate::encode::lemma_pow256_vals();
            reveal_with_fuel(spec_pow256, 9);
            assert(acc * 256 + 255 < spec_pow256(k + 1));
            if k == 0 {
            } else if k == 1 {
            } else if k == 2 {
            } else if k == 3 {
            } else if k == 4 {
            } else if k == 5 {
            } else if k == 6 {
            } else {
                assert(k == 7);
            }
            assert(spec_pow256(k + 1) <= 18446744073709551616);
        }
        acc = acc * 256 + (der[pos + k] as u64);
        k = k + 1;
    }
    proof {
        lemma_be_val_nonneg(der@, pos as int, w as int);
        assert(spec_be_val(der@, pos as int, w as int) as u64 == acc);
    }
    acc
}

/// Scans the extension list for basic constraints.
fn find_bc(der: &Vec<u8>, pos: usize, end: usize) -> (r: Option<(bool, Option<u64>)>)
    requires
        end <= der@.len(),
    ensures
        r == spec_find_bc(der@, pos as int, end as int),
    decreases der@.len() - pos,
{
    proof {
        vstd::std_specs::vec::axiom_spec_len(der);
    }
    if pos >= end {
        return Some((false, None));
    }
    let (t1, st, l) = match der_header(der, pos) {
        Some(h) => h,
        None => {
            return None;
        },
    };
    if t1 != 48 || st + l > end {
        return None;
    }
    let (t2, os, ol) = match der_header(der, st) {
        Some(h) => h,
        None => {
            return None;
        },
    };
    if t2 != 6 {
        return None;
    }
    if ol == 3 && der[os] == 85 && der[os + 1] == 29 && der[os + 2] == 19 {
        let (tagq, qs, ql) = match der_header(der, os + ol) {
            Some(h) => h,
            None => {
                return None;
            },
        };
        if tagq == 1 {
            let (t4, vs, vl) = match der_header(der, qs + ql) {
                Some(h) => h,
                None => {
                    return None;
                },
            };
            if t4 == 4 {
                parse_bc(der, vs, vl)
            } else {
                None
            }
        } else if tagq == 4 {
            parse_bc(der, qs, ql)
        } else {
            None
        }
    } else {
        find_bc(der, st + l, end)
    }
}

/// Scans the to-be-signed tail for the extensions element.
fn tbs_tail(der: &Vec<u8>, pos: usize, end: usize) -> (r: Option<(bool, Option<u64>)>)
    requires
        end <= der@.len(),
    ensures
        r == spec_tbs_tail(der@, pos as int, end as int),
    decreases der@.len() - pos,
{
    proof {
        vstd::std_specs::vec::axiom_spec_len(der);
    }
    if pos >= end {
        return Some((false, None));
    }
    let (tag, st, l) = match der_header(der, pos) {
        Some(h) => h,
        None => {
            return None;
        },
    };
    if st + l > end {
        return None;
    }
    if tag == 163 {
        if st + l != end {
            return None;
        }
        let (t2, es, el) = match der_header(der, st) {
            Some(h) => h,
            None => {
                return None;
            },
        };
        if t2 == 48 && es + el == end {
            find_bc(der, es, end)
        } else {
            None
        }
    } else {
        tbs_tail(der, st + l, end)
    }
}

/// Parses a certificate, returning exactly the fields the grammar names
/// or nothing when the bytes do not follow it.
#[verifier::rlimit(80)]
pub fn parse_certificate(der: &Vec<u8>) -> (r: Option<Certificate>)
    ensures
        match r {
            Some(c) => spec_parse_cert(der@) == Some(c@),
            None => spec_parse_cert(der@) is None,
        },
{
    proof {
        vstd::std_specs::vec::axiom_spec_len(der);
    }
    let (t0, cstart, clen) = match der_header(der, 0) {
        Some(h) => h,
        None => {
            return None;
        },
    };
    if t0 != 48 || cstart + clen != der.len() {
        return None;
    }
    let (tt, tstart, tlen) = match der_header(der, cstart) {
        Some(h) => h,
        None => {
            return None;
        },
    };
    if tt != 48 {
        return None;
    }
    let tbs_end = tstart + tlen;
    let (tag0, s0, l0) = match der_header(der, tstart) {
        Some(h) => h,
        None => {
            return None;
        },
    };
    let serial_pos = if tag0 == 160 {
        s0 + l0
    } else {
        tstart
    };
    let (ts, s1, l1) = match der_header(der, serial_pos) {
        Some(h) => h,
        None => {
            return None;
        },
    };
    if ts != 2 {
        return None;
    }
    let (ta, s2, l2) = match der_header(der, s1 + l1) {
        Some(h) => h,
        None => {
            return None;
        },
    };
    if ta != 48 {
        return None;
    }
    let issuer_pos = s2 + l2;
    let (ti, s3, l3) = match der_header(der, issuer_pos) {
        Some(h) => h,
        None => {
            return None;
        },
    };
    if ti != 48 {
        return None;
    }
    let val_pos = s3 + l3;
    let (tv, s4, l4) = match der_header(der, val_pos) {
        Some(h) => h,
        None => {
            return None;
        },
    };
    if tv != 48 {
        return None;
    }
    let (tagnb, s5, l5) = match der_header(der, s4) {
        Some(h) => h,
        None => {
            return None;
        },
    };
    let nb = match time_value(tagnb, &sub_vec(der, s5, s5 + l5)) {
        Some(v) => v,
        None => {
            return None;
        },
    };
    let (tagna, s6, l6) = match der_header(der, s5 + l5) {
        Some(h) => h,
        None => {
            return None;
        },
    };
    let na = match time_value(tagna, &sub_vec(der, s6, s6 + l6)) {
        Some(v) => v,
        None => {
            return None;
        },
    };
    if s6 + l6 != s4 + l4 {
        return None;
    }
    let subj_pos = s4 + l4;
    let (tsu, s7, l7) = match der_header(der, subj_pos) {
        Some(h) => h,
        None => {
            return None;
        },
    };
    if tsu != 48 {
        return None;
    }
    let spki_pos = s7 + l7;
    let (tsp, s8, l8) = match der_header(der, spki_pos) {
        Some(h) => h,
        None => {
            return None;
        },
    };
    if tsp != 48 {
        return None;
    }
    let (tal, s9, l9) = match der_header(der, s8) {
        Some(h) => h,
        None => {
            return None;
        },
    };
    if tal != 48 {
        return None;
    }
    let (tbi, s10, l10) = match der_header(der, s9 + l9) {
        Some(h) => h,
        None => {
            return None;
        },
    };
    if tbi != 3 || l10 < 2 || der[s10] != 0 || s10 + l10 != s8 + l8 {
        return None;
    }
    let pub_key = sub_vec(der, s10 + 1, s10 + l10);
    let (is_ca, path_len) = match tbs_tail(der, s8 + l8, tbs_end) {
        Some(p) => p,
        None => {
            return None;
        },
    };
    let (tsa, sa, la) = match der_header(der, tbs_end) {
        Some(h) => h,
        None => {
            return None;
        },
    };
    if tsa != 48 {
        return None;
    }
    let (tbs2, bs2, bl2) = match der_header(der, sa + la) {
        Some(h) => h,
        None => {
            return None;
        },
    };
    if tbs2 != 3 || bl2 < 1 || der[bs2] != 0 {
        return None;
    }
    let sig = match sig_fixed(der, bs2 + 1, der.len()) {
        Some(v) => v,
        None => {
            return None;
        },
    };
    Some(
        Certificate {
            raw: sub_vec(der, 0, der.len()),
            tbs: sub_vec(der, cstart, tbs_end),
            issuer: sub_vec(der, issuer_pos, s3 + l3),
            subject: sub_vec(der, subj_pos, s7 + l7),
            not_before: nb,
            not_after: na,
            pub_key: pub_key,
            is_ca: is_ca,
            path_len: path_len,
            sig: sig,
        },
    )
}

} // verus!

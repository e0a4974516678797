//! Serialization: the wire form of a frame, as mathematics and as code.
//!
//! `serial` is the canonical byte sequence of a well-formed frame model.
//! [`Frame::serialize`] produces exactly those bytes for well-formed frames
//! and fails with `InvalidFrame` on every frame that `frame_ok` rejects.

use crate::dec::{dec_int, dec_nat, push_dec_i64, push_dec_u64};
use crate::error::RedisError;
use crate::frame::{
    all_digits, frame_ok, frame_views, frame_views_index, frame_views_len, frames_ok,
    is_digit_byte, is_float_lit, no_crlf, pair_views, pair_views_index, pair_views_len, pairs_ok,
    DoubleVal, DoubleValue, Frame, FrameVal,
};
use vstd::prelude::*;

verus! {

broadcast use {crate::frame::frame_views_len, crate::frame::pair_views_len};

/// The aggregate frame value for a marker byte.
pub open spec fn agg_val(marker: u8, cs: Seq<FrameVal>) -> FrameVal {
    if marker == 42u8 {
        FrameVal::Array(cs)
    } else if marker == 126u8 {
        FrameVal::SetFrame(cs)
    } else {
        FrameVal::Push(cs)
    }
}

/// The two-byte frame terminator.
pub open spec fn crlf() -> Seq<u8> {
    seq![13u8, 10u8]
}

/// The wire text of a double payload.
pub open spec fn double_text(d: DoubleVal) -> Seq<u8> {
    match d {
        DoubleVal::Nan => seq![110u8, 97u8, 110u8],
        DoubleVal::Inf => seq![105u8, 110u8, 102u8],
        DoubleVal::NegInf => seq![45u8, 105u8, 110u8, 102u8],
        DoubleVal::Finite(t) => t,
    }
}

/// The canonical wire form of a frame model.
pub open spec fn serial(v: FrameVal) -> Seq<u8>
    decreases v,
{
    match v {
        FrameVal::SimpleString(s) => seq![43u8] + s + crlf(),
        FrameVal::SimpleError(s) => seq![45u8] + s + crlf(),
        FrameVal::Integer(n) => seq![58u8] + dec_int(n) + crlf(),
        FrameVal::BulkString(p) => seq![36u8] + dec_nat(p.len() as int) + crlf() + p + crlf(),
        FrameVal::Array(cs) => seq![42u8] + dec_nat(cs.len() as int) + crlf() + serial_seq(cs),
        FrameVal::Null => seq![95u8] + crlf(),
        FrameVal::Boolean(b) => seq![35u8] + (if b {
            seq![116u8]
        } else {
            seq![102u8]
        }) + crlf(),
        FrameVal::Double(d) => seq![44u8] + double_text(d) + crlf(),
        FrameVal::BigNumber { negative, digits } => seq![40u8] + (if negative {
            seq![45u8]
        } else {
            Seq::empty()
        }) + digits + crlf(),
        FrameVal::BulkError(p) => seq![33u8] + dec_nat(p.len() as int) + crlf() + p + crlf(),
        FrameVal::VerbatimString(e, p) => seq![61u8] + dec_nat(p.len() as int + 4) + crlf() + e
            + seq![58u8] + p + crlf(),
        FrameVal::MapFrame(ps) => seq![37u8] + dec_nat(ps.len() as int) + crlf()
            + serial_pairs(ps),
        FrameVal::SetFrame(cs) => seq![126u8] + dec_nat(cs.len() as int) + crlf() + serial_seq(cs),
        FrameVal::Push(cs) => seq![62u8] + dec_nat(cs.len() as int) + crlf() + serial_seq(cs),
    }
}

/// The concatenated wire forms of a sequence of frames.
pub open spec fn serial_seq(s: Seq<FrameVal>) -> Seq<u8>
    decreases s,
{
    if s.len() == 0 {
        Seq::empty()
    } else {
        serial(s[0]) + serial_seq(s.subrange(1, s.len() as int))
    }
}

/// The concatenated wire forms of a sequence of key-value pairs.
pub open spec fn serial_pairs(s: Seq<(FrameVal, FrameVal)>) -> Seq<u8>
    decreases s,
{
    if s.len() == 0 {
        Seq::empty()
    } else {
        serial(s[0].0) + serial(s[0].1) + serial_pairs(s.subrange(1, s.len() as int))
    }
}

pub proof fn lemma_serial_seq_push(s: Seq<FrameVal>, v: FrameVal)
    ensures
        serial_seq(s.push(v)) == serial_seq(s) + serial(v),
    decreases s,
{
    if s.len() == 0 {
        assert(s.push(v)[0] == v);
        assert(s.push(v).subrange(1, 1) =~= s);
        assert(serial_seq(s.push(v)) =~= serial_seq(s) + serial(v));
    } else {
        assert(s.push(v).subrange(1, s.len() as int + 1) =~= s.subrange(1, s.len() as int).push(v));
        lemma_serial_seq_push(s.subrange(1, s.len() as int), v);
        assert(s.push(v)[0] == s[0]);
        assert(serial_seq(s.push(v)) =~= serial_seq(s) + serial(v));
    }
}

pub proof fn lemma_serial_pairs_push(s: Seq<(FrameVal, FrameVal)>, k: FrameVal, w: FrameVal)
    ensures
        serial_pairs(s.push((k, w))) == serial_pairs(s) + serial(k) + serial(w),
    decreases s,
{
    if s.len() == 0 {
        assert(s.push((k, w)).subrange(1, 1) =~= s);
        assert(serial_pairs(s.push((k, w))) =~= serial_pairs(s) + serial(k) + serial(w));
    } else {
        assert(s.push((k, w)).subrange(1, s.len() as int + 1) =~= s.subrange(
            1,
            s.len() as int,
        ).push((k, w)));
        lemma_serial_pairs_push(s.subrange(1, s.len() as int), k, w);
        assert(s.push((k, w))[0] == s[0]);
        assert(serial_pairs(s.push((k, w))) =~= serial_pairs(s) + serial(k) + serial(w));
    }
}

pub proof fn lemma_frames_ok_push(s: Seq<FrameVal>, v: FrameVal)
    ensures
        frames_ok(s.push(v)) == (frames_ok(s) && frame_ok(v)),
    decreases s,
{
    if s.len() == 0 {
        assert(s.push(v)[0] == v);
        assert(s.push(v).subrange(1, 1) =~= s);
    } else {
        assert(s.push(v).subrange(1, s.len() as int + 1) =~= s.subrange(1, s.len() as int).push(v));
        lemma_frames_ok_push(s.subrange(1, s.len() as int), v);
        assert(s.push(v)[0] == s[0]);
    }
}

pub proof fn lemma_pairs_ok_push(s: Seq<(FrameVal, FrameVal)>, k: FrameVal, w: FrameVal)
    ensures
        pairs_ok(s.push((k, w))) == (pairs_ok(s) && frame_ok(k) && frame_ok(w)),
    decreases s,
{
    if s.len() == 0 {
        assert(s.push((k, w)).subrange(1, 1) =~= s);
        assert(s.push((k, w))[0] == (k, w));
    } else {
        assert(s.push((k, w)).subrange(1, s.len() as int + 1) =~= s.subrange(
            1,
            s.len() as int,
        ).push((k, w)));
        lemma_pairs_ok_push(s.subrange(1, s.len() as int), k, w);
        assert(s.push((k, w))[0] == s[0]);
    }
}

/// Every frame of a well-formed sequence is well-formed.
pub proof fn lemma_frames_ok_index(s: Seq<FrameVal>, i: int)
    requires
        frames_ok(s),
        0 <= i < s.len(),
    ensures
        frame_ok(s[i]),
    decreases s,
{
    if i > 0 {
        lemma_frames_ok_index(s.subrange(1, s.len() as int), i - 1);
    }
}

/// Every frame of a well-formed sequence of pairs is well-formed.
pub proof fn lemma_pairs_ok_index(s: Seq<(FrameVal, FrameVal)>, i: int)
    requires
        pairs_ok(s),
        0 <= i < s.len(),
    ensures
        frame_ok(s[i].0),
        frame_ok(s[i].1),
    decreases s,
{
    if i > 0 {
        lemma_pairs_ok_index(s.subrange(1, s.len() as int), i - 1);
    }
}

/// Appends all bytes of `s` to `out`.
pub(crate) fn push_bytes(out: &mut Vec<u8>, s: &Vec<u8>)
    ensures
        final(out)@ == old(out)@ + s@,
{
    let mut i: usize = 0;
    while i < s.len()
        invariant
            i <= s.len(),
            out@ == old(out)@ + s@.subrange(0, i as int),
        decreases s.len() - i,
    {
        out.push(s[i]);
        proof {
            assert(s@.subrange(0, i + 1) =~= s@.subrange(0, i as int).push(s@[i as int]));
            assert(out@ =~= old(out)@ + s@.subrange(0, i + 1));
        }
        i = i + 1;
    }
    proof {
        assert(s@.subrange(0, s@.len() as int) =~= s@);
    }
}

/// Appends the terminator to `out`.
fn push_crlf(out: &mut Vec<u8>)
    ensures
        final(out)@ == old(out)@ + crlf(),
{
    out.push(13u8);
    out.push(10u8);
    proof {
        assert(out@ =~= old(out)@ + crlf());
    }
}

/// True when `s` holds a CR or LF byte.
fn has_crlf(s: &Vec<u8>) -> (r: bool)
    ensures
        r == !no_crlf(s@),
{
    let mut i: usize = 0;
    while i < s.len()
        invariant
            i <= s.len(),
            forall|j: int| 0 <= j < i ==> s@[j] != 13u8 && s@[j] != 10u8,
        decreases s.len() - i,
    {
        if s[i] == 13u8 || s[i] == 10u8 {
            return true;
        }
        i = i + 1;
    }
    false
}

/// True when every byte of `s[from..to]` is an ASCII digit.
pub(crate) fn all_digit_range(s: &Vec<u8>, from: usize, to: usize) -> (r: bool)
    requires
        from <= to <= s@.len(),
    ensures
        r == all_digits(s@.subrange(from as int, to as int)),
{
    let ghost part = s@.subrange(from as int, to as int);
    let mut i: usize = from;
    while i < to
        invariant
            from <= i <= to <= s@.len(),
            part == s@.subrange(from as int, to as int),
            forall|j: int| from <= j < i ==> is_digit_byte(#[trigger] s@[j]),
        decreases to - i,
    {
        let b = s[i];
        if b < 48u8 || b > 57u8 {
            assert(part[i - from] == s@[i as int]);
            return false;
        }
        i = i + 1;
    }
    assert forall|j: int| 0 <= j < part.len() implies is_digit_byte(#[trigger] part[j]) by {
        assert(part[j] == s@[from + j]);
    }
    true
}

/// True when `s[from..to]` is a mantissa: digits with at most one dot and at
/// least one character besides a lone dot.
fn mantissa_range(s: &Vec<u8>, from: usize, to: usize) -> (r: bool)
    requires
        from <= to <= s@.len(),
    ensures
        r == crate::frame::float_mantissa(s@.subrange(from as int, to as int)),
{
    let ghost part = s@.subrange(from as int, to as int);
    // scan for the first dot
    let mut i: usize = from;
    while i < to
        invariant
            from <= i <= to <= s@.len(),
            forall|j: int| from <= j < i ==> s@[j] != 46u8,
        ensures
            from <= i <= to <= s@.len(),
            forall|j: int| from <= j < i ==> s@[j] != 46u8,
            i < to ==> s@[i as int] == 46u8,
        decreases to - i,
    {
        if s[i] == 46u8 {
            break;
        }
        i = i + 1;
    }
    if i == to {
        // no dot: a nonempty run of digits
        let r = to > from && all_digit_range(s, from, to);
        proof {
            if r {
                assert(part.len() > 0 && all_digits(part));
            } else {
                assert(!(part.len() > 0 && all_digits(part)));
                assert forall|k: int| !crate::frame::mantissa_split_at(part, k) by {
                    if 0 <= k < part.len() {
                        assert(part[k] == s@[from + k]);
                    }
                }
            }
        }
        return r;
    }
    // first dot at i
    let ghost d = i - from;
    assert(part[d as int] == 46u8);
    let left = all_digit_range(s, from, i);
    let right = all_digit_range(s, i + 1, to);
    let r = (to - from > 1) && left && right;
    proof {
        assert(part.subrange(0, d as int) =~= s@.subrange(from as int, i as int));
        assert(part.subrange(d + 1, part.len() as int) =~= s@.subrange(i + 1, to as int));
        if r {
            assert(crate::frame::mantissa_split_at(part, d as int));
        } else {
            // the first disjunct fails: the dot is not a digit
            assert(!is_digit_byte(part[d as int]));
            // any dot witness k has k >= d, and for k > d the left part of the
            // split contains either the dot at d or the offending byte
            assert forall|k: int| !crate::frame::mantissa_split_at(part, k) by {
                if 0 <= k < part.len() && part[k] == 46u8 && part.len() > 1 {
                    assert(part[k] == s@[from + k]);
                    assert(k >= d);
                    if k == d {
                        assert(!(all_digits(part.subrange(0, k)) && all_digits(
                            part.subrange(k + 1, part.len() as int),
                        )));
                    } else {
                        assert(part.subrange(0, k)[d as int] == part[d as int]);
                        assert(!is_digit_byte(part.subrange(0, k)[d as int]));
                    }
                }
            }
        }
    }
    r
}

/// True when `s[from..to]` is an exponent: an optional sign then digits.
fn exponent_range(s: &Vec<u8>, from: usize, to: usize) -> (r: bool)
    requires
        from <= to <= s@.len(),
    ensures
        r == crate::frame::float_exponent(s@.subrange(from as int, to as int)),
{
    let ghost part = s@.subrange(from as int, to as int);
    if to > from && (s[from] == 43u8 || s[from] == 45u8) {
        assert(part[0] == s@[from as int]);
        let r = to - from > 1 && all_digit_range(s, from + 1, to);
        proof {
            assert(part.subrange(1, part.len() as int) =~= s@.subrange(from + 1, to as int));
        }
        r
    } else {
        let r = to > from && all_digit_range(s, from, to);
        proof {
            if to > from {
                assert(part[0] == s@[from as int]);
            }
        }
        r
    }
}

/// True when `t` is a finite double literal.
pub(crate) fn check_float_lit(t: &Vec<u8>) -> (r: bool)
    ensures
        r == is_float_lit(t@),
{
    let n = t.len();
    let start: usize = if n > 0 && (t[0] == 43u8 || t[0] == 45u8) {
        1
    } else {
        0
    };
    let ghost body = crate::frame::strip_sign(t@);
    assert(body =~= t@.subrange(start as int, n as int));
    // scan for the first exponent marker
    let mut i: usize = start;
    while i < n
        invariant
            start <= i <= n == t@.len(),
            forall|j: int| start <= j < i ==> t@[j] != 101u8 && t@[j] != 69u8,
        ensures
            start <= i <= n == t@.len(),
            forall|j: int| start <= j < i ==> t@[j] != 101u8 && t@[j] != 69u8,
            i < n ==> (t@[i as int] == 101u8 || t@[i as int] == 69u8),
        decreases n - i,
    {
        if t[i] == 101u8 || t[i] == 69u8 {
            break;
        }
        i = i + 1;
    }
    if i == n {
        // no exponent marker anywhere
        let r = mantissa_range(t, start, n);
        proof {
            if !r {
                assert forall|j: int| !crate::frame::float_split_at(body, j) by {
                    if 0 <= j < body.len() {
                        assert(body[j] == t@[start + j]);
                    }
                }
            }
        }
        return r;
    }
    // first marker at i
    let ghost e = i - start;
    assert(body[e as int] == t@[i as int]);
    let left = mantissa_range(t, start, i);
    let right = exponent_range(t, i + 1, n);
    let r = left && right;
    proof {
        assert(body.subrange(0, e as int) =~= t@.subrange(start as int, i as int));
        assert(body.subrange(e + 1, body.len() as int) =~= t@.subrange(i + 1, n as int));
        if r {
            assert(crate::frame::float_split_at(body, e as int));
            crate::frame::lemma_is_float_lit_from_split(t@, e as int);
        } else {
            // a mantissa holds only digits and a dot, so the marker at e rules
            // out both the markerless disjunct and any later split point
            assert(!crate::frame::float_mantissa(body)) by {
                lemma_mantissa_no_marker(body, e as int);
            }
            assert forall|j: int| !crate::frame::float_split_at(body, j) by {
                if 0 <= j < body.len() && (body[j] == 101u8 || body[j] == 69u8) {
                    assert(body[j] == t@[start + j]);
                    assert(j >= e);
                    if j > e {
                        assert(body.subrange(0, j)[e as int] == body[e as int]);
                        lemma_mantissa_no_marker(body.subrange(0, j), e as int);
                    }
                }
            }
        }
    }
    r
}

/// A mantissa never holds an exponent marker.
proof fn lemma_mantissa_no_marker(s: Seq<u8>, e: int)
    requires
        0 <= e < s.len(),
        s[e] == 101u8 || s[e] == 69u8,
    ensures
        !crate::frame::float_mantissa(s),
{
    if s.len() > 0 && all_digits(s) {
        assert(is_digit_byte(s[e]));
    }
    assert forall|k: int| !crate::frame::mantissa_split_at(s, k) by {
        if 0 <= k < s.len() && s[k] == 46u8 && all_digits(s.subrange(0, k)) && all_digits(
            s.subrange(k + 1, s.len() as int),
        ) {
            if e < k {
                assert(s.subrange(0, k)[e] == s[e]);
            } else if e > k {
                assert(s.subrange(k + 1, s.len() as int)[e - k - 1] == s[e]);
            }
        }
    }
}

impl Frame {
    /// Serializes the frame into a byte vector.
    ///
    /// Succeeds with the canonical wire bytes exactly when the frame is
    /// well-formed; a frame that `frame_ok` rejects (such as a simple string
    /// holding CR or LF) yields `InvalidFrame`.
    pub fn serialize(&self) -> (r: Result<Vec<u8>, RedisError>)
        ensures
            frame_ok(self@) ==> (r matches Ok(b) && b@ == serial(self@)),
            !frame_ok(self@) ==> (r matches Err(RedisError::InvalidFrame)),
    {
        let mut out: Vec<u8> = Vec::new();
        match self.write_to(&mut out) {
            Ok(()) => Ok(out),
            Err(e) => Err(e),
        }
    }

    /// Appends the wire form of the frame to `out`, or reports the frame
    /// invalid and leaves `out` in an unspecified state.
    #[verifier::rlimit(80)]
    fn write_to(&self, out: &mut Vec<u8>) -> (r: Result<(), RedisError>)
        ensures
            (r is Ok) == frame_ok(self@),
            r is Ok ==> final(out)@ == old(out)@ + serial(self@),
            r is Err ==> (r matches Err(RedisError::InvalidFrame)),
        decreases *self,
    {
        match self {
            Frame::SimpleString(s) => {
                if has_crlf(s) {
                    return Err(RedisError::InvalidFrame);
                }
                out.push(43u8);
                push_bytes(out, s);
                push_crlf(out);
                proof {
                    assert(out@ =~= old(out)@ + serial(self@));
                }
                Ok(())
            },
            Frame::SimpleError(s) => {
                if has_crlf(s) {
                    return Err(RedisError::InvalidFrame);
                }
                out.push(45u8);
                push_bytes(out, s);
                push_crlf(out);
                proof {
                    assert(out@ =~= old(out)@ + serial(self@));
                }
                Ok(())
            },
            Frame::Integer(n) => {
                out.push(58u8);
                push_dec_i64(*n, out);
                push_crlf(out);
                proof {
                    assert(out@ =~= old(out)@ + serial(self@));
                }
                Ok(())
            },
            Frame::BulkString(p) => {
                if p.len() as u64 > i64::MAX as u64 {
                    return Err(RedisError::InvalidFrame);
                }
                out.push(36u8);
                push_dec_u64(p.len() as u64, out);
                push_crlf(out);
                push_bytes(out, p);
                push_crlf(out);
                proof {
                    assert(out@ =~= old(out)@ + serial(self@));
                }
                Ok(())
            },
            Frame::BulkError(p) => {
                if p.len() as u64 > i64::MAX as u64 {
                    return Err(RedisError::InvalidFrame);
                }
                out.push(33u8);
                push_dec_u64(p.len() as u64, out);
                push_crlf(out);
                push_bytes(out, p);
                push_crlf(out);
                proof {
                    assert(out@ =~= old(out)@ + serial(self@));
                }
                Ok(())
            },
            Frame::Null => {
                out.push(95u8);
                push_crlf(out);
                proof {
                    assert(out@ =~= old(out)@ + serial(self@));
                }
                Ok(())
            },
            Frame::Boolean(b) => {
                out.push(35u8);
                if *b {
                    out.push(116u8);
                } else {
                    out.push(102u8);
                }
                push_crlf(out);
                proof {
                    assert(out@ =~= old(out)@ + serial(self@));
                }
                Ok(())
            },
            Frame::Double(d) => {
                match d {
                    DoubleValue::Nan => {
                        out.push(44u8);
                        out.push(110u8);
                        out.push(97u8);
                        out.push(110u8);
                        push_crlf(out);
                    },
                    DoubleValue::Inf => {
                        out.push(44u8);
                        out.push(105u8);
                        out.push(110u8);
                        out.push(102u8);
                        push_crlf(out);
                    },
                    DoubleValue::NegInf => {
                        out.push(44u8);
                        out.push(45u8);
                        out.push(105u8);
                        out.push(110u8);
                        out.push(102u8);
                        push_crlf(out);
                    },
                    DoubleValue::Finite(t) => {
                        if !check_float_lit(t) {
                            return Err(RedisError::InvalidFrame);
                        }
                        out.push(44u8);
                        push_bytes(out, t);
                        push_crlf(out);
                    },
                }
                proof {
                    assert(out@ =~= old(out)@ + serial(self@));
                }
                Ok(())
            },
            Frame::BigNumber(b) => {
                if b.digits.len() == 0 || !all_digit_range(&b.digits, 0, b.digits.len()) {
                    proof {
                        assert(b.digits@.subrange(0, b.digits@.len() as int) =~= b.digits@);
                    }
                    return Err(RedisError::InvalidFrame);
                }
                proof {
                    assert(b.digits@.subrange(0, b.digits@.len() as int) =~= b.digits@);
                }
                out.push(40u8);
                if b.negative {
                    out.push(45u8);
                }
                push_bytes(out, &b.digits);
                push_crlf(out);
                proof {
                    assert(out@ =~= old(out)@ + serial(self@));
                }
                Ok(())
            },
            Frame::VerbatimString(e, p) => {
                if e.len() != 3 {
                    return Err(RedisError::InvalidFrame);
                }
                if p.len() as u64 > i64::MAX as u64 - 4 {
                    return Err(RedisError::InvalidFrame);
                }
                out.push(61u8);
                push_dec_u64(p.len() as u64 + 4, out);
                push_crlf(out);
                push_bytes(out, e);
                out.push(58u8);
                push_bytes(out, p);
                push_crlf(out);
                proof {
                    assert(out@ =~= old(out)@ + serial(self@));
                }
                Ok(())
            },
            Frame::Array(cs) => {
                let r = write_items(out, cs, 42u8);
                proof {
                    assert(self@ == agg_val(42u8, frame_views(cs@)));
                }
                r
            },
            Frame::SetFrame(cs) => {
                let r = write_items(out, cs, 126u8);
                proof {
                    assert(self@ == agg_val(126u8, frame_views(cs@)));
                }
                r
            },
            Frame::Push(cs) => {
                let r = write_items(out, cs, 62u8);
                proof {
                    assert(self@ == agg_val(62u8, frame_views(cs@)));
                }
                r
            },
            Frame::MapFrame(ps) => {
                if ps.len() as u64 > i64::MAX as u64 {
                    proof {
                        pair_views_len(ps@);
                        assert(!frame_ok(self@));
                    }
                    return Err(RedisError::InvalidFrame);
                }
                out.push(37u8);
                push_dec_u64(ps.len() as u64, out);
                push_crlf(out);
                let r = write_pairs(out, ps);
                if r.is_err() {
                    return Err(RedisError::InvalidFrame);
                }
                proof {
                    assert(pairs_ok(pair_views(ps@)));
                    assert(pair_views(ps@).len() <= i64::MAX);
                    assert(frame_ok(self@));
                    assert(out@ =~= old(out)@ + serial(self@));
                }
                Ok(())
            },
        }
    }

}

/// Appends the wire form of an aggregate frame holding `cs` under `marker`.
fn write_items(out: &mut Vec<u8>, cs: &Vec<Frame>, marker: u8) -> (r: Result<(), RedisError>)
    requires
        marker == 42u8 || marker == 126u8 || marker == 62u8,
    ensures
        (r is Ok) == frame_ok(agg_val(marker, frame_views(cs@))),
        r is Ok ==> final(out)@ == old(out)@ + serial(agg_val(marker, frame_views(cs@))),
        r is Err ==> (r matches Err(RedisError::InvalidFrame)),
    decreases *cs,
{
    let ghost agg = agg_val(marker, frame_views(cs@));
    proof {
        frame_views_len(cs@);
    }
    if cs.len() as u64 > i64::MAX as u64 {
        return Err(RedisError::InvalidFrame);
    }
    out.push(marker);
    push_dec_u64(cs.len() as u64, out);
    push_crlf(out);
    let ghost header = old(out)@ + seq![marker] + dec_nat(cs@.len() as int) + crlf();
    assert(out@ =~= header);
    let mut i: usize = 0;
    while i < cs.len()
        invariant
            i <= cs@.len(),
            marker == 42u8 || marker == 126u8 || marker == 62u8,
            out@ == header + serial_seq(frame_views(cs@).subrange(0, i as int)),
            frames_ok(frame_views(cs@).subrange(0, i as int)),
        decreases cs@.len() - i,
    {
        proof {
            frame_views_len(cs@);
            frame_views_index(cs@, i as int);
        }
        let ghost pre = frame_views(cs@).subrange(0, i as int);
        let child = &cs[i];
        let r1 = child.write_to(out);
        if r1.is_err() {
            proof {
                if frame_ok(agg_val(marker, frame_views(cs@))) {
                    lemma_frames_ok_index(frame_views(cs@), i as int);
                }
            }
            return Err(RedisError::InvalidFrame);
        }
        proof {
            lemma_serial_seq_push(pre, child@);
            lemma_frames_ok_push(pre, child@);
            assert(frame_views(cs@).subrange(0, i + 1) =~= pre.push(child@));
            assert(out@ =~= header + serial_seq(frame_views(cs@).subrange(0, i + 1)));
        }
        i = i + 1;
    }
    proof {
        frame_views_len(cs@);
        assert(frame_views(cs@).subrange(0, frame_views(cs@).len() as int) =~= frame_views(cs@));
        assert(out@ =~= header + serial_seq(frame_views(cs@)));
    }
    Ok(())
}


/// Appends the wire forms of the key-value pairs of a map frame.
fn write_pairs(out: &mut Vec<u8>, ps: &Vec<(Frame, Frame)>) -> (r: Result<(), RedisError>)
    ensures
        (r is Ok) == pairs_ok(pair_views(ps@)),
        r is Ok ==> final(out)@ == old(out)@ + serial_pairs(pair_views(ps@)),
        r is Err ==> (r matches Err(RedisError::InvalidFrame)),
    decreases *ps,
{
    let mut i: usize = 0;
    while i < ps.len()
        invariant
            i <= ps@.len(),
            out@ == old(out)@ + serial_pairs(pair_views(ps@).subrange(0, i as int)),
            pairs_ok(pair_views(ps@).subrange(0, i as int)),
        decreases ps@.len() - i,
    {
        proof {
            pair_views_index(ps@, i as int);
        }
        let pair = &ps[i];
        proof {
            assert(decreases_to!(*ps => ps@[i as int]));
            assert(decreases_to!(ps@[i as int] => ps@[i as int].0));
            assert(decreases_to!(ps@[i as int] => ps@[i as int].1));
        }
        let ghost pre = pair_views(ps@).subrange(0, i as int);
        let r1 = pair.0.write_to(out);
        if r1.is_err() {
            proof {
                if pairs_ok(pair_views(ps@)) {
                    lemma_pairs_ok_index(pair_views(ps@), i as int);
                }
            }
            return Err(RedisError::InvalidFrame);
        }
        let r2 = pair.1.write_to(out);
        if r2.is_err() {
            proof {
                if pairs_ok(pair_views(ps@)) {
                    lemma_pairs_ok_index(pair_views(ps@), i as int);
                }
            }
            return Err(RedisError::InvalidFrame);
        }
        proof {
            lemma_serial_pairs_push(pre, pair.0@, pair.1@);
            lemma_pairs_ok_push(pre, pair.0@, pair.1@);
            assert(pair_views(ps@).subrange(0, i + 1) =~= pre.push((pair.0@, pair.1@)));
            assert(out@ =~= old(out)@ + serial_pairs(pair_views(ps@).subrange(0, i + 1)));
        }
        i = i + 1;
    }
    proof {
        assert(pair_views(ps@).subrange(0, pair_views(ps@).len() as int) =~= pair_views(ps@));
    }
    Ok(())
}

} // verus!

//! The codec's laws, proved once and for all over the mathematical model.
//!
//! Round-trip: parsing a serialized frame returns an equal frame and
//! consumes exactly its bytes, whatever follows them. Concatenation: one
//! parse call on two serialized frames back to back reads exactly the first.
//! Length honesty: the consumed count of such a parse equals the length of
//! the parsed frame's own serialization. Null compatibility and the double
//! edge cases pin the concrete sentinel encodings down.

use crate::dec::{dec_int, dec_nat, dec_val, lemma_dec_nat};
use crate::frame::{
    all_digits, double_ok, frame_ok, frames_ok, is_digit_byte, is_float_lit, no_crlf, pairs_ok,
    DoubleVal, FrameVal,
};
use crate::parse::{
    first_break, lemma_first_break_is, sparse, sparse_items, sparse_pairs, spec_line,
    token_val, SpecItems, SpecLine, SpecPairs, SpecParsed,
};
use crate::serialize::{crlf, double_text, serial, serial_pairs, serial_seq};
use vstd::prelude::*;

verus! {

/// The bytes of `s` lie in `b` starting at `pos`.
pub open spec fn bytes_at(b: Seq<u8>, pos: int, s: Seq<u8>) -> bool {
    0 <= pos && pos + s.len() <= b.len() && b.subrange(pos, pos + s.len()) == s
}

/// A run of bytes at `pos` splits into its two halves.
proof fn lemma_at_concat(b: Seq<u8>, pos: int, x: Seq<u8>, y: Seq<u8>)
    requires
        bytes_at(b, pos, x + y),
    ensures
        bytes_at(b, pos, x),
        bytes_at(b, pos + x.len(), y),
{
    let whole = x + y;
    assert forall|i: int| 0 <= i < x.len() implies b.subrange(pos, pos + x.len())[i] == x[i] by {
        assert(b.subrange(pos, pos + whole.len() as int)[i] == whole[i]);
    }
    assert(b.subrange(pos, pos + x.len()) =~= x);
    assert forall|i: int|
        0 <= i < y.len() implies b.subrange(pos + x.len(), pos + x.len() + y.len())[i] == y[i] by {
        assert(b.subrange(pos, pos + whole.len() as int)[x.len() + i] == whole[x.len() + i]);
    }
    assert(b.subrange(pos + x.len(), pos + x.len() + y.len()) =~= y);
}

/// Each byte of a run at `pos` stands at its offset.
proof fn lemma_at_index(b: Seq<u8>, pos: int, s: Seq<u8>, i: int)
    requires
        bytes_at(b, pos, s),
        0 <= i < s.len(),
    ensures
        b[pos + i] == s[i],
{
    assert(b.subrange(pos, pos + s.len())[i] == s[i]);
}

/// A CRLF-terminated run of ordinary bytes at `pos` is read as one line.
proof fn lemma_line_at(b: Seq<u8>, pos: int, s: Seq<u8>)
    requires
        no_crlf(s),
        bytes_at(b, pos, (s + crlf())),
    ensures
        spec_line(b, pos) == (SpecLine::Line { content: s, next: pos + s.len() + 2 }),
{
    lemma_at_concat(b, pos, s, crlf());
    assert forall|j: int| pos <= j < pos + s.len() implies b[j] != 13u8 && b[j] != 10u8 by {
        lemma_at_index(b, pos, s, j - pos);
    }
    lemma_at_index(b, pos + s.len(), crlf(), 0);
    lemma_at_index(b, pos + s.len(), crlf(), 1);
    lemma_first_break_is(b, pos, pos + s.len() as int);
    assert(b.subrange(pos, pos + s.len()) =~= s);
}

/// The canonical decimal text of a non-negative number reads back as its
/// value.
proof fn lemma_token_dec_nat(nv: int)
    requires
        nv >= 0,
    ensures
        token_val(dec_nat(nv)) == Some(nv),
{
    lemma_dec_nat(nv);
    let s = dec_nat(nv);
    assert(is_digit_byte(s[0]));
}

/// The canonical decimal text of a number reads back as its value.
proof fn lemma_token_dec_int(nv: int)
    ensures
        token_val(dec_int(nv)) == Some(nv),
{
    if nv >= 0 {
        lemma_token_dec_nat(nv);
    } else {
        lemma_dec_nat(-nv);
        let s = dec_int(nv);
        assert(s[0] == 45u8);
        assert(s.subrange(1, s.len() as int) =~= dec_nat(-nv));
    }
}

/// Decimal text never holds CR or LF.
proof fn lemma_dec_int_no_crlf(nv: int)
    ensures
        no_crlf(dec_int(nv)),
{
    if nv >= 0 {
        lemma_dec_nat(nv);
    } else {
        lemma_dec_nat(-nv);
        let s = dec_int(nv);
        assert(forall|i: int| 0 <= i < s.len() ==> s[i] != 13u8 && s[i] != 10u8) by {
            assert(s[0] == 45u8);
            assert(forall|i: int| 1 <= i < s.len() ==> s[i] == dec_nat(-nv)[i - 1]);
        }
    }
}

/// A float literal holds only signs, digits, dots and exponent markers, so
/// never CR or LF.
proof fn lemma_float_lit_no_crlf(t: Seq<u8>)
    requires
        is_float_lit(t),
    ensures
        no_crlf(t),
{
    let s = crate::frame::strip_sign(t);
    assert forall|i: int| 0 <= i < s.len() implies s[i] != 13u8 && s[i] != 10u8 by {
        lemma_float_body_byte(s, i);
    }
    if t.len() > 0 && (t[0] == 43u8 || t[0] == 45u8) {
        assert(forall|i: int| 1 <= i < t.len() ==> t[i] == s[i - 1]);
    }
}

/// Each byte of a sign-stripped float literal is a digit, a dot, a sign, or
/// an exponent marker.
proof fn lemma_float_body_byte(s: Seq<u8>, i: int)
    requires
        0 <= i < s.len(),
        crate::frame::float_mantissa(s) || (exists|j: int| crate::frame::float_split_at(s, j)),
    ensures
        s[i] != 13u8 && s[i] != 10u8,
{
    if crate::frame::float_mantissa(s) {
        lemma_mantissa_byte(s, i);
    } else {
        let j = choose|j: int| crate::frame::float_split_at(s, j);
        if i < j {
            lemma_mantissa_byte(s.subrange(0, j), i);
        } else if i == j {
        } else {
            let e = s.subrange(j + 1, s.len() as int);
            if e.len() > 0 && (e[0] == 43u8 || e[0] == 45u8) {
                if i == j + 1 {
                } else {
                    assert(is_digit_byte(e.subrange(1, e.len() as int)[i - j - 2]));
                }
            } else {
                assert(is_digit_byte(e[i - j - 1]));
            }
        }
    }
}

/// Each byte of a mantissa is a digit or a dot.
proof fn lemma_mantissa_byte(s: Seq<u8>, i: int)
    requires
        0 <= i < s.len(),
        crate::frame::float_mantissa(s),
    ensures
        s[i] != 13u8 && s[i] != 10u8,
{
    if s.len() > 0 && all_digits(s) {
    } else {
        let k = choose|k: int| crate::frame::mantissa_split_at(s, k);
        if i < k {
            assert(is_digit_byte(s.subrange(0, k)[i]));
        } else if i == k {
        } else {
            assert(is_digit_byte(s.subrange(k + 1, s.len() as int)[i - k - 1]));
        }
    }
}

/// Every serialized frame takes at least three bytes.
proof fn lemma_serial_min_len(v: FrameVal)
    ensures
        serial(v).len() >= 3,
{
    match v {
        FrameVal::Integer(n) => {
            if n >= 0 {
                lemma_dec_nat(n);
            } else {
                lemma_dec_nat(-n);
            }
        },
        FrameVal::BulkString(p) => {
            lemma_dec_nat(p.len() as int);
        },
        FrameVal::Array(cs) => {
            lemma_dec_nat(cs.len() as int);
        },
        FrameVal::BigNumber { negative, digits } => {},
        FrameVal::BulkError(p) => {
            lemma_dec_nat(p.len() as int);
        },
        FrameVal::VerbatimString(e, p) => {
            lemma_dec_nat(p.len() as int + 4);
        },
        FrameVal::MapFrame(ps) => {
            lemma_dec_nat(ps.len() as int);
        },
        FrameVal::SetFrame(cs) => {
            lemma_dec_nat(cs.len() as int);
        },
        FrameVal::Push(cs) => {
            lemma_dec_nat(cs.len() as int);
        },
        _ => {},
    }
}


/// The three special double tokens are not decimal literals.
proof fn lemma_special_not_float()
    ensures
        !is_float_lit(seq![110u8, 97u8, 110u8]),
        !is_float_lit(seq![105u8, 110u8, 102u8]),
        !is_float_lit(seq![45u8, 105u8, 110u8, 102u8]),
{
    let nan = seq![110u8, 97u8, 110u8];
    let inf = seq![105u8, 110u8, 102u8];
    let ninf = seq![45u8, 105u8, 110u8, 102u8];
    lemma_letters_not_float_body(nan);
    lemma_letters_not_float_body(inf);
    assert(crate::frame::strip_sign(nan) == nan);
    assert(crate::frame::strip_sign(inf) == inf);
    assert(crate::frame::strip_sign(ninf) =~= inf);
    lemma_letters_not_float_body(inf);
}

/// A token of letters other than `e` is neither a mantissa nor a split
/// literal.
proof fn lemma_letters_not_float_body(t: Seq<u8>)
    requires
        forall|i: int|
            0 <= i < t.len() ==> (#[trigger] t[i] == 110u8 || t[i] == 97u8 || t[i] == 102u8
                || t[i] == 105u8),
        t.len() > 0,
    ensures
        !crate::frame::float_mantissa(t),
        !(exists|j: int| crate::frame::float_split_at(t, j)),
{
    assert(!all_digits(t)) by {
        assert(!is_digit_byte(t[0]));
    }
    assert forall|k: int| !crate::frame::mantissa_split_at(t, k) by {
        if 0 <= k < t.len() {
            assert(t[k] != 46u8);
        }
    }
    assert forall|j: int| !crate::frame::float_split_at(t, j) by {
        if 0 <= j < t.len() {
            assert(t[j] != 101u8 && t[j] != 69u8);
        }
    }
}

/// Reading at the start of a serialized well-formed frame finds exactly
/// that frame and stops exactly past its bytes.
#[verifier::rlimit(100)]
pub proof fn lemma_parse_of_serial(b: Seq<u8>, pos: int, v: FrameVal)
    requires
        frame_ok(v),
        bytes_at(b, pos, serial(v)),
    ensures
        sparse(b, pos) == (SpecParsed::Found { val: v, next: pos + serial(v).len() }),
    decreases v,
{
    let s = serial(v);
    lemma_serial_min_len(v);
    match v {
        FrameVal::SimpleString(txt) => {
            assert(s =~= seq![43u8] + (txt + crlf()));
            lemma_at_concat(b, pos, seq![43u8], txt + crlf());
            lemma_at_index(b, pos, seq![43u8], 0);
            lemma_line_at(b, pos + 1, txt);
        },
        FrameVal::SimpleError(txt) => {
            assert(s =~= seq![45u8] + (txt + crlf()));
            lemma_at_concat(b, pos, seq![45u8], txt + crlf());
            lemma_at_index(b, pos, seq![45u8], 0);
            lemma_line_at(b, pos + 1, txt);
        },
        FrameVal::Integer(n) => {
            assert(s =~= seq![58u8] + (dec_int(n) + crlf()));
            lemma_at_concat(b, pos, seq![58u8], dec_int(n) + crlf());
            lemma_at_index(b, pos, seq![58u8], 0);
            lemma_dec_int_no_crlf(n);
            lemma_line_at(b, pos + 1, dec_int(n));
            lemma_token_dec_int(n);
        },
        FrameVal::Null => {
            assert(s =~= seq![95u8] + (Seq::<u8>::empty() + crlf()));
            lemma_at_concat(b, pos, seq![95u8], Seq::<u8>::empty() + crlf());
            lemma_at_index(b, pos, seq![95u8], 0);
            lemma_line_at(b, pos + 1, Seq::<u8>::empty());
        },
        FrameVal::Boolean(x) => {
            let body: Seq<u8> = if x {
                seq![116u8]
            } else {
                seq![102u8]
            };
            assert(s =~= seq![35u8] + (body + crlf()));
            lemma_at_concat(b, pos, seq![35u8], body + crlf());
            lemma_at_index(b, pos, seq![35u8], 0);
            lemma_line_at(b, pos + 1, body);
            assert(seq![116u8] != seq![102u8]) by {
                assert(seq![116u8][0] != seq![102u8][0]);
            }
        },
        FrameVal::Double(d) => {
            lemma_parse_of_serial_double(b, pos, d);
        },
        FrameVal::BigNumber { negative, digits } => {
            lemma_parse_of_serial_big(b, pos, negative, digits);
        },
        FrameVal::BulkString(p) => {
            lemma_parse_of_serial_bulk(b, pos, p, 36u8);
        },
        FrameVal::BulkError(p) => {
            lemma_parse_of_serial_bulk(b, pos, p, 33u8);
        },
        FrameVal::VerbatimString(e, p) => {
            lemma_parse_of_serial_verbatim(b, pos, e, p);
        },
        FrameVal::Array(cs) => {
            lemma_parse_of_serial_items(b, pos, v, cs, 42u8);
        },
        FrameVal::SetFrame(cs) => {
            lemma_parse_of_serial_items(b, pos, v, cs, 126u8);
        },
        FrameVal::Push(cs) => {
            lemma_parse_of_serial_items(b, pos, v, cs, 62u8);
        },
        FrameVal::MapFrame(ps) => {
            let count = ps.len() as int;
            assert(s =~= seq![37u8] + ((dec_nat(count) + crlf()) + serial_pairs(ps)));
            lemma_at_concat(b, pos, seq![37u8], (dec_nat(count) + crlf()) + serial_pairs(ps));
            lemma_at_index(b, pos, seq![37u8], 0);
            lemma_at_concat(b, pos + 1, dec_nat(count) + crlf(), serial_pairs(ps));
            lemma_dec_nat(count);
            lemma_line_at(b, pos + 1, dec_nat(count));
            lemma_token_dec_nat(count);
            let q = pos + 1 + dec_nat(count).len() + 2;
            lemma_parse_pairs_of_serial(b, q, ps);
            assert(sparse(b, pos) =~= (SpecParsed::Found { val: v, next: pos + s.len() }));
        },
    }
}

/// The bulk variants: a length line, the payload, a terminator.
proof fn lemma_parse_of_serial_bulk(b: Seq<u8>, pos: int, p: Seq<u8>, marker: u8)
    requires
        marker == 36u8 || marker == 33u8,
        p.len() <= i64::MAX,
        bytes_at(
            b,
            pos,
            serial(
                if marker == 36u8 {
                    FrameVal::BulkString(p)
                } else {
                    FrameVal::BulkError(p)
                },
            ),
        ),
    ensures
        sparse(b, pos) == (SpecParsed::Found {
            val: if marker == 36u8 {
                FrameVal::BulkString(p)
            } else {
                FrameVal::BulkError(p)
            },
            next: pos + serial(
                if marker == 36u8 {
                    FrameVal::BulkString(p)
                } else {
                    FrameVal::BulkError(p)
                },
            ).len(),
        }),
{
    let v = if marker == 36u8 {
        FrameVal::BulkString(p)
    } else {
        FrameVal::BulkError(p)
    };
    let s = serial(v);
    let ln = p.len() as int;
    assert(s =~= seq![marker] + ((dec_nat(ln) + crlf()) + (p + crlf())));
    lemma_at_concat(b, pos, seq![marker], (dec_nat(ln) + crlf()) + (p + crlf()));
    lemma_at_index(b, pos, seq![marker], 0);
    lemma_at_concat(b, pos + 1, dec_nat(ln) + crlf(), p + crlf());
    lemma_dec_nat(ln);
    lemma_line_at(b, pos + 1, dec_nat(ln));
    lemma_token_dec_nat(ln);
    let q = pos + 1 + dec_nat(ln).len() + 2;
    lemma_at_concat(b, q, p, crlf());
    lemma_at_index(b, q + ln, crlf(), 0);
    lemma_at_index(b, q + ln, crlf(), 1);
    assert(b.subrange(q, q + ln) == p);
}

/// A verbatim string: a length line, the encoding, a colon, the payload, a
/// terminator.
proof fn lemma_parse_of_serial_verbatim(b: Seq<u8>, pos: int, e: Seq<u8>, p: Seq<u8>)
    requires
        e.len() == 3,
        p.len() + 4 <= i64::MAX,
        bytes_at(b, pos, serial(FrameVal::VerbatimString(e, p))),
    ensures
        sparse(b, pos) == (SpecParsed::Found {
            val: FrameVal::VerbatimString(e, p),
            next: pos + serial(FrameVal::VerbatimString(e, p)).len(),
        }),
{
    let v = FrameVal::VerbatimString(e, p);
    let s = serial(v);
    let ln = p.len() as int + 4;
    let body = e + (seq![58u8] + (p + crlf()));
    assert(s =~= seq![61u8] + ((dec_nat(ln) + crlf()) + body));
    lemma_at_concat(b, pos, seq![61u8], (dec_nat(ln) + crlf()) + body);
    lemma_at_index(b, pos, seq![61u8], 0);
    lemma_at_concat(b, pos + 1, dec_nat(ln) + crlf(), body);
    lemma_dec_nat(ln);
    lemma_line_at(b, pos + 1, dec_nat(ln));
    lemma_token_dec_nat(ln);
    let q = pos + 1 + dec_nat(ln).len() + 2;
    lemma_at_concat(b, q, e, seq![58u8] + (p + crlf()));
    lemma_at_concat(b, q + 3, seq![58u8], p + crlf());
    lemma_at_index(b, q + 3, seq![58u8], 0);
    lemma_at_concat(b, q + 4, p, crlf());
    lemma_at_index(b, q + 4 + p.len(), crlf(), 0);
    lemma_at_index(b, q + 4 + p.len(), crlf(), 1);
    assert(b.subrange(q, q + 3) == e);
    assert(b.subrange(q + 4, q + ln) == p);
}

/// A double: one line holding a special token or a decimal literal.
proof fn lemma_parse_of_serial_double(b: Seq<u8>, pos: int, d: DoubleVal)
    requires
        double_ok(d),
        bytes_at(b, pos, serial(FrameVal::Double(d))),
    ensures
        sparse(b, pos) == (SpecParsed::Found {
            val: FrameVal::Double(d),
            next: pos + serial(FrameVal::Double(d)).len(),
        }),
{
    let s = serial(FrameVal::Double(d));
    let body = double_text(d);
    assert(s =~= seq![44u8] + (body + crlf()));
    lemma_at_concat(b, pos, seq![44u8], body + crlf());
    lemma_at_index(b, pos, seq![44u8], 0);
    assert(no_crlf(body)) by {
        match d {
            DoubleVal::Finite(t) => {
                lemma_float_lit_no_crlf(t);
            },
            _ => {},
        }
    }
    lemma_line_at(b, pos + 1, body);
    lemma_special_not_float();
    match d {
        DoubleVal::Nan => {},
        DoubleVal::Inf => {
            assert(body != seq![110u8, 97u8, 110u8]) by {
                assert(body[0] != seq![110u8, 97u8, 110u8][0]);
            }
        },
        DoubleVal::NegInf => {
            assert(body != seq![110u8, 97u8, 110u8]) by {
                assert(body.len() != seq![110u8, 97u8, 110u8].len());
            }
            assert(body != seq![105u8, 110u8, 102u8]) by {
                assert(body.len() != seq![105u8, 110u8, 102u8].len());
            }
        },
        DoubleVal::Finite(t) => {
            assert(t != seq![110u8, 97u8, 110u8] && t != seq![105u8, 110u8, 102u8] && t != seq![
                45u8,
                105u8,
                110u8,
                102u8,
            ]);
        },
    }
}

/// A big number: one line holding an optional sign and digits.
proof fn lemma_parse_of_serial_big(b: Seq<u8>, pos: int, negative: bool, digits: Seq<u8>)
    requires
        digits.len() > 0,
        all_digits(digits),
        bytes_at(b, pos, serial(FrameVal::BigNumber { negative, digits })),
    ensures
        sparse(b, pos) == (SpecParsed::Found {
            val: FrameVal::BigNumber { negative, digits },
            next: pos + serial(FrameVal::BigNumber { negative, digits }).len(),
        }),
{
    let v = FrameVal::BigNumber { negative, digits };
    let s = serial(v);
    let sign: Seq<u8> = if negative {
        seq![45u8]
    } else {
        Seq::empty()
    };
    let body = sign + digits;
    assert(s =~= seq![40u8] + (body + crlf()));
    lemma_at_concat(b, pos, seq![40u8], body + crlf());
    lemma_at_index(b, pos, seq![40u8], 0);
    assert(no_crlf(body)) by {
        assert(forall|i: int|
            0 <= i < digits.len() ==> is_digit_byte(#[trigger] digits[i]) && digits[i] != 13u8
                && digits[i] != 10u8);
        assert(forall|i: int|
            sign.len() <= i < body.len() ==> body[i] == digits[i - sign.len()]);
        if negative {
            assert(body[0] == 45u8);
        }
    }
    lemma_line_at(b, pos + 1, body);
    if negative {
        assert(body[0] == 45u8);
        assert(body.subrange(1, body.len() as int) =~= digits);
    } else {
        assert(body =~= digits);
        assert(is_digit_byte(body[0]));
        assert(body[0] != 45u8 && body[0] != 43u8);
    }
}

/// An aggregate of frames: a count line and the children in a row.
proof fn lemma_parse_of_serial_items(
    b: Seq<u8>,
    pos: int,
    v: FrameVal,
    cs: Seq<FrameVal>,
    marker: u8,
)
    requires
        marker == 42u8 || marker == 126u8 || marker == 62u8,
        v == crate::serialize::agg_val(marker, cs),
        frame_ok(v),
        bytes_at(b, pos, serial(v)),
    ensures
        sparse(b, pos) == (SpecParsed::Found { val: v, next: pos + serial(v).len() }),
    decreases v, 0nat,
{
    let s = serial(v);
    let count = cs.len() as int;
    assert(s =~= seq![marker] + ((dec_nat(count) + crlf()) + serial_seq(cs)));
    lemma_at_concat(b, pos, seq![marker], (dec_nat(count) + crlf()) + serial_seq(cs));
    lemma_at_index(b, pos, seq![marker], 0);
    lemma_at_concat(b, pos + 1, dec_nat(count) + crlf(), serial_seq(cs));
    lemma_dec_nat(count);
    lemma_line_at(b, pos + 1, dec_nat(count));
    lemma_token_dec_nat(count);
    let q = pos + 1 + dec_nat(count).len() + 2;
    assert(frames_ok(cs));
    lemma_parse_items_of_serial(b, q, cs);
    assert(sparse(b, pos) =~= (SpecParsed::Found { val: v, next: pos + s.len() }));
}

/// A row of serialized frames reads back as those frames in order.
proof fn lemma_parse_items_of_serial(b: Seq<u8>, pos: int, cs: Seq<FrameVal>)
    requires
        frames_ok(cs),
        bytes_at(b, pos, serial_seq(cs)),
    ensures
        sparse_items(b, pos, cs.len() as int) == (SpecItems::Found {
            vals: cs,
            next: pos + serial_seq(cs).len(),
        }),
    decreases cs,
{
    if cs.len() == 0 {
        assert(sparse_items(b, pos, 0) =~= (SpecItems::Found {
            vals: cs,
            next: pos + serial_seq(cs).len(),
        }));
    } else {
        let h = cs[0];
        let rest = cs.subrange(1, cs.len() as int);
        assert(serial_seq(cs) == serial(h) + serial_seq(rest));
        lemma_at_concat(b, pos, serial(h), serial_seq(rest));
        lemma_parse_of_serial(b, pos, h);
        lemma_serial_min_len(h);
        let mid = pos + serial(h).len();
        lemma_parse_items_of_serial(b, mid, rest);
        assert(seq![h] + rest =~= cs);
        assert(sparse_items(b, pos, cs.len() as int) =~= (SpecItems::Found {
            vals: cs,
            next: pos + serial_seq(cs).len(),
        }));
    }
}

/// A row of serialized key-value pairs reads back as those pairs in order.
proof fn lemma_parse_pairs_of_serial(b: Seq<u8>, pos: int, ps: Seq<(FrameVal, FrameVal)>)
    requires
        pairs_ok(ps),
        bytes_at(b, pos, serial_pairs(ps)),
    ensures
        sparse_pairs(b, pos, ps.len() as int) == (SpecPairs::Found {
            vals: ps,
            next: pos + serial_pairs(ps).len(),
        }),
    decreases ps,
{
    if ps.len() == 0 {
        assert(sparse_pairs(b, pos, 0) =~= (SpecPairs::Found {
            vals: ps,
            next: pos + serial_pairs(ps).len(),
        }));
    } else {
        let k = ps[0].0;
        let w = ps[0].1;
        let rest = ps.subrange(1, ps.len() as int);
        assert(serial_pairs(ps) == serial(k) + serial(w) + serial_pairs(rest));
        assert(serial(k) + serial(w) + serial_pairs(rest) =~= (serial(k) + serial(w))
            + serial_pairs(rest));
        lemma_at_concat(b, pos, serial(k) + serial(w), serial_pairs(rest));
        lemma_at_concat(b, pos, serial(k), serial(w));
        lemma_parse_of_serial(b, pos, k);
        lemma_serial_min_len(k);
        let mid = pos + serial(k).len();
        lemma_parse_of_serial(b, mid, w);
        lemma_serial_min_len(w);
        let mid2 = mid + serial(w).len();
        lemma_parse_pairs_of_serial(b, mid2, rest);
        assert(seq![(k, w)] + rest =~= ps);
        assert(sparse_pairs(b, pos, ps.len() as int) =~= (SpecPairs::Found {
            vals: ps,
            next: pos + serial_pairs(ps).len(),
        }));
    }
}


/// The first break position lies between `pos` and the end.
proof fn lemma_first_break_bounds(b: Seq<u8>, pos: int)
    requires
        0 <= pos <= b.len(),
    ensures
        pos <= first_break(b, pos) <= b.len(),
    decreases b.len() - pos,
{
    if pos < b.len() && b[pos] != 13u8 && b[pos] != 10u8 {
        lemma_first_break_bounds(b, pos + 1);
    }
}

/// A read line ends after `pos` and within the buffer.
proof fn lemma_line_bounds(b: Seq<u8>, pos: int)
    requires
        0 <= pos <= b.len(),
    ensures
        spec_line(b, pos) matches SpecLine::Line { content, next } ==> pos < next <= b.len(),
{
    lemma_first_break_bounds(b, pos);
}

/// A found frame ends after `pos` and within the buffer.
proof fn lemma_sparse_bounds(b: Seq<u8>, pos: int)
    requires
        0 <= pos,
    ensures
        sparse(b, pos) matches SpecParsed::Found { val, next } ==> pos < next <= b.len(),
    decreases b.len() - pos, 0int, 0int,
{
    if pos < b.len() {
        lemma_line_bounds(b, pos + 1);
        let t = b[pos];
        if t == 42u8 || t == 62u8 || t == 126u8 {
            match spec_line(b, pos + 1) {
                SpecLine::Line { content, next } => match token_val(content) {
                    Some(v) => {
                        if 0 <= v <= i64::MAX && pos < next <= b.len() {
                            lemma_sparse_items_bounds(b, next, v);
                        }
                    },
                    None => {},
                },
                _ => {},
            }
        } else if t == 37u8 {
            match spec_line(b, pos + 1) {
                SpecLine::Line { content, next } => match token_val(content) {
                    Some(v) => {
                        if 0 <= v <= i64::MAX && pos < next <= b.len() {
                            lemma_sparse_pairs_bounds(b, next, v);
                        }
                    },
                    None => {},
                },
                _ => {},
            }
        }
    }
}

/// A found run of frames ends at or after `pos` and within the buffer.
proof fn lemma_sparse_items_bounds(b: Seq<u8>, pos: int, n: int)
    requires
        0 <= pos <= b.len(),
    ensures
        sparse_items(b, pos, n) matches SpecItems::Found { vals, next } ==> pos <= next
            <= b.len(),
    decreases b.len() - pos, 1int, n,
{
    if n > 0 {
        match sparse(b, pos) {
            SpecParsed::Found { val, next } => {
                if pos < next <= b.len() {
                    lemma_sparse_items_bounds(b, next, n - 1);
                }
            },
            _ => {},
        }
    }
}

/// A found run of pairs ends at or after `pos` and within the buffer.
proof fn lemma_sparse_pairs_bounds(b: Seq<u8>, pos: int, n: int)
    requires
        0 <= pos <= b.len(),
    ensures
        sparse_pairs(b, pos, n) matches SpecPairs::Found { vals, next } ==> pos <= next
            <= b.len(),
    decreases b.len() - pos, 1int, n,
{
    if n > 0 {
        match sparse(b, pos) {
            SpecParsed::Found { val: k, next } => {
                if pos < next <= b.len() {
                    match sparse(b, next) {
                        SpecParsed::Found { val: w, next: next2 } => {
                            if next < next2 <= b.len() {
                                lemma_sparse_pairs_bounds(b, next2, n - 1);
                            }
                        },
                        _ => {},
                    }
                }
            },
            _ => {},
        }
    }
}

/// When a break exists in a prefix, the longer buffer breaks at the same
/// place.
proof fn lemma_first_break_ext(b1: Seq<u8>, b2: Seq<u8>, pos: int)
    requires
        b1 == b2.subrange(0, b1.len() as int),
        b1.len() <= b2.len(),
        0 <= pos,
        first_break(b1, pos) < b1.len(),
    ensures
        first_break(b2, pos) == first_break(b1, pos),
    decreases b1.len() - pos,
{
    lemma_first_break_bounds(b1, if pos <= b1.len() { pos } else { b1.len() as int });
    assert(pos < b1.len());
    assert(b1[pos] == b2[pos]) by {
        assert(b2.subrange(0, b1.len() as int)[pos] == b2[pos]);
    }
    if !(b1[pos] == 13u8 || b1[pos] == 10u8) {
        lemma_first_break_ext(b1, b2, pos + 1);
    }
}

/// A line read to completion, or rejected, in a prefix reads the same way
/// in any extension.
proof fn lemma_line_ext(b1: Seq<u8>, b2: Seq<u8>, pos: int)
    requires
        b1 == b2.subrange(0, b1.len() as int),
        b1.len() <= b2.len(),
        0 <= pos <= b1.len(),
    ensures
        spec_line(b1, pos) matches SpecLine::Line { content, next } ==> spec_line(b2, pos)
            == (SpecLine::Line { content, next }),
        spec_line(b1, pos) is Bad ==> spec_line(b2, pos) is Bad,
{
    lemma_first_break_bounds(b1, pos);
    let i = first_break(b1, pos);
    if i < b1.len() {
        lemma_first_break_ext(b1, b2, pos);
        assert(b1[i] == b2[i]) by {
            assert(b2.subrange(0, b1.len() as int)[i] == b2[i]);
        }
        if b1[i] != 10u8 && i + 1 < b1.len() {
            assert(b1[i + 1] == b2[i + 1]) by {
                assert(b2.subrange(0, b1.len() as int)[i + 1] == b2[i + 1]);
            }
            if b1[i + 1] == 10u8 {
                assert(b1.subrange(pos, i) =~= b2.subrange(pos, i));
            }
        }
    }
}

/// Bytes within the prefix agree with the extension.
proof fn lemma_prefix_index(b1: Seq<u8>, b2: Seq<u8>, i: int)
    requires
        b1 == b2.subrange(0, b1.len() as int),
        b1.len() <= b2.len(),
        0 <= i < b1.len(),
    ensures
        b1[i] == b2[i],
{
    assert(b2.subrange(0, b1.len() as int)[i] == b2[i]);
}

/// A frame read to completion, or rejected, in a prefix reads the same way
/// in any extension of that prefix.
#[verifier::rlimit(100)]
pub proof fn lemma_sparse_ext(b1: Seq<u8>, b2: Seq<u8>, pos: int)
    requires
        b1 == b2.subrange(0, b1.len() as int),
        b1.len() <= b2.len(),
        0 <= pos,
    ensures
        sparse(b1, pos) matches SpecParsed::Found { val, next } ==> sparse(b2, pos)
            == (SpecParsed::Found { val, next }),
        sparse(b1, pos) is Bad ==> sparse(b2, pos) is Bad,
    decreases b2.len() - pos, 0int, 0int,
{
    if pos >= b1.len() {
        // the prefix reads nothing here
    } else {
        lemma_prefix_index(b1, b2, pos);
        lemma_line_ext(b1, b2, pos + 1);
        lemma_line_bounds(b1, pos + 1);
        let t = b1[pos];
        if t == 36u8 || t == 33u8 || t == 61u8 {
            match spec_line(b1, pos + 1) {
                SpecLine::Line { content, next } => match token_val(content) {
                    Some(v) => {
                        if 0 <= v <= i64::MAX && next + v + 2 <= b1.len() {
                            lemma_prefix_index(b1, b2, next + v);
                            lemma_prefix_index(b1, b2, next + v + 1);
                            if t == 61u8 && 4 <= v {
                                lemma_prefix_index(b1, b2, next + 3);
                            }
                            assert forall|q: int| next <= q < next + v implies b1[q] == b2[q] by {
                                lemma_prefix_index(b1, b2, q);
                            }
                            assert(b1.subrange(next, next + v) =~= b2.subrange(next, next + v));
                            if t == 61u8 && 4 <= v {
                                assert(b1.subrange(next, next + 3) =~= b2.subrange(
                                    next,
                                    next + 3,
                                ));
                                assert(b1.subrange(next + 4, next + v) =~= b2.subrange(
                                    next + 4,
                                    next + v,
                                ));
                            }
                        }
                    },
                    None => {},
                },
                _ => {},
            }
        } else if t == 42u8 || t == 62u8 || t == 126u8 {
            match spec_line(b1, pos + 1) {
                SpecLine::Line { content, next } => match token_val(content) {
                    Some(v) => {
                        if 0 <= v <= i64::MAX && pos < next <= b1.len() {
                            lemma_sparse_items_ext(b1, b2, next, v);
                        }
                    },
                    None => {},
                },
                _ => {},
            }
        } else if t == 37u8 {
            match spec_line(b1, pos + 1) {
                SpecLine::Line { content, next } => match token_val(content) {
                    Some(v) => {
                        if 0 <= v <= i64::MAX && pos < next <= b1.len() {
                            lemma_sparse_pairs_ext(b1, b2, next, v);
                        }
                    },
                    None => {},
                },
                _ => {},
            }
        }
    }
}

/// A run of frames read to completion, or rejected, in a prefix reads the
/// same way in any extension.
proof fn lemma_sparse_items_ext(b1: Seq<u8>, b2: Seq<u8>, pos: int, n: int)
    requires
        b1 == b2.subrange(0, b1.len() as int),
        b1.len() <= b2.len(),
        0 <= pos <= b1.len(),
    ensures
        sparse_items(b1, pos, n) matches SpecItems::Found { vals, next } ==> sparse_items(
            b2,
            pos,
            n,
        ) == (SpecItems::Found { vals, next }),
        sparse_items(b1, pos, n) is Bad ==> sparse_items(b2, pos, n) is Bad,
    decreases b2.len() - pos, 1int, n,
{
    if n > 0 {
        lemma_sparse_ext(b1, b2, pos);
        match sparse(b1, pos) {
            SpecParsed::Found { val, next } => {
                lemma_sparse_bounds(b1, pos);
                if pos < next <= b1.len() {
                    lemma_sparse_items_ext(b1, b2, next, n - 1);
                }
            },
            _ => {},
        }
    }
}

/// A run of pairs read to completion, or rejected, in a prefix reads the
/// same way in any extension.
proof fn lemma_sparse_pairs_ext(b1: Seq<u8>, b2: Seq<u8>, pos: int, n: int)
    requires
        b1 == b2.subrange(0, b1.len() as int),
        b1.len() <= b2.len(),
        0 <= pos <= b1.len(),
    ensures
        sparse_pairs(b1, pos, n) matches SpecPairs::Found { vals, next } ==> sparse_pairs(
            b2,
            pos,
            n,
        ) == (SpecPairs::Found { vals, next }),
        sparse_pairs(b1, pos, n) is Bad ==> sparse_pairs(b2, pos, n) is Bad,
    decreases b2.len() - pos, 1int, n,
{
    if n > 0 {
        lemma_sparse_ext(b1, b2, pos);
        match sparse(b1, pos) {
            SpecParsed::Found { val: k, next } => {
                lemma_sparse_bounds(b1, pos);
                if pos < next <= b1.len() {
                    lemma_sparse_ext(b1, b2, next);
                    match sparse(b1, next) {
                        SpecParsed::Found { val: w, next: next2 } => {
                            lemma_sparse_bounds(b1, next);
                            if next < next2 <= b1.len() {
                                lemma_sparse_pairs_ext(b1, b2, next2, n - 1);
                            }
                        },
                        _ => {},
                    }
                }
            },
            _ => {},
        }
    }
}

/// Round-trip: parsing a serialized well-formed frame yields that very
/// frame and consumes exactly its bytes. Equality here is structural and
/// recursive, so a NaN double compares equal to itself.
pub proof fn lemma_round_trip(v: FrameVal)
    requires
        frame_ok(v),
    ensures
        sparse(serial(v), 0) == (SpecParsed::Found { val: v, next: serial(v).len() as int }),
{
    assert(serial(v).subrange(0, serial(v).len() as int) =~= serial(v));
    lemma_parse_of_serial(serial(v), 0, v);
}

/// Prefix stability: every strict prefix of a serialized frame parses as
/// incomplete, never as a different frame and never as invalid.
pub proof fn lemma_prefix_stability(v: FrameVal, k: int)
    requires
        frame_ok(v),
        0 <= k < serial(v).len(),
    ensures
        sparse(serial(v).subrange(0, k), 0) is More,
{
    let s = serial(v);
    let b1 = s.subrange(0, k);
    assert(b1 == s.subrange(0, b1.len() as int));
    lemma_round_trip(v);
    lemma_sparse_ext(b1, s, 0);
    lemma_sparse_bounds(b1, 0);
    match sparse(b1, 0) {
        SpecParsed::Found { val, next } => {
            assert(next <= k);
            assert(false);
        },
        SpecParsed::More => {},
        SpecParsed::Bad => {
            assert(false);
        },
    }
}

/// Concatenation: one parse call on two serialized frames back to back
/// reads exactly the first frame and consumes exactly its bytes; the
/// remainder is the second serialization, which parses to the second frame.
pub proof fn lemma_concatenation(v1: FrameVal, v2: FrameVal)
    requires
        frame_ok(v1),
        frame_ok(v2),
    ensures
        sparse(serial(v1) + serial(v2), 0) == (SpecParsed::Found {
            val: v1,
            next: serial(v1).len() as int,
        }),
        (serial(v1) + serial(v2)).subrange(
            serial(v1).len() as int,
            (serial(v1) + serial(v2)).len() as int,
        ) == serial(v2),
        sparse(serial(v2), 0) == (SpecParsed::Found {
            val: v2,
            next: serial(v2).len() as int,
        }),
{
    let b = serial(v1) + serial(v2);
    assert(b.subrange(0, b.len() as int) =~= b);
    lemma_at_concat(b, 0, serial(v1), serial(v2));
    lemma_parse_of_serial(b, 0, v1);
    lemma_round_trip(v2);
}

/// Length honesty: when a buffer starts with a serialized well-formed
/// frame, the consumed byte count of a parse equals the length of the bytes
/// that re-serializing the parsed frame produces.
pub proof fn lemma_length_honesty(v: FrameVal, rest: Seq<u8>)
    requires
        frame_ok(v),
    ensures
        (sparse(serial(v) + rest, 0) matches SpecParsed::Found { val, next } && next == serial(
            val,
        ).len()),
{
    let b = serial(v) + rest;
    assert(b.subrange(0, b.len() as int) =~= b);
    lemma_at_concat(b, 0, serial(v), rest);
    lemma_parse_of_serial(b, 0, v);
}

/// Null compatibility: the version-3 sentinel and both version-2 sentinels
/// all parse to `Null`.
pub proof fn lemma_null_compatibility()
    ensures
        sparse(seq![95u8, 13u8, 10u8], 0) == (SpecParsed::Found { val: FrameVal::Null, next: 3 }),
        sparse(seq![36u8, 45u8, 49u8, 13u8, 10u8], 0) == (SpecParsed::Found {
            val: FrameVal::Null,
            next: 5,
        }),
        sparse(seq![42u8, 45u8, 49u8, 13u8, 10u8], 0) == (SpecParsed::Found {
            val: FrameVal::Null,
            next: 5,
        }),
{
    let b1 = seq![95u8, 13u8, 10u8];
    lemma_first_break_is(b1, 1, 1);
    assert(b1.subrange(1, 1) =~= Seq::<u8>::empty());
    let b2 = seq![36u8, 45u8, 49u8, 13u8, 10u8];
    lemma_minus_one_line(b2);
    let b3 = seq![42u8, 45u8, 49u8, 13u8, 10u8];
    lemma_minus_one_line(b3);
}

/// A five-byte buffer whose middle is `-1` reads one line with value -1.
proof fn lemma_minus_one_line(b: Seq<u8>)
    requires
        b.len() == 5,
        b[1] == 45u8,
        b[2] == 49u8,
        b[3] == 13u8,
        b[4] == 10u8,
    ensures
        spec_line(b, 1) == (SpecLine::Line { content: b.subrange(1, 3), next: 5 }),
        token_val(b.subrange(1, 3)) == Some(-1int),
{
    lemma_first_break_is(b, 1, 3);
    let content = b.subrange(1, 3);
    assert(content[0] == 45u8);
    let ds = content.subrange(1, 2);
    assert(ds =~= seq![49u8]);
    assert(dec_val(seq![49u8]) == 1) by {
        assert(dec_val(Seq::<u8>::empty()) == 0);
        assert(seq![49u8].drop_last() =~= Seq::<u8>::empty());
    }
    assert(all_digits(ds));
}

/// Double edge cases: the three special tokens parse to NaN and the two
/// infinities.
#[verifier::rlimit(100)]
#[verifier::spinoff_prover]
pub proof fn lemma_double_edge_cases()
    ensures
        sparse(seq![44u8, 110u8, 97u8, 110u8, 13u8, 10u8], 0) == (SpecParsed::Found {
            val: FrameVal::Double(DoubleVal::Nan),
            next: 6,
        }),
        sparse(seq![44u8, 105u8, 110u8, 102u8, 13u8, 10u8], 0) == (SpecParsed::Found {
            val: FrameVal::Double(DoubleVal::Inf),
            next: 6,
        }),
        sparse(seq![44u8, 45u8, 105u8, 110u8, 102u8, 13u8, 10u8], 0) == (SpecParsed::Found {
            val: FrameVal::Double(DoubleVal::NegInf),
            next: 7,
        }),
{
    let b1 = seq![44u8, 110u8, 97u8, 110u8, 13u8, 10u8];
    lemma_first_break_is(b1, 1, 4);
    assert(b1.subrange(1, 4) =~= seq![110u8, 97u8, 110u8]);
    let b2 = seq![44u8, 105u8, 110u8, 102u8, 13u8, 10u8];
    lemma_first_break_is(b2, 1, 4);
    assert(b2.subrange(1, 4) =~= seq![105u8, 110u8, 102u8]);
    assert(seq![105u8, 110u8, 102u8] != seq![110u8, 97u8, 110u8]) by {
        assert(seq![105u8, 110u8, 102u8][0] != seq![110u8, 97u8, 110u8][0]);
    }
    let b3 = seq![44u8, 45u8, 105u8, 110u8, 102u8, 13u8, 10u8];
    lemma_first_break_is(b3, 1, 5);
    assert(b3.subrange(1, 5) =~= seq![45u8, 105u8, 110u8, 102u8]);
    assert(seq![45u8, 105u8, 110u8, 102u8] != seq![110u8, 97u8, 110u8] && seq![
        45u8,
        105u8,
        110u8,
        102u8,
    ] != seq![105u8, 110u8, 102u8]) by {
        assert(seq![45u8, 105u8, 110u8, 102u8].len() == 4);
    }
}

/// Every well-formed finite double literal round-trips through the codec
/// unchanged.
pub proof fn lemma_finite_double_round_trip(t: Seq<u8>)
    requires
        is_float_lit(t),
    ensures
        sparse(serial(FrameVal::Double(DoubleVal::Finite(t))), 0) == (SpecParsed::Found {
            val: FrameVal::Double(DoubleVal::Finite(t)),
            next: serial(FrameVal::Double(DoubleVal::Finite(t))).len() as int,
        }),
{
    lemma_round_trip(FrameVal::Double(DoubleVal::Finite(t)));
}


/// A well-formed token read from a line is never CR or LF, so every parsed
/// line content avoids them.
proof fn lemma_line_content_no_crlf(b: Seq<u8>, pos: int)
    requires
        0 <= pos <= b.len(),
    ensures
        spec_line(b, pos) matches SpecLine::Line { content, next } ==> no_crlf(content),
{
    lemma_first_break_bounds(b, pos);
    let i = first_break(b, pos);
    if i < b.len() && b[i] != 10u8 && i + 1 < b.len() && b[i + 1] == 10u8 {
        assert forall|q: int| 0 <= q < i - pos implies b.subrange(pos, i)[q] != 13u8 && b.subrange(
            pos,
            i,
        )[q] != 10u8 by {
            lemma_first_break_before(b, pos, pos + q);
        }
        assert(no_crlf(b.subrange(pos, i)));
    }
}

/// Bytes strictly before the first break are ordinary.
proof fn lemma_first_break_before(b: Seq<u8>, pos: int, q: int)
    requires
        0 <= pos <= q < first_break(b, pos),
        pos <= b.len(),
    ensures
        b[q] != 13u8 && b[q] != 10u8,
    decreases q - pos,
{
    lemma_first_break_bounds(b, pos);
    if q > pos {
        lemma_first_break_before(b, pos + 1, q);
    }
}

/// Every frame the parser finds is well-formed: it serializes again.
#[verifier::rlimit(100)]
pub proof fn lemma_parsed_frame_ok(b: Seq<u8>, pos: int)
    requires
        0 <= pos,
    ensures
        sparse(b, pos) matches SpecParsed::Found { val, next } ==> frame_ok(val),
    decreases b.len() - pos, 0int, 0int,
{
    if 0 <= pos < b.len() {
        let t = b[pos];
        lemma_line_bounds(b, pos + 1);
        lemma_line_content_no_crlf(b, pos + 1);
        if t == 42u8 || t == 62u8 || t == 126u8 {
            match spec_line(b, pos + 1) {
                SpecLine::Line { content, next } => match token_val(content) {
                    Some(v) => {
                        if 0 <= v <= i64::MAX && pos < next <= b.len() {
                            lemma_parsed_items_ok(b, next, v);
                            match sparse_items(b, next, v) {
                                SpecItems::Found { vals, next: next2 } => {
                                    lemma_items_found_len(b, next, v);
                                },
                                _ => {},
                            }
                        }
                    },
                    None => {},
                },
                _ => {},
            }
        } else if t == 37u8 {
            match spec_line(b, pos + 1) {
                SpecLine::Line { content, next } => match token_val(content) {
                    Some(v) => {
                        if 0 <= v <= i64::MAX && pos < next <= b.len() {
                            lemma_parsed_pairs_ok(b, next, v);
                            match sparse_pairs(b, next, v) {
                                SpecPairs::Found { vals, next: next2 } => {
                                    lemma_pairs_found_len(b, next, v);
                                },
                                _ => {},
                            }
                        }
                    },
                    None => {},
                },
                _ => {},
            }
        }
    }
}

/// A found run of frames has exactly the asked-for count of frames.
proof fn lemma_items_found_len(b: Seq<u8>, pos: int, n: int)
    requires
        0 <= pos <= b.len(),
    ensures
        sparse_items(b, pos, n) matches SpecItems::Found { vals, next } ==> vals.len() == (if n
            >= 0 {
            n
        } else {
            0
        }),
    decreases b.len() - pos, 1int, n,
{
    if n > 0 {
        match sparse(b, pos) {
            SpecParsed::Found { val, next } => {
                if pos < next <= b.len() {
                    lemma_items_found_len(b, next, n - 1);
                }
            },
            _ => {},
        }
    }
}

/// A found run of pairs has exactly the asked-for count of pairs.
proof fn lemma_pairs_found_len(b: Seq<u8>, pos: int, n: int)
    requires
        0 <= pos <= b.len(),
    ensures
        sparse_pairs(b, pos, n) matches SpecPairs::Found { vals, next } ==> vals.len() == (if n
            >= 0 {
            n
        } else {
            0
        }),
    decreases b.len() - pos, 1int, n,
{
    if n > 0 {
        match sparse(b, pos) {
            SpecParsed::Found { val: k, next } => {
                if pos < next <= b.len() {
                    match sparse(b, next) {
                        SpecParsed::Found { val: w, next: next2 } => {
                            if next < next2 <= b.len() {
                                lemma_pairs_found_len(b, next2, n - 1);
                            }
                        },
                        _ => {},
                    }
                }
            },
            _ => {},
        }
    }
}

/// Every frame of a found run is well-formed.
proof fn lemma_parsed_items_ok(b: Seq<u8>, pos: int, n: int)
    requires
        0 <= pos <= b.len(),
    ensures
        sparse_items(b, pos, n) matches SpecItems::Found { vals, next } ==> frames_ok(vals),
    decreases b.len() - pos, 1int, n,
{
    if n > 0 {
        lemma_parse_ok_head(b, pos);
        match sparse(b, pos) {
            SpecParsed::Found { val, next } => {
                if pos < next <= b.len() {
                    lemma_parsed_items_ok(b, next, n - 1);
                    match sparse_items(b, next, n - 1) {
                        SpecItems::Found { vals, next: next2 } => {
                            assert((seq![val] + vals).subrange(1, (seq![val] + vals).len() as int)
                                =~= vals);
                            assert((seq![val] + vals)[0] == val);
                        },
                        _ => {},
                    }
                }
            },
            _ => {},
        }
    }
}

/// Every frame of a found run of pairs is well-formed.
proof fn lemma_parsed_pairs_ok(b: Seq<u8>, pos: int, n: int)
    requires
        0 <= pos <= b.len(),
    ensures
        sparse_pairs(b, pos, n) matches SpecPairs::Found { vals, next } ==> pairs_ok(vals),
    decreases b.len() - pos, 1int, n,
{
    if n > 0 {
        lemma_parse_ok_head(b, pos);
        match sparse(b, pos) {
            SpecParsed::Found { val: k, next } => {
                if pos < next <= b.len() {
                    lemma_parse_ok_head(b, next);
                    match sparse(b, next) {
                        SpecParsed::Found { val: w, next: next2 } => {
                            if next < next2 <= b.len() {
                                lemma_parsed_pairs_ok(b, next2, n - 1);
                                match sparse_pairs(b, next2, n - 1) {
                                    SpecPairs::Found { vals, next: next3 } => {
                                        assert((seq![(k, w)] + vals).subrange(
                                            1,
                                            (seq![(k, w)] + vals).len() as int,
                                        ) =~= vals);
                                        assert((seq![(k, w)] + vals)[0] == (k, w));
                                    },
                                    _ => {},
                                }
                            }
                        },
                        _ => {},
                    }
                }
            },
            _ => {},
        }
    }
}

/// The head frame of a parse is well-formed; a helper wrapping the mutual
/// recursion with the right measure.
proof fn lemma_parse_ok_head(b: Seq<u8>, pos: int)
    requires
        0 <= pos,
    ensures
        sparse(b, pos) matches SpecParsed::Found { val, next } ==> frame_ok(val),
    decreases b.len() - pos, 0int, 1int,
{
    lemma_parsed_frame_ok(b, pos);
}

} // verus!

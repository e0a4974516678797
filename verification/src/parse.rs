//! Parsing: the mathematical parser over byte sequences and the executable
//! parser proved against it.
//!
//! The mathematical parser `sparse` reads one frame at a position of a byte
//! sequence and reports one of three outcomes: a frame and the position just
//! past it, a need for more bytes, or a protocol violation. The executable
//! [`Frame::try_parse`] returns exactly what `sparse` says.

use crate::dec::dec_val;
use crate::error::RedisError;
use crate::frame::{
    all_digits, frame_val, frame_views, is_float_lit, BigInt, DoubleValue, Frame, FrameVal,
    pair_views,
};
use vstd::prelude::*;

verus! {

broadcast use {crate::frame::frame_views_len, crate::frame::pair_views_len};

/// The outcome of one parse attempt.
#[derive(Debug)]
pub enum ParseOutcome {
    /// A full frame, and how many bytes of the buffer it occupied.
    Complete { frame: Frame, consumed: usize },
    /// The buffer holds a valid proper prefix of a frame.
    Incomplete,
    /// The buffer cannot hold a frame at this position.
    Invalid,
}

/// The outcome of reading one frame at a position, as mathematics.
#[verifier::ext_equal]
pub enum SpecParsed {
    Found { val: FrameVal, next: int },
    More,
    Bad,
}

/// The outcome of reading a run of frames, as mathematics.
#[verifier::ext_equal]
pub enum SpecItems {
    Found { vals: Seq<FrameVal>, next: int },
    More,
    Bad,
}

/// The outcome of reading a run of key-value pairs, as mathematics.
#[verifier::ext_equal]
pub enum SpecPairs {
    Found { vals: Seq<(FrameVal, FrameVal)>, next: int },
    More,
    Bad,
}

/// The outcome of reading one CRLF-terminated line, as mathematics.
#[verifier::ext_equal]
pub enum SpecLine {
    Line { content: Seq<u8>, next: int },
    More,
    Bad,
}

/// The position of the first CR or LF byte at or after `pos`, or the length
/// of the sequence when there is none.
pub open spec fn first_break(b: Seq<u8>, pos: int) -> int
    decreases b.len() - pos,
{
    if pos < 0 || pos >= b.len() {
        b.len() as int
    } else if b[pos] == 13u8 || b[pos] == 10u8 {
        pos
    } else {
        first_break(b, pos + 1)
    }
}

/// One line starting at `pos`: its content runs to the first CR or LF, which
/// must begin a CRLF pair. A bare LF, or a CR followed by anything but LF,
/// is a protocol violation; a missing terminator means more bytes are
/// needed.
pub open spec fn spec_line(b: Seq<u8>, pos: int) -> SpecLine {
    let i = first_break(b, pos);
    if i >= b.len() {
        SpecLine::More
    } else if b[i] == 10u8 {
        SpecLine::Bad
    } else if i + 1 >= b.len() {
        SpecLine::More
    } else if b[i + 1] == 10u8 {
        SpecLine::Line { content: b.subrange(pos, i), next: i + 2 }
    } else {
        SpecLine::Bad
    }
}

/// The value of a decimal token: an optional sign at position zero followed
/// by at least one digit. `None` when the token is malformed.
pub open spec fn token_val(s: Seq<u8>) -> Option<int> {
    if s.len() > 0 && (s[0] == 45u8 || s[0] == 43u8) {
        let ds = s.subrange(1, s.len() as int);
        if ds.len() > 0 && all_digits(ds) {
            if s[0] == 45u8 {
                Some(-dec_val(ds))
            } else {
                Some(dec_val(ds))
            }
        } else {
            None
        }
    } else if s.len() > 0 && all_digits(s) {
        Some(dec_val(s))
    } else {
        None
    }
}

/// True when `v` fits the signed 64-bit range of wire integers and lengths.
pub open spec fn in_i64(v: int) -> bool {
    i64::MIN <= v <= i64::MAX
}

/// Reads the frame at `pos`.
///
/// Frames are self-delimiting: each marker byte decides how the rest is
/// read, line-terminated payloads run to the first CRLF, and
/// length-prefixed payloads take exactly the announced count of bytes,
/// CRLF-terminated. The RESP2 null sentinels (`$-1`, `*-1`, and likewise
/// `!-1` and `>-1`) produce `Null`.
pub open spec fn sparse(b: Seq<u8>, pos: int) -> SpecParsed
    decreases b.len() - pos, 0int, 0int,
{
    if pos < 0 || pos >= b.len() {
        SpecParsed::More
    } else {
        let t = b[pos];
        if t == 43u8 || t == 45u8 {
            match spec_line(b, pos + 1) {
                SpecLine::Line { content, next } => SpecParsed::Found {
                    val: if t == 43u8 {
                        FrameVal::SimpleString(content)
                    } else {
                        FrameVal::SimpleError(content)
                    },
                    next,
                },
                SpecLine::More => SpecParsed::More,
                SpecLine::Bad => SpecParsed::Bad,
            }
        } else if t == 58u8 {
            match spec_line(b, pos + 1) {
                SpecLine::Line { content, next } => match token_val(content) {
                    Some(v) => if in_i64(v) {
                        SpecParsed::Found { val: FrameVal::Integer(v), next }
                    } else {
                        SpecParsed::Bad
                    },
                    None => SpecParsed::Bad,
                },
                SpecLine::More => SpecParsed::More,
                SpecLine::Bad => SpecParsed::Bad,
            }
        } else if t == 36u8 || t == 33u8 {
            match spec_line(b, pos + 1) {
                SpecLine::Line { content, next } => match token_val(content) {
                    Some(v) => if v == -1 {
                        SpecParsed::Found { val: FrameVal::Null, next }
                    } else if 0 <= v <= i64::MAX {
                        if next + v + 2 > b.len() {
                            SpecParsed::More
                        } else if b[next + v] == 13u8 && b[next + v + 1] == 10u8 {
                            SpecParsed::Found {
                                val: if t == 36u8 {
                                    FrameVal::BulkString(b.subrange(next, next + v))
                                } else {
                                    FrameVal::BulkError(b.subrange(next, next + v))
                                },
                                next: next + v + 2,
                            }
                        } else {
                            SpecParsed::Bad
                        }
                    } else {
                        SpecParsed::Bad
                    },
                    None => SpecParsed::Bad,
                },
                SpecLine::More => SpecParsed::More,
                SpecLine::Bad => SpecParsed::Bad,
            }
        } else if t == 61u8 {
            match spec_line(b, pos + 1) {
                SpecLine::Line { content, next } => match token_val(content) {
                    Some(v) => if 4 <= v <= i64::MAX {
                        if next + v + 2 > b.len() {
                            SpecParsed::More
                        } else if b[next + v] != 13u8 || b[next + v + 1] != 10u8 {
                            SpecParsed::Bad
                        } else if b[next + 3] != 58u8 {
                            SpecParsed::Bad
                        } else {
                            SpecParsed::Found {
                                val: FrameVal::VerbatimString(
                                    b.subrange(next, next + 3),
                                    b.subrange(next + 4, next + v),
                                ),
                                next: next + v + 2,
                            }
                        }
                    } else {
                        SpecParsed::Bad
                    },
                    None => SpecParsed::Bad,
                },
                SpecLine::More => SpecParsed::More,
                SpecLine::Bad => SpecParsed::Bad,
            }
        } else if t == 42u8 || t == 62u8 {
            match spec_line(b, pos + 1) {
                SpecLine::Line { content, next } => match token_val(content) {
                    Some(v) => if v == -1 {
                        SpecParsed::Found { val: FrameVal::Null, next }
                    } else if 0 <= v <= i64::MAX {
                        if !(pos < next <= b.len()) {
                            SpecParsed::Bad
                        } else {
                        match sparse_items(b, next, v) {
                            SpecItems::Found { vals, next: next2 } => SpecParsed::Found {
                                val: if t == 42u8 {
                                    FrameVal::Array(vals)
                                } else {
                                    FrameVal::Push(vals)
                                },
                                next: next2,
                            },
                            SpecItems::More => SpecParsed::More,
                            SpecItems::Bad => SpecParsed::Bad,
                        }
                        }
                    } else {
                        SpecParsed::Bad
                    },
                    None => SpecParsed::Bad,
                },
                SpecLine::More => SpecParsed::More,
                SpecLine::Bad => SpecParsed::Bad,
            }
        } else if t == 126u8 {
            match spec_line(b, pos + 1) {
                SpecLine::Line { content, next } => match token_val(content) {
                    Some(v) => if 0 <= v <= i64::MAX {
                        if !(pos < next <= b.len()) {
                            SpecParsed::Bad
                        } else {
                        match sparse_items(b, next, v) {
                            SpecItems::Found { vals, next: next2 } => SpecParsed::Found {
                                val: FrameVal::SetFrame(vals),
                                next: next2,
                            },
                            SpecItems::More => SpecParsed::More,
                            SpecItems::Bad => SpecParsed::Bad,
                        }
                        }
                    } else {
                        SpecParsed::Bad
                    },
                    None => SpecParsed::Bad,
                },
                SpecLine::More => SpecParsed::More,
                SpecLine::Bad => SpecParsed::Bad,
            }
        } else if t == 37u8 {
            match spec_line(b, pos + 1) {
                SpecLine::Line { content, next } => match token_val(content) {
                    Some(v) => if 0 <= v <= i64::MAX {
                        if !(pos < next <= b.len()) {
                            SpecParsed::Bad
                        } else {
                        match sparse_pairs(b, next, v) {
                            SpecPairs::Found { vals, next: next2 } => SpecParsed::Found {
                                val: FrameVal::MapFrame(vals),
                                next: next2,
                            },
                            SpecPairs::More => SpecParsed::More,
                            SpecPairs::Bad => SpecParsed::Bad,
                        }
                        }
                    } else {
                        SpecParsed::Bad
                    },
                    None => SpecParsed::Bad,
                },
                SpecLine::More => SpecParsed::More,
                SpecLine::Bad => SpecParsed::Bad,
            }
        } else if t == 95u8 {
            match spec_line(b, pos + 1) {
                SpecLine::Line { content, next } => if content.len() == 0 {
                    SpecParsed::Found { val: FrameVal::Null, next }
                } else {
                    SpecParsed::Bad
                },
                SpecLine::More => SpecParsed::More,
                SpecLine::Bad => SpecParsed::Bad,
            }
        } else if t == 35u8 {
            match spec_line(b, pos + 1) {
                SpecLine::Line { content, next } => if content == seq![116u8] {
                    SpecParsed::Found { val: FrameVal::Boolean(true), next }
                } else if content == seq![102u8] {
                    SpecParsed::Found { val: FrameVal::Boolean(false), next }
                } else {
                    SpecParsed::Bad
                },
                SpecLine::More => SpecParsed::More,
                SpecLine::Bad => SpecParsed::Bad,
            }
        } else if t == 44u8 {
            match spec_line(b, pos + 1) {
                SpecLine::Line { content, next } => if content == seq![110u8, 97u8, 110u8] {
                    SpecParsed::Found { val: FrameVal::Double(crate::frame::DoubleVal::Nan), next }
                } else if content == seq![105u8, 110u8, 102u8] {
                    SpecParsed::Found { val: FrameVal::Double(crate::frame::DoubleVal::Inf), next }
                } else if content == seq![45u8, 105u8, 110u8, 102u8] {
                    SpecParsed::Found {
                        val: FrameVal::Double(crate::frame::DoubleVal::NegInf),
                        next,
                    }
                } else if is_float_lit(content) {
                    SpecParsed::Found {
                        val: FrameVal::Double(crate::frame::DoubleVal::Finite(content)),
                        next,
                    }
                } else {
                    SpecParsed::Bad
                },
                SpecLine::More => SpecParsed::More,
                SpecLine::Bad => SpecParsed::Bad,
            }
        } else if t == 40u8 {
            match spec_line(b, pos + 1) {
                SpecLine::Line { content, next } => if content.len() > 0 && (content[0] == 45u8
                    || content[0] == 43u8) {
                    let ds = content.subrange(1, content.len() as int);
                    if ds.len() > 0 && all_digits(ds) {
                        SpecParsed::Found {
                            val: FrameVal::BigNumber {
                                negative: content[0] == 45u8,
                                digits: ds,
                            },
                            next,
                        }
                    } else {
                        SpecParsed::Bad
                    }
                } else if content.len() > 0 && all_digits(content) {
                    SpecParsed::Found {
                        val: FrameVal::BigNumber { negative: false, digits: content },
                        next,
                    }
                } else {
                    SpecParsed::Bad
                },
                SpecLine::More => SpecParsed::More,
                SpecLine::Bad => SpecParsed::Bad,
            }
        } else {
            SpecParsed::Bad
        }
    }
}

/// Reads `n` frames in a row starting at `pos`.
pub open spec fn sparse_items(b: Seq<u8>, pos: int, n: int) -> SpecItems
    decreases b.len() - pos, 1int, n,
{
    if n <= 0 {
        SpecItems::Found { vals: Seq::empty(), next: pos }
    } else {
        match sparse(b, pos) {
            SpecParsed::Found { val, next } => if pos < next <= b.len() {
                match sparse_items(b, next, n - 1) {
                    SpecItems::Found { vals, next: next2 } => SpecItems::Found {
                        vals: seq![val] + vals,
                        next: next2,
                    },
                    SpecItems::More => SpecItems::More,
                    SpecItems::Bad => SpecItems::Bad,
                }
            } else {
                SpecItems::Bad
            },
            SpecParsed::More => SpecItems::More,
            SpecParsed::Bad => SpecItems::Bad,
        }
    }
}

/// Reads `n` key-value pairs in a row starting at `pos`.
pub open spec fn sparse_pairs(b: Seq<u8>, pos: int, n: int) -> SpecPairs
    decreases b.len() - pos, 1int, n,
{
    if n <= 0 {
        SpecPairs::Found { vals: Seq::empty(), next: pos }
    } else {
        match sparse(b, pos) {
            SpecParsed::Found { val: k, next } => if pos < next <= b.len() {
                match sparse(b, next) {
                    SpecParsed::Found { val: w, next: next2 } => if next < next2 <= b.len() {
                        match sparse_pairs(b, next2, n - 1) {
                            SpecPairs::Found { vals, next: next3 } => SpecPairs::Found {
                                vals: seq![(k, w)] + vals,
                                next: next3,
                            },
                            SpecPairs::More => SpecPairs::More,
                            SpecPairs::Bad => SpecPairs::Bad,
                        }
                    } else {
                        SpecPairs::Bad
                    },
                    SpecParsed::More => SpecPairs::More,
                    SpecParsed::Bad => SpecPairs::Bad,
                }
            } else {
                SpecPairs::Bad
            },
            SpecParsed::More => SpecPairs::More,
            SpecParsed::Bad => SpecPairs::Bad,
        }
    }
}

/// Prepends already-read frames onto the outcome of reading the rest.
pub open spec fn items_prepend(pre: Seq<FrameVal>, r: SpecItems) -> SpecItems {
    match r {
        SpecItems::Found { vals, next } => SpecItems::Found { vals: pre + vals, next },
        SpecItems::More => SpecItems::More,
        SpecItems::Bad => SpecItems::Bad,
    }
}

/// Prepends already-read pairs onto the outcome of reading the rest.
pub open spec fn pairs_prepend(pre: Seq<(FrameVal, FrameVal)>, r: SpecPairs) -> SpecPairs {
    match r {
        SpecPairs::Found { vals, next } => SpecPairs::Found { vals: pre + vals, next },
        SpecPairs::More => SpecPairs::More,
        SpecPairs::Bad => SpecPairs::Bad,
    }
}

proof fn lemma_items_prepend_assoc(x: Seq<FrameVal>, y: Seq<FrameVal>, r: SpecItems)
    ensures
        items_prepend(x, items_prepend(y, r)) == items_prepend(x + y, r),
{
    match r {
        SpecItems::Found { vals, next } => {
            assert(x + (y + vals) =~= (x + y) + vals);
            assert(items_prepend(x, items_prepend(y, r)) =~= items_prepend(x + y, r));
        },
        _ => {},
    }
}

proof fn lemma_pairs_prepend_assoc(
    x: Seq<(FrameVal, FrameVal)>,
    y: Seq<(FrameVal, FrameVal)>,
    r: SpecPairs,
)
    ensures
        pairs_prepend(x, pairs_prepend(y, r)) == pairs_prepend(x + y, r),
{
    match r {
        SpecPairs::Found { vals, next } => {
            assert(x + (y + vals) =~= (x + y) + vals);
            assert(pairs_prepend(x, pairs_prepend(y, r)) =~= pairs_prepend(x + y, r));
        },
        _ => {},
    }
}

/// `first_break` is the first break byte: everything before `i` is ordinary
/// and `i` is a break or the end.
pub proof fn lemma_first_break_is(b: Seq<u8>, pos: int, i: int)
    requires
        0 <= pos <= i <= b.len(),
        forall|j: int| pos <= j < i ==> b[j] != 13u8 && b[j] != 10u8,
        i == b.len() || b[i] == 13u8 || b[i] == 10u8,
    ensures
        first_break(b, pos) == i,
    decreases i - pos,
{
    if pos < i {
        lemma_first_break_is(b, pos + 1, i);
    }
}

/// The outcome of the executable line scan.
enum LineStep {
    Line { end: usize, next: usize },
    More,
    Bad,
}

/// Finds the CRLF-terminated line starting at `pos`.
fn find_line(buf: &[u8], pos: usize) -> (r: LineStep)
    requires
        pos <= buf@.len(),
    ensures
        match r {
            LineStep::Line { end, next } => {
                &&& spec_line(buf@, pos as int) == SpecLine::Line {
                    content: buf@.subrange(pos as int, end as int),
                    next: next as int,
                }
                &&& pos <= end
                &&& next == end + 2
                &&& next <= buf@.len()
            },
            LineStep::More => spec_line(buf@, pos as int) is More,
            LineStep::Bad => spec_line(buf@, pos as int) is Bad,
        },
{
    let n = buf.len();
    let mut i: usize = pos;
    while i < n
        invariant
            pos <= i <= n == buf@.len(),
            forall|j: int| pos <= j < i ==> buf@[j] != 13u8 && buf@[j] != 10u8,
        ensures
            pos <= i <= n == buf@.len(),
            forall|j: int| pos <= j < i ==> buf@[j] != 13u8 && buf@[j] != 10u8,
            i < n ==> (buf@[i as int] == 13u8 || buf@[i as int] == 10u8),
        decreases n - i,
    {
        let c = buf[i];
        if c == 13u8 || c == 10u8 {
            break;
        }
        i = i + 1;
    }
    proof {
        lemma_first_break_is(buf@, pos as int, i as int);
    }
    if i == n {
        return LineStep::More;
    }
    if buf[i] == 10u8 {
        return LineStep::Bad;
    }
    if i + 1 >= n {
        return LineStep::More;
    }
    if buf[i + 1] == 10u8 {
        LineStep::Line { end: i, next: i + 2 }
    } else {
        LineStep::Bad
    }
}

/// Copies `buf[from..to]` into a fresh vector.
fn copy_range(buf: &[u8], from: usize, to: usize) -> (v: Vec<u8>)
    requires
        from <= to <= buf@.len(),
    ensures
        v@ == buf@.subrange(from as int, to as int),
{
    let mut v: Vec<u8> = Vec::new();
    let mut i: usize = from;
    while i < to
        invariant
            from <= i <= to <= buf@.len(),
            v@ == buf@.subrange(from as int, i as int),
        decreases to - i,
    {
        v.push(buf[i]);
        proof {
            assert(buf@.subrange(from as int, i + 1) =~= buf@.subrange(
                from as int,
                i as int,
            ).push(buf@[i as int]));
        }
        i = i + 1;
    }
    v
}

/// True when every byte of `buf[from..to]` is an ASCII digit.
fn digits_range(buf: &[u8], from: usize, to: usize) -> (r: bool)
    requires
        from <= to <= buf@.len(),
    ensures
        r == all_digits(buf@.subrange(from as int, to as int)),
{
    let ghost part = buf@.subrange(from as int, to as int);
    let mut i: usize = from;
    while i < to
        invariant
            from <= i <= to <= buf@.len(),
            part == buf@.subrange(from as int, to as int),
            forall|j: int| from <= j < i ==> crate::frame::is_digit_byte(#[trigger] buf@[j]),
        decreases to - i,
    {
        let c = buf[i];
        if c < 48u8 || c > 57u8 {
            assert(part[i - from] == buf@[i as int]);
            return false;
        }
        i = i + 1;
    }
    assert forall|j: int| 0 <= j < part.len() implies crate::frame::is_digit_byte(
        #[trigger] part[j],
    ) by {
        assert(part[j] == buf@[from + j]);
    }
    true
}

/// The outcome of the executable token evaluation.
pub(crate) enum TokenVal {
    /// A well-formed token whose value fits a signed 64-bit integer.
    Value(i64),
    /// A well-formed token whose value does not fit.
    Overflow,
    /// Not a decimal token.
    Malformed,
}

/// Evaluates the decimal token in `buf[from..to]`.
pub(crate) fn eval_token(buf: &[u8], from: usize, to: usize) -> (r: TokenVal)
    requires
        from <= to <= buf@.len(),
    ensures
        match token_val(buf@.subrange(from as int, to as int)) {
            Some(v) => if in_i64(v) {
                r matches TokenVal::Value(x) && x as int == v
            } else {
                r is Overflow
            },
            None => r is Malformed,
        },
{
    let ghost tok = buf@.subrange(from as int, to as int);
    if from == to {
        return TokenVal::Malformed;
    }
    let first = buf[from];
    let neg = first == 45u8;
    let signed = neg || first == 43u8;
    let ds_from = if signed {
        from + 1
    } else {
        from
    };
    let ghost ds = tok.subrange(if signed { 1int } else { 0int }, tok.len() as int);
    proof {
        assert(ds =~= buf@.subrange(ds_from as int, to as int));
        if !signed {
            assert(ds =~= tok);
        }
    }
    if ds_from == to {
        // a bare sign
        return TokenVal::Malformed;
    }
    if !digits_range(buf, ds_from, to) {
        proof {
            if signed {
                assert(tok[0] == buf@[from as int]);
            }
        }
        return TokenVal::Malformed;
    }
    // accumulate the magnitude, tracking overflow past the 64-bit range
    let mut mag: u64 = 0;
    let mut over: bool = false;
    let mut i: usize = ds_from;
    while i < to
        invariant
            ds_from <= i <= to <= buf@.len(),
            ds == buf@.subrange(ds_from as int, to as int),
            all_digits(ds),
            !over ==> mag as int == dec_val(buf@.subrange(ds_from as int, i as int)),
            over ==> dec_val(buf@.subrange(ds_from as int, i as int)) > u64::MAX as int,
        decreases to - i,
    {
        let d = buf[i];
        let ghost seen = buf@.subrange(ds_from as int, i as int);
        proof {
            assert(buf@.subrange(ds_from as int, i + 1) =~= seen.push(buf@[i as int]));
            crate::dec::lemma_dec_val_push(seen, buf@[i as int]);
            assert(all_digits(seen)) by {
                assert(forall|j: int|
                    0 <= j < seen.len() ==> seen[j] == ds[j] && crate::frame::is_digit_byte(
                        #[trigger] ds[j],
                    ));
            }
            crate::dec::lemma_dec_val_nonneg(seen);
        }
        if over {
            proof {
                assert(dec_val(seen.push(buf@[i as int])) >= dec_val(seen));
            }
        } else if mag > (u64::MAX - 9) / 10 {
            // one more digit would pass the 64-bit range
            if mag > u64::MAX / 10 || (mag == u64::MAX / 10 && d - 48u8 > 5u8) {
                over = true;
            } else {
                mag = mag * 10 + (d - 48u8) as u64;
            }
        } else {
            mag = mag * 10 + (d - 48u8) as u64;
        }
        i = i + 1;
    }
    proof {
        assert(buf@.subrange(ds_from as int, to as int) == ds);
    }
    let v = if neg {
        proof {
            assert(token_val(tok) == Some(-dec_val(ds))) by {
                assert(tok[0] == buf@[from as int]);
            }
        }
        if over || mag > 9223372036854775808u64 {
            return TokenVal::Overflow;
        }
        if mag == 9223372036854775808u64 {
            i64::MIN
        } else {
            -(mag as i64)
        }
    } else {
        proof {
            if signed {
                assert(tok[0] == buf@[from as int]);
            }
            assert(token_val(tok) == Some(dec_val(ds)));
        }
        if over || mag > i64::MAX as u64 {
            return TokenVal::Overflow;
        }
        mag as i64
    };
    TokenVal::Value(v)
}


proof fn lemma_items_prepend_empty(r: SpecItems)
    ensures
        items_prepend(Seq::empty(), r) == r,
{
    match r {
        SpecItems::Found { vals, next } => {
            assert(Seq::empty() + vals =~= vals);
            assert(items_prepend(Seq::empty(), r) =~= r);
        },
        _ => {},
    }
}

proof fn lemma_pairs_prepend_empty(r: SpecPairs)
    ensures
        pairs_prepend(Seq::empty(), r) == r,
{
    match r {
        SpecPairs::Found { vals, next } => {
            assert(Seq::empty() + vals =~= vals);
            assert(pairs_prepend(Seq::empty(), r) =~= r);
        },
        _ => {},
    }
}

/// The outcome of the executable run-of-frames parse.
enum ItemsOut {
    Done { items: Vec<Frame>, next: usize },
    More,
    Bad,
}

/// The outcome of the executable run-of-pairs parse.
enum PairsOut {
    Done { items: Vec<(Frame, Frame)>, next: usize },
    More,
    Bad,
}

/// Reads `count` frames in a row starting at `start`.
fn parse_items(buf: &[u8], start: usize, count: u64) -> (r: ItemsOut)
    requires
        start <= buf@.len(),
    ensures
        match sparse_items(buf@, start as int, count as int) {
            SpecItems::Found { vals, next } => (r matches ItemsOut::Done { items, next: nx }
                && frame_views(items@) == vals && nx as int == next && start <= nx <= buf@.len()),
            SpecItems::More => r is More,
            SpecItems::Bad => r is Bad,
        },
    decreases buf@.len() - start, 1int,
{
    let ghost n = count as int;
    let mut items: Vec<Frame> = Vec::new();
    let mut cur: usize = start;
    let mut k: u64 = 0;
    proof {
        lemma_items_prepend_empty(sparse_items(buf@, start as int, n));
        assert(frame_views(items@) =~= Seq::<FrameVal>::empty());
    }
    while k < count
        invariant
            start <= cur <= buf@.len(),
            k <= count,
            n == count as int,
            items@.len() == k,
            sparse_items(buf@, start as int, n) == items_prepend(
                frame_views(items@),
                sparse_items(buf@, cur as int, n - k),
            ),
        decreases count - k,
    {
        let ghost rem = n - k;
        let ghost pre = frame_views(items@);
        match parse_at(buf, cur) {
            ParseOutcome::Complete { frame, consumed } => {
                proof {
                    let inner = sparse_items(buf@, consumed as int, rem - 1);
                    assert(sparse_items(buf@, cur as int, rem) == items_prepend(
                        seq![frame@],
                        inner,
                    )) by {
                        match inner {
                            SpecItems::Found { vals, next } => {
                                assert(seq![frame@] + vals =~= seq![frame_val(frame)] + vals);
                            },
                            _ => {},
                        }
                        assert(sparse_items(buf@, cur as int, rem) =~= items_prepend(
                            seq![frame@],
                            inner,
                        ));
                    }
                    lemma_items_prepend_assoc(pre, seq![frame@], inner);
                    crate::frame::frame_views_push(items@, frame);
                    assert(pre + seq![frame@] =~= pre.push(frame@));
                }
                items.push(frame);
                cur = consumed;
                k = k + 1;
            },
            ParseOutcome::Incomplete => {
                proof {
                    assert(sparse_items(buf@, cur as int, rem) is More);
                }
                return ItemsOut::More;
            },
            ParseOutcome::Invalid => {
                proof {
                    assert(sparse_items(buf@, cur as int, rem) is Bad);
                }
                return ItemsOut::Bad;
            },
        }
    }
    proof {
        assert(sparse_items(buf@, cur as int, 0) == SpecItems::Found {
            vals: Seq::empty(),
            next: cur as int,
        });
        assert(frame_views(items@) + Seq::<FrameVal>::empty() =~= frame_views(items@));
        assert(sparse_items(buf@, start as int, n) =~= SpecItems::Found {
            vals: frame_views(items@),
            next: cur as int,
        });
    }
    ItemsOut::Done { items, next: cur }
}

/// Reads `count` key-value pairs in a row starting at `start`.
fn parse_pairs(buf: &[u8], start: usize, count: u64) -> (r: PairsOut)
    requires
        start <= buf@.len(),
    ensures
        match sparse_pairs(buf@, start as int, count as int) {
            SpecPairs::Found { vals, next } => (r matches PairsOut::Done { items, next: nx }
                && pair_views(items@) == vals && nx as int == next && start <= nx <= buf@.len()),
            SpecPairs::More => r is More,
            SpecPairs::Bad => r is Bad,
        },
    decreases buf@.len() - start, 1int,
{
    let ghost n = count as int;
    let mut items: Vec<(Frame, Frame)> = Vec::new();
    let mut cur: usize = start;
    let mut k: u64 = 0;
    proof {
        lemma_pairs_prepend_empty(sparse_pairs(buf@, start as int, n));
        assert(pair_views(items@) =~= Seq::<(FrameVal, FrameVal)>::empty());
    }
    while k < count
        invariant
            start <= cur <= buf@.len(),
            k <= count,
            n == count as int,
            items@.len() == k,
            sparse_pairs(buf@, start as int, n) == pairs_prepend(
                pair_views(items@),
                sparse_pairs(buf@, cur as int, n - k),
            ),
        decreases count - k,
    {
        let ghost rem = n - k;
        let ghost pre = pair_views(items@);
        let kf = match parse_at(buf, cur) {
            ParseOutcome::Complete { frame, consumed } => (frame, consumed),
            ParseOutcome::Incomplete => {
                proof {
                    assert(sparse_pairs(buf@, cur as int, rem) is More);
                }
                return PairsOut::More;
            },
            ParseOutcome::Invalid => {
                proof {
                    assert(sparse_pairs(buf@, cur as int, rem) is Bad);
                }
                return PairsOut::Bad;
            },
        };
        let (kframe, c1) = kf;
        let wf = match parse_at(buf, c1) {
            ParseOutcome::Complete { frame, consumed } => (frame, consumed),
            ParseOutcome::Incomplete => {
                proof {
                    assert(sparse_pairs(buf@, cur as int, rem) is More);
                }
                return PairsOut::More;
            },
            ParseOutcome::Invalid => {
                proof {
                    assert(sparse_pairs(buf@, cur as int, rem) is Bad);
                }
                return PairsOut::Bad;
            },
        };
        let (wframe, c2) = wf;
        proof {
            let inner = sparse_pairs(buf@, c2 as int, rem - 1);
            assert(sparse_pairs(buf@, cur as int, rem) == pairs_prepend(
                seq![(kframe@, wframe@)],
                inner,
            )) by {
                assert(sparse_pairs(buf@, cur as int, rem) =~= pairs_prepend(
                    seq![(kframe@, wframe@)],
                    inner,
                ));
            }
            lemma_pairs_prepend_assoc(pre, seq![(kframe@, wframe@)], inner);
            crate::frame::pair_views_push(items@, kframe, wframe);
            assert(pre + seq![(kframe@, wframe@)] =~= pre.push((kframe@, wframe@)));
        }
        items.push((kframe, wframe));
        cur = c2;
        k = k + 1;
    }
    proof {
        assert(sparse_pairs(buf@, cur as int, 0) == SpecPairs::Found {
            vals: Seq::empty(),
            next: cur as int,
        });
        assert(pair_views(items@) + Seq::<(FrameVal, FrameVal)>::empty() =~= pair_views(items@));
        assert(sparse_pairs(buf@, start as int, n) =~= SpecPairs::Found {
            vals: pair_views(items@),
            next: cur as int,
        });
    }
    PairsOut::Done { items, next: cur }
}


/// Reads the frame at `pos`, returning the absolute position just past it
/// in the `consumed` field.
#[verifier::rlimit(100)]
fn parse_at(buf: &[u8], pos: usize) -> (r: ParseOutcome)
    requires
        pos <= buf@.len(),
    ensures
        match sparse(buf@, pos as int) {
            SpecParsed::Found { val, next } => (r matches ParseOutcome::Complete {
                frame,
                consumed,
            } && frame@ == val && consumed as int == next && pos < consumed <= buf@.len()),
            SpecParsed::More => r is Incomplete,
            SpecParsed::Bad => r is Invalid,
        },
    decreases buf@.len() - pos, 0int,
{
    let n = buf.len();
    if pos >= n {
        return ParseOutcome::Incomplete;
    }
    let t = buf[pos];
    if t == 43u8 || t == 45u8 {
        // simple string or simple error
        match find_line(buf, pos + 1) {
            LineStep::Line { end, next } => {
                let content = copy_range(buf, pos + 1, end);
                let frame = if t == 43u8 {
                    Frame::SimpleString(content)
                } else {
                    Frame::SimpleError(content)
                };
                ParseOutcome::Complete { frame, consumed: next }
            },
            LineStep::More => ParseOutcome::Incomplete,
            LineStep::Bad => ParseOutcome::Invalid,
        }
    } else if t == 58u8 {
        // integer
        match find_line(buf, pos + 1) {
            LineStep::Line { end, next } => match eval_token(buf, pos + 1, end) {
                TokenVal::Value(v) => ParseOutcome::Complete {
                    frame: Frame::Integer(v),
                    consumed: next,
                },
                TokenVal::Overflow => ParseOutcome::Invalid,
                TokenVal::Malformed => ParseOutcome::Invalid,
            },
            LineStep::More => ParseOutcome::Incomplete,
            LineStep::Bad => ParseOutcome::Invalid,
        }
    } else if t == 36u8 || t == 33u8 {
        // bulk string or bulk error
        match find_line(buf, pos + 1) {
            LineStep::Line { end, next } => match eval_token(buf, pos + 1, end) {
                TokenVal::Value(v) => {
                    if v == -1 {
                        ParseOutcome::Complete { frame: Frame::Null, consumed: next }
                    } else if v < 0 {
                        ParseOutcome::Invalid
                    } else {
                        let remaining = n - next;
                        if (remaining as u64) < v as u64 + 2 {
                            ParseOutcome::Incomplete
                        } else {
                            let vs = v as usize;
                            let stop = next + vs;
                            if buf[stop] == 13u8 && buf[stop + 1] == 10u8 {
                                let payload = copy_range(buf, next, stop);
                                let frame = if t == 36u8 {
                                    Frame::BulkString(payload)
                                } else {
                                    Frame::BulkError(payload)
                                };
                                ParseOutcome::Complete { frame, consumed: stop + 2 }
                            } else {
                                ParseOutcome::Invalid
                            }
                        }
                    }
                },
                TokenVal::Overflow => ParseOutcome::Invalid,
                TokenVal::Malformed => ParseOutcome::Invalid,
            },
            LineStep::More => ParseOutcome::Incomplete,
            LineStep::Bad => ParseOutcome::Invalid,
        }
    } else if t == 61u8 {
        // verbatim string
        match find_line(buf, pos + 1) {
            LineStep::Line { end, next } => match eval_token(buf, pos + 1, end) {
                TokenVal::Value(v) => {
                    if v < 4 {
                        ParseOutcome::Invalid
                    } else {
                        let remaining = n - next;
                        if (remaining as u64) < v as u64 + 2 {
                            ParseOutcome::Incomplete
                        } else {
                            let vs = v as usize;
                            let stop = next + vs;
                            if buf[stop] != 13u8 || buf[stop + 1] != 10u8 {
                                ParseOutcome::Invalid
                            } else if buf[next + 3] != 58u8 {
                                ParseOutcome::Invalid
                            } else {
                                let enc = copy_range(buf, next, next + 3);
                                let payload = copy_range(buf, next + 4, stop);
                                ParseOutcome::Complete {
                                    frame: Frame::VerbatimString(enc, payload),
                                    consumed: stop + 2,
                                }
                            }
                        }
                    }
                },
                TokenVal::Overflow => ParseOutcome::Invalid,
                TokenVal::Malformed => ParseOutcome::Invalid,
            },
            LineStep::More => ParseOutcome::Incomplete,
            LineStep::Bad => ParseOutcome::Invalid,
        }
    } else if t == 42u8 || t == 62u8 || t == 126u8 {
        // array, push, or set
        match find_line(buf, pos + 1) {
            LineStep::Line { end, next } => match eval_token(buf, pos + 1, end) {
                TokenVal::Value(v) => {
                    if v == -1 && (t == 42u8 || t == 62u8) {
                        ParseOutcome::Complete { frame: Frame::Null, consumed: next }
                    } else if v < 0 {
                        ParseOutcome::Invalid
                    } else {
                        match parse_items(buf, next, v as u64) {
                            ItemsOut::Done { items, next: next2 } => {
                                let frame = if t == 42u8 {
                                    Frame::Array(items)
                                } else if t == 62u8 {
                                    Frame::Push(items)
                                } else {
                                    Frame::SetFrame(items)
                                };
                                ParseOutcome::Complete { frame, consumed: next2 }
                            },
                            ItemsOut::More => ParseOutcome::Incomplete,
                            ItemsOut::Bad => ParseOutcome::Invalid,
                        }
                    }
                },
                TokenVal::Overflow => ParseOutcome::Invalid,
                TokenVal::Malformed => ParseOutcome::Invalid,
            },
            LineStep::More => ParseOutcome::Incomplete,
            LineStep::Bad => ParseOutcome::Invalid,
        }
    } else if t == 37u8 {
        // map
        match find_line(buf, pos + 1) {
            LineStep::Line { end, next } => match eval_token(buf, pos + 1, end) {
                TokenVal::Value(v) => {
                    if v < 0 {
                        ParseOutcome::Invalid
                    } else {
                        match parse_pairs(buf, next, v as u64) {
                            PairsOut::Done { items, next: next2 } => ParseOutcome::Complete {
                                frame: Frame::MapFrame(items),
                                consumed: next2,
                            },
                            PairsOut::More => ParseOutcome::Incomplete,
                            PairsOut::Bad => ParseOutcome::Invalid,
                        }
                    }
                },
                TokenVal::Overflow => ParseOutcome::Invalid,
                TokenVal::Malformed => ParseOutcome::Invalid,
            },
            LineStep::More => ParseOutcome::Incomplete,
            LineStep::Bad => ParseOutcome::Invalid,
        }
    } else if t == 95u8 {
        // null
        match find_line(buf, pos + 1) {
            LineStep::Line { end, next } => {
                if end == pos + 1 {
                    proof {
                        assert(buf@.subrange(pos + 1, end as int) =~= Seq::<u8>::empty());
                    }
                    ParseOutcome::Complete { frame: Frame::Null, consumed: next }
                } else {
                    ParseOutcome::Invalid
                }
            },
            LineStep::More => ParseOutcome::Incomplete,
            LineStep::Bad => ParseOutcome::Invalid,
        }
    } else if t == 35u8 {
        // boolean
        match find_line(buf, pos + 1) {
            LineStep::Line { end, next } => {
                let ghost content = buf@.subrange(pos + 1, end as int);
                if end == pos + 2 && buf[pos + 1] == 116u8 {
                    proof {
                        assert(content =~= seq![116u8]);
                    }
                    ParseOutcome::Complete { frame: Frame::Boolean(true), consumed: next }
                } else if end == pos + 2 && buf[pos + 1] == 102u8 {
                    proof {
                        assert(content =~= seq![102u8]);
                    }
                    ParseOutcome::Complete { frame: Frame::Boolean(false), consumed: next }
                } else {
                    proof {
                        if content.len() == 1 {
                            assert(content[0] == buf@[pos + 1]);
                        }
                        assert(content != seq![116u8] && content != seq![102u8]) by {
                            if content == seq![116u8] || content == seq![102u8] {
                                assert(content.len() == 1);
                            }
                        }
                    }
                    ParseOutcome::Invalid
                }
            },
            LineStep::More => ParseOutcome::Incomplete,
            LineStep::Bad => ParseOutcome::Invalid,
        }
    } else if t == 44u8 {
        // double
        match find_line(buf, pos + 1) {
            LineStep::Line { end, next } => {
                let ghost content = buf@.subrange(pos + 1, end as int);
                let text = copy_range(buf, pos + 1, end);
                let len = end - (pos + 1);
                if len == 3 && text[0] == 110u8 && text[1] == 97u8 && text[2] == 110u8 {
                    proof {
                        assert(content =~= seq![110u8, 97u8, 110u8]);
                    }
                    ParseOutcome::Complete {
                        frame: Frame::Double(DoubleValue::Nan),
                        consumed: next,
                    }
                } else if len == 3 && text[0] == 105u8 && text[1] == 110u8 && text[2] == 102u8 {
                    proof {
                        assert(content =~= seq![105u8, 110u8, 102u8]);
                    }
                    ParseOutcome::Complete {
                        frame: Frame::Double(DoubleValue::Inf),
                        consumed: next,
                    }
                } else if len == 4 && text[0] == 45u8 && text[1] == 105u8 && text[2] == 110u8
                    && text[3] == 102u8 {
                    proof {
                        assert(content =~= seq![45u8, 105u8, 110u8, 102u8]);
                    }
                    ParseOutcome::Complete {
                        frame: Frame::Double(DoubleValue::NegInf),
                        consumed: next,
                    }
                } else {
                    proof {
                        assert(content != seq![110u8, 97u8, 110u8] && content != seq![
                            105u8,
                            110u8,
                            102u8,
                        ] && content != seq![45u8, 105u8, 110u8, 102u8]) by {
                            assert(content == text@);
                        }
                    }
                    if crate::serialize::check_float_lit(&text) {
                        ParseOutcome::Complete {
                            frame: Frame::Double(DoubleValue::Finite(text)),
                            consumed: next,
                        }
                    } else {
                        ParseOutcome::Invalid
                    }
                }
            },
            LineStep::More => ParseOutcome::Incomplete,
            LineStep::Bad => ParseOutcome::Invalid,
        }
    } else if t == 40u8 {
        // big number
        match find_line(buf, pos + 1) {
            LineStep::Line { end, next } => {
                let ghost content = buf@.subrange(pos + 1, end as int);
                let start = pos + 1;
                if end == start {
                    return ParseOutcome::Invalid;
                }
                let c0 = buf[start];
                proof {
                    assert(content[0] == buf@[start as int]);
                }
                if c0 == 45u8 || c0 == 43u8 {
                    proof {
                        assert(content.subrange(1, content.len() as int) =~= buf@.subrange(
                            start + 1,
                            end as int,
                        ));
                    }
                    if end - start < 2 {
                        ParseOutcome::Invalid
                    } else if digits_range(buf, start + 1, end) {
                        let digits = copy_range(buf, start + 1, end);
                        ParseOutcome::Complete {
                            frame: Frame::BigNumber(
                                BigInt { negative: c0 == 45u8, digits },
                            ),
                            consumed: next,
                        }
                    } else {
                        ParseOutcome::Invalid
                    }
                } else {
                    if digits_range(buf, start, end) {
                        let digits = copy_range(buf, start, end);
                        ParseOutcome::Complete {
                            frame: Frame::BigNumber(BigInt { negative: false, digits }),
                            consumed: next,
                        }
                    } else {
                        ParseOutcome::Invalid
                    }
                }
            },
            LineStep::More => ParseOutcome::Incomplete,
            LineStep::Bad => ParseOutcome::Invalid,
        }
    } else {
        ParseOutcome::Invalid
    }
}

impl Frame {
    /// Attempts to read one frame from the front of `buf`.
    ///
    /// `Complete` reports the frame and how many bytes it occupied, so a
    /// caller holding several frames back to back can drop exactly those
    /// bytes and parse again. `Incomplete` means the buffer is a valid
    /// proper prefix of a frame; `Invalid` means no extension of the buffer
    /// parses at this position.
    pub fn try_parse(buf: &[u8]) -> (r: ParseOutcome)
        ensures
            match sparse(buf@, 0) {
                SpecParsed::Found { val, next } => (r matches ParseOutcome::Complete {
                    frame,
                    consumed,
                } && frame@ == val && consumed as int == next && 0 < next <= buf@.len()),
                SpecParsed::More => r is Incomplete,
                SpecParsed::Bad => r is Invalid,
            },
    {
        parse_at(buf, 0)
    }

    /// Parses one frame from the start of `buf`, ignoring any trailing
    /// bytes.
    pub fn deserialize(buf: &Vec<u8>) -> (r: Result<Frame, RedisError>)
        ensures
            match sparse(buf@, 0) {
                SpecParsed::Found { val, next } => (r matches Ok(frame) && frame@ == val),
                SpecParsed::More => (r matches Err(RedisError::IncompleteFrame)),
                SpecParsed::Bad => (r matches Err(RedisError::InvalidFrame)),
            },
    {
        match Frame::try_parse(buf.as_slice()) {
            ParseOutcome::Complete { frame, consumed } => Ok(frame),
            ParseOutcome::Incomplete => Err(RedisError::IncompleteFrame),
            ParseOutcome::Invalid => Err(RedisError::InvalidFrame),
        }
    }
}

} // verus!

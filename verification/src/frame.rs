//! The RESP frame type, its mathematical model, and its well-formedness
//! predicate.
//!
//! A [`Frame`] is one self-delimited unit on the wire. Its model,
//! [`FrameVal`], replaces every byte vector with a `Seq<u8>` and every child
//! list with a `Seq` of models, so that the codec's contracts can be stated
//! in pure mathematics. `frame_ok` says which models serialize: text payloads
//! of line-terminated frames must not contain CR or LF, lengths must fit a
//! signed 64-bit prefix, and a finite double payload must be a decimal
//! literal.

use crate::error::RedisError;
use vstd::prelude::*;

verus! {

/// The payload of a double frame, kept as wire text for the finite case.
///
/// The finite payload is the exact decimal literal that appears between the
/// `,` marker and the CRLF terminator, so serializing and reparsing returns
/// the payload unchanged, and a NaN compares equal to itself structurally.
#[derive(Debug)]
pub enum DoubleValue {
    /// Encoded as the token `nan`.
    Nan,
    /// Positive infinity, encoded as the token `inf`.
    Inf,
    /// Negative infinity, encoded as the token `-inf`.
    NegInf,
    /// A finite value, as its decimal literal text.
    Finite(Vec<u8>),
}

/// An arbitrary-precision signed integer: a sign and its decimal digits.
#[derive(Debug)]
pub struct BigInt {
    /// True for negative values; the wire form then starts with `-`.
    pub negative: bool,
    /// The decimal digits, most significant first, as ASCII bytes.
    pub digits: Vec<u8>,
}

/// One RESP value: a single self-delimited transmit unit on the wire.
///
/// Aggregate variants hold their children in order; `Set` and `Map` are
/// ordered sequences at the wire level and no uniqueness is imposed.
#[derive(Debug)]
pub enum Frame {
    /// Line-terminated text, marker `+`.
    SimpleString(Vec<u8>),
    /// Line-terminated error text, marker `-`.
    SimpleError(Vec<u8>),
    /// A signed 64-bit integer, marker `:`.
    Integer(i64),
    /// A length-prefixed binary-safe byte string, marker `$`.
    BulkString(Vec<u8>),
    /// An ordered sequence of frames, marker `*`.
    Array(Vec<Frame>),
    /// Absence of a value, marker `_` (also `$-1` and `*-1` on input).
    Null,
    /// A boolean, marker `#`.
    Boolean(bool),
    /// A double-precision value, marker `,`.
    Double(DoubleValue),
    /// An arbitrary-precision integer, marker `(`.
    BigNumber(BigInt),
    /// A length-prefixed error payload, marker `!`.
    BulkError(Vec<u8>),
    /// A three-byte encoding tag and a payload, marker `=`.
    VerbatimString(Vec<u8>, Vec<u8>),
    /// An ordered sequence of key-value pairs, marker `%`.
    MapFrame(Vec<(Frame, Frame)>),
    /// An ordered sequence of frames, marker `~`.
    SetFrame(Vec<Frame>),
    /// A server-initiated sequence of frames, marker `>`.
    Push(Vec<Frame>),
}

/// The model of a double payload.
#[verifier::ext_equal]
pub enum DoubleVal {
    Nan,
    Inf,
    NegInf,
    Finite(Seq<u8>),
}

/// The mathematical model of a frame: byte vectors become byte sequences and
/// child vectors become sequences of models.
#[verifier::ext_equal]
pub enum FrameVal {
    SimpleString(Seq<u8>),
    SimpleError(Seq<u8>),
    Integer(int),
    BulkString(Seq<u8>),
    Array(Seq<FrameVal>),
    Null,
    Boolean(bool),
    Double(DoubleVal),
    BigNumber { negative: bool, digits: Seq<u8> },
    BulkError(Seq<u8>),
    VerbatimString(Seq<u8>, Seq<u8>),
    MapFrame(Seq<(FrameVal, FrameVal)>),
    SetFrame(Seq<FrameVal>),
    Push(Seq<FrameVal>),
}

/// The model of a frame.
pub open spec fn frame_val(f: Frame) -> FrameVal
    decreases f,
{
    match f {
        Frame::SimpleString(s) => FrameVal::SimpleString(s@),
        Frame::SimpleError(s) => FrameVal::SimpleError(s@),
        Frame::Integer(n) => FrameVal::Integer(n as int),
        Frame::BulkString(p) => FrameVal::BulkString(p@),
        Frame::Array(v) => FrameVal::Array(frame_views(v@)),
        Frame::Null => FrameVal::Null,
        Frame::Boolean(b) => FrameVal::Boolean(b),
        Frame::Double(d) => FrameVal::Double(d@),
        Frame::BigNumber(b) => FrameVal::BigNumber { negative: b.negative, digits: b.digits@ },
        Frame::BulkError(p) => FrameVal::BulkError(p@),
        Frame::VerbatimString(e, p) => FrameVal::VerbatimString(e@, p@),
        Frame::MapFrame(v) => FrameVal::MapFrame(pair_views(v@)),
        Frame::SetFrame(v) => FrameVal::SetFrame(frame_views(v@)),
        Frame::Push(v) => FrameVal::Push(frame_views(v@)),
    }
}

/// The models of a sequence of frames, in order.
pub open spec fn frame_views(s: Seq<Frame>) -> Seq<FrameVal>
    decreases s,
{
    if s.len() == 0 {
        Seq::empty()
    } else {
        frame_views(s.drop_last()).push(frame_val(s.last()))
    }
}

/// The models of a sequence of frame pairs, in order.
pub open spec fn pair_views(s: Seq<(Frame, Frame)>) -> Seq<(FrameVal, FrameVal)>
    decreases s,
{
    if s.len() == 0 {
        Seq::empty()
    } else {
        pair_views(s.drop_last()).push((frame_val(s.last().0), frame_val(s.last().1)))
    }
}

impl View for DoubleValue {
    type V = DoubleVal;

    open spec fn view(&self) -> DoubleVal {
        match self {
            DoubleValue::Nan => DoubleVal::Nan,
            DoubleValue::Inf => DoubleVal::Inf,
            DoubleValue::NegInf => DoubleVal::NegInf,
            DoubleValue::Finite(t) => DoubleVal::Finite(t@),
        }
    }
}

impl View for Frame {
    type V = FrameVal;

    open spec fn view(&self) -> FrameVal {
        frame_val(*self)
    }
}

pub broadcast proof fn frame_views_len(s: Seq<Frame>)
    ensures
        #[trigger] frame_views(s).len() == s.len(),
    decreases s,
{
    if s.len() > 0 {
        frame_views_len(s.drop_last());
    }
}

pub broadcast proof fn frame_views_index(s: Seq<Frame>, i: int)
    requires
        0 <= i < s.len(),
    ensures
        #[trigger] frame_views(s)[i] == frame_val(s[i]),
    decreases s,
{
    frame_views_len(s);
    if i < s.len() - 1 {
        frame_views_index(s.drop_last(), i);
    }
}

pub broadcast proof fn pair_views_len(s: Seq<(Frame, Frame)>)
    ensures
        #[trigger] pair_views(s).len() == s.len(),
    decreases s,
{
    if s.len() > 0 {
        pair_views_len(s.drop_last());
    }
}

pub broadcast proof fn pair_views_index(s: Seq<(Frame, Frame)>, i: int)
    requires
        0 <= i < s.len(),
    ensures
        #[trigger] pair_views(s)[i] == (frame_val(s[i].0), frame_val(s[i].1)),
    decreases s,
{
    pair_views_len(s);
    if i < s.len() - 1 {
        pair_views_index(s.drop_last(), i);
    }
}

/// The view of a pushed frame appends to the views.
pub proof fn frame_views_push(s: Seq<Frame>, f: Frame)
    ensures
        frame_views(s.push(f)) == frame_views(s).push(frame_val(f)),
{
    assert(s.push(f).drop_last() =~= s);
    assert(s.push(f).last() == f);
}

/// The view of a pushed pair appends to the views.
pub proof fn pair_views_push(s: Seq<(Frame, Frame)>, k: Frame, w: Frame)
    ensures
        pair_views(s.push((k, w))) == pair_views(s).push((frame_val(k), frame_val(w))),
{
    assert(s.push((k, w)).drop_last() =~= s);
    assert(s.push((k, w)).last() == (k, w));
}

/// True when no byte of `s` is CR (13) or LF (10).
pub open spec fn no_crlf(s: Seq<u8>) -> bool {
    forall|i: int| 0 <= i < s.len() ==> s[i] != 13u8 && s[i] != 10u8
}

/// True for the ASCII digits `0` through `9`.
pub open spec fn is_digit_byte(b: u8) -> bool {
    48 <= b <= 57
}

/// True when every byte of `s` is an ASCII digit.
pub open spec fn all_digits(s: Seq<u8>) -> bool {
    forall|i: int| 0 <= i < s.len() ==> is_digit_byte(#[trigger] s[i])
}

/// A mantissa split by a dot at `i`: digits on both sides, and at least one
/// digit somewhere.
pub open spec fn mantissa_split_at(s: Seq<u8>, i: int) -> bool {
    0 <= i < s.len() && s[i] == 46u8 && s.len() > 1 && all_digits(s.subrange(0, i))
        && all_digits(s.subrange(i + 1, s.len() as int))
}

/// The mantissa of a decimal literal: digits, possibly with one dot, with at
/// least one digit overall.
pub open spec fn float_mantissa(s: Seq<u8>) -> bool {
    ||| (s.len() > 0 && all_digits(s))
    ||| (exists|i: int| mantissa_split_at(s, i))
}

/// An exponent suffix: an optional sign followed by at least one digit.
pub open spec fn float_exponent(s: Seq<u8>) -> bool {
    if s.len() > 0 && (s[0] == 43u8 || s[0] == 45u8) {
        s.len() > 1 && all_digits(s.subrange(1, s.len() as int))
    } else {
        s.len() > 0 && all_digits(s)
    }
}

/// A literal split by an exponent marker at `j`: a mantissa before it and an
/// exponent after it.
pub open spec fn float_split_at(t: Seq<u8>, j: int) -> bool {
    0 <= j < t.len() && (t[j] == 101u8 || t[j] == 69u8) && float_mantissa(t.subrange(0, j))
        && float_exponent(t.subrange(j + 1, t.len() as int))
}

/// The literal with a leading sign removed.
pub open spec fn strip_sign(s: Seq<u8>) -> Seq<u8> {
    if s.len() > 0 && (s[0] == 43u8 || s[0] == 45u8) {
        s.subrange(1, s.len() as int)
    } else {
        s
    }
}

/// A finite double literal: an optional sign, a mantissa, and an optional
/// exponent introduced by `e` or `E`.
pub open spec fn is_float_lit(s: Seq<u8>) -> bool {
    ||| float_mantissa(strip_sign(s))
    ||| (exists|j: int| float_split_at(strip_sign(s), j))
}

/// A split at `j` of the sign-stripped literal makes a float literal.
pub proof fn lemma_is_float_lit_from_split(s: Seq<u8>, j: int)
    requires
        float_split_at(strip_sign(s), j),
    ensures
        is_float_lit(s),
{
    assert(exists|k: int| float_split_at(strip_sign(s), k));
}

/// Well-formedness of a double payload.
pub open spec fn double_ok(d: DoubleVal) -> bool {
    match d {
        DoubleVal::Finite(t) => is_float_lit(t),
        _ => true,
    }
}

/// Well-formedness: exactly the frames that serialize successfully.
///
/// Line-terminated payloads must not contain CR or LF; lengths and counts
/// must be representable in the signed 64-bit length prefix; a finite double
/// payload must be a decimal literal; a big number needs at least one digit;
/// a verbatim encoding tag is exactly three bytes.
pub open spec fn frame_ok(v: FrameVal) -> bool
    decreases v,
{
    match v {
        FrameVal::SimpleString(s) => no_crlf(s),
        FrameVal::SimpleError(s) => no_crlf(s),
        FrameVal::Integer(n) => i64::MIN <= n <= i64::MAX,
        FrameVal::BulkString(p) => p.len() <= i64::MAX,
        FrameVal::Array(cs) => cs.len() <= i64::MAX && frames_ok(cs),
        FrameVal::Null => true,
        FrameVal::Boolean(_) => true,
        FrameVal::Double(d) => double_ok(d),
        FrameVal::BigNumber { negative, digits } => digits.len() > 0 && all_digits(digits),
        FrameVal::BulkError(p) => p.len() <= i64::MAX,
        FrameVal::VerbatimString(e, p) => e.len() == 3 && p.len() + 4 <= i64::MAX,
        FrameVal::MapFrame(ps) => ps.len() <= i64::MAX && pairs_ok(ps),
        FrameVal::SetFrame(cs) => cs.len() <= i64::MAX && frames_ok(cs),
        FrameVal::Push(cs) => cs.len() <= i64::MAX && frames_ok(cs),
    }
}

/// Well-formedness of every frame of a sequence.
pub open spec fn frames_ok(s: Seq<FrameVal>) -> bool
    decreases s,
{
    if s.len() == 0 {
        true
    } else {
        frame_ok(s[0]) && frames_ok(s.subrange(1, s.len() as int))
    }
}

/// Well-formedness of every frame of a sequence of pairs.
pub open spec fn pairs_ok(s: Seq<(FrameVal, FrameVal)>) -> bool
    decreases s,
{
    if s.len() == 0 {
        true
    } else {
        frame_ok(s[0].0) && frame_ok(s[0].1) && pairs_ok(s.subrange(1, s.len() as int))
    }
}

impl Frame {
    /// An empty array frame, ready for `push_frame_to_array`.
    pub fn array() -> (f: Frame)
        ensures
            f@ == FrameVal::Array(Seq::<FrameVal>::empty()),
    {
        Frame::Array(Vec::new())
    }

    /// Pushes a child frame onto an `Array` or `Set` frame; any other
    /// variant is left unchanged and reported as `Unknown`.
    pub fn push_frame_to_array(&mut self, frame: Frame) -> (r: Result<(), RedisError>)
        ensures
            match old(self)@ {
                FrameVal::Array(cs) => r is Ok && final(self)@ == FrameVal::Array(
                    cs.push(frame@),
                ),
                FrameVal::SetFrame(cs) => r is Ok && final(self)@ == FrameVal::SetFrame(cs.push(frame@)),
                _ => (r matches Err(RedisError::Unknown)) && final(self)@ == old(self)@,
            },
    {
        match self {
            Frame::Array(vec) => {
                let ghost old_vec = vec@;
                vec.push(frame);
                proof {
                    assert(vec@.drop_last() =~= old_vec);
                }
                Ok(())
            },
            Frame::SetFrame(vec) => {
                let ghost old_vec = vec@;
                vec.push(frame);
                proof {
                    assert(vec@.drop_last() =~= old_vec);
                }
                Ok(())
            },
            _ => Err(RedisError::Unknown),
        }
    }

    /// Pushes a key-value pair onto a `Map` frame; any other variant is left
    /// unchanged and reported as `Unknown`.
    pub fn push_frame_to_map(&mut self, key: Frame, value: Frame) -> (r: Result<(), RedisError>)
        ensures
            match old(self)@ {
                FrameVal::MapFrame(ps) => r is Ok && final(self)@ == FrameVal::MapFrame(
                    ps.push((key@, value@)),
                ),
                _ => (r matches Err(RedisError::Unknown)) && final(self)@ == old(self)@,
            },
    {
        match self {
            Frame::MapFrame(vec) => {
                let ghost old_vec = vec@;
                vec.push((key, value));
                proof {
                    assert(vec@.drop_last() =~= old_vec);
                }
                Ok(())
            },
            _ => Err(RedisError::Unknown),
        }
    }
}


/// Bytewise equality of two byte vectors.
fn bytes_eq(a: &Vec<u8>, b: &Vec<u8>) -> (r: bool)
    ensures
        r == (a@ == b@),
{
    if a.len() != b.len() {
        assert(a@ != b@) by {
            assert(a@.len() != b@.len());
        }
        return false;
    }
    let mut i: usize = 0;
    while i < a.len()
        invariant
            i <= a@.len() == b@.len(),
            forall|j: int| 0 <= j < i ==> a@[j] == b@[j],
        decreases a@.len() - i,
    {
        if a[i] != b[i] {
            return false;
        }
        i = i + 1;
    }
    assert(a@ =~= b@);
    true
}

/// Structural equality of two frames, recursively over children.
fn frame_eq(a: &Frame, b: &Frame) -> (r: bool)
    ensures
        r == (frame_val(*a) == frame_val(*b)),
    decreases *a,
{
    match (a, b) {
        (Frame::SimpleString(x), Frame::SimpleString(y)) => bytes_eq(x, y),
        (Frame::SimpleError(x), Frame::SimpleError(y)) => bytes_eq(x, y),
        (Frame::Integer(x), Frame::Integer(y)) => *x == *y,
        (Frame::BulkString(x), Frame::BulkString(y)) => bytes_eq(x, y),
        (Frame::Array(x), Frame::Array(y)) => frames_eq(x, y),
        (Frame::Null, Frame::Null) => true,
        (Frame::Boolean(x), Frame::Boolean(y)) => *x == *y,
        (Frame::Double(x), Frame::Double(y)) => double_eq(x, y),
        (Frame::BigNumber(x), Frame::BigNumber(y)) => {
            let r = x.negative == y.negative && bytes_eq(&x.digits, &y.digits);
            r
        },
        (Frame::BulkError(x), Frame::BulkError(y)) => bytes_eq(x, y),
        (Frame::VerbatimString(xe, xp), Frame::VerbatimString(ye, yp)) => {
            let r = bytes_eq(xe, ye) && bytes_eq(xp, yp);
            r
        },
        (Frame::MapFrame(x), Frame::MapFrame(y)) => pairs_eq(x, y),
        (Frame::SetFrame(x), Frame::SetFrame(y)) => frames_eq(x, y),
        (Frame::Push(x), Frame::Push(y)) => frames_eq(x, y),
        _ => false,
    }
}

/// Structural equality of two double payloads.
fn double_eq(a: &DoubleValue, b: &DoubleValue) -> (r: bool)
    ensures
        r == (a@ == b@),
{
    match (a, b) {
        (DoubleValue::Nan, DoubleValue::Nan) => true,
        (DoubleValue::Inf, DoubleValue::Inf) => true,
        (DoubleValue::NegInf, DoubleValue::NegInf) => true,
        (DoubleValue::Finite(x), DoubleValue::Finite(y)) => bytes_eq(x, y),
        _ => false,
    }
}

/// Pointwise structural equality of two runs of frames.
fn frames_eq(a: &Vec<Frame>, b: &Vec<Frame>) -> (r: bool)
    ensures
        r == (frame_views(a@) == frame_views(b@)),
    decreases *a,
{
    proof {
        frame_views_len(a@);
        frame_views_len(b@);
    }
    if a.len() != b.len() {
        assert(frame_views(a@) != frame_views(b@)) by {
            assert(frame_views(a@).len() != frame_views(b@).len());
        }
        return false;
    }
    let mut i: usize = 0;
    while i < a.len()
        invariant
            i <= a@.len() == b@.len(),
            forall|j: int| 0 <= j < i ==> frame_val(a@[j]) == frame_val(b@[j]),
        decreases a@.len() - i,
    {
        proof {
            frame_views_index(a@, i as int);
            frame_views_index(b@, i as int);
        }
        if !frame_eq(&a[i], &b[i]) {
            assert(frame_views(a@)[i as int] != frame_views(b@)[i as int]);
            proof {
                frame_views_len(a@);
                frame_views_len(b@);
            }
            return false;
        }
        i = i + 1;
    }
    proof {
        frame_views_len(a@);
        frame_views_len(b@);
        assert forall|j: int| 0 <= j < frame_views(a@).len() implies frame_views(a@)[j]
            == frame_views(b@)[j] by {
            frame_views_index(a@, j);
            frame_views_index(b@, j);
        }
        assert(frame_views(a@) =~= frame_views(b@));
    }
    true
}

/// Pointwise structural equality of two runs of pairs.
fn pairs_eq(a: &Vec<(Frame, Frame)>, b: &Vec<(Frame, Frame)>) -> (r: bool)
    ensures
        r == (pair_views(a@) == pair_views(b@)),
    decreases *a,
{
    proof {
        pair_views_len(a@);
        pair_views_len(b@);
    }
    if a.len() != b.len() {
        assert(pair_views(a@) != pair_views(b@)) by {
            assert(pair_views(a@).len() != pair_views(b@).len());
        }
        return false;
    }
    let mut i: usize = 0;
    while i < a.len()
        invariant
            i <= a@.len() == b@.len(),
            forall|j: int|
                0 <= j < i ==> frame_val(#[trigger] a@[j].0) == frame_val(b@[j].0) && frame_val(
                    a@[j].1,
                ) == frame_val(b@[j].1),
        decreases a@.len() - i,
    {
        proof {
            pair_views_index(a@, i as int);
            pair_views_index(b@, i as int);
        }
        let pa = &a[i];
        let pb = &b[i];
        if !frame_eq(&pa.0, &pb.0) || !frame_eq(&pa.1, &pb.1) {
            assert(pair_views(a@)[i as int] != pair_views(b@)[i as int]);
            proof {
                pair_views_len(a@);
                pair_views_len(b@);
            }
            return false;
        }
        i = i + 1;
    }
    proof {
        pair_views_len(a@);
        pair_views_len(b@);
        assert forall|j: int| 0 <= j < pair_views(a@).len() implies pair_views(a@)[j]
            == pair_views(b@)[j] by {
            pair_views_index(a@, j);
            pair_views_index(b@, j);
        }
        assert(pair_views(a@) =~= pair_views(b@));
    }
    true
}

impl PartialEq for Frame {
    /// Structural, recursive equality; equal views mean equal frames.
    fn eq(&self, other: &Frame) -> (r: bool) {
        frame_eq(self, other)
    }
}

impl vstd::std_specs::cmp::PartialEqSpecImpl for Frame {
    open spec fn obeys_eq_spec() -> bool {
        true
    }

    open spec fn eq_spec(&self, other: &Frame) -> bool {
        self@ == other@
    }
}

impl PartialEq for DoubleValue {
    /// Structural equality; a NaN equals a NaN.
    fn eq(&self, other: &DoubleValue) -> (r: bool) {
        double_eq(self, other)
    }
}

impl vstd::std_specs::cmp::PartialEqSpecImpl for DoubleValue {
    open spec fn obeys_eq_spec() -> bool {
        true
    }

    open spec fn eq_spec(&self, other: &DoubleValue) -> bool {
        self@ == other@
    }
}

impl PartialEq for BigInt {
    /// Equal sign and equal digits.
    fn eq(&self, other: &BigInt) -> (r: bool) {
        self.negative == other.negative && bytes_eq(&self.digits, &other.digits)
    }
}

impl vstd::std_specs::cmp::PartialEqSpecImpl for BigInt {
    open spec fn obeys_eq_spec() -> bool {
        true
    }

    open spec fn eq_spec(&self, other: &BigInt) -> bool {
        self.negative == other.negative && self.digits@ == other.digits@
    }
}

} // verus!

//! The pure half of the client: coercing one response frame into the typed
//! shape a caller asked for.
//!
//! A transport writes a request frame, reads one response frame, and hands
//! it to [`Response::from_frame`]. The per-verb helpers then turn the
//! coerced response into the verb's return shape: plain bytes for PING,
//! optional bytes for GET, a decimal count for DEL, rows for LRANGE, and
//! key-value pairs for HELLO. Server error frames surface as `ServerError`
//! with their text kept verbatim; frames of the wrong shape surface as
//! `UnexpectedResponseType`.

use crate::dec::{dec_int, push_dec_i64};
use crate::error::RedisError;
use crate::frame::{frame_val, frame_views, pair_views, Frame, FrameVal};
use crate::parse::{eval_token, in_i64, token_val, TokenVal};
use crate::serialize::double_text;
use vstd::prelude::*;

verus! {

broadcast use {crate::frame::frame_views_len, crate::frame::pair_views_len};

/// One coerced response.
#[derive(Debug)]
pub enum Response {
    /// A single byte string: simple strings, bulk strings, integers as
    /// decimal text, booleans as `true` or `false`, doubles as their wire
    /// text.
    Simple(Vec<u8>),
    /// One byte string per child of an array response.
    Array(Vec<Vec<u8>>),
    /// The key-value pairs of a map response, keys and values as bytes.
    MapPairs(Vec<(Vec<u8>, Vec<u8>)>),
    /// The absence of a value.
    Null,
    /// A server-reported error or a shape this client cannot use.
    Error(RedisError),
}

/// The byte form of a leaf frame inside an array response.
pub open spec fn coerce_leaf(v: FrameVal) -> Seq<u8> {
    match v {
        FrameVal::BulkString(p) => p,
        FrameVal::SimpleString(s) => s,
        FrameVal::Integer(n) => dec_int(n),
        _ => Seq::empty(),
    }
}

/// The concatenated byte forms of the leaves of a nested array.
pub open spec fn concat_leaves(s: Seq<FrameVal>) -> Seq<u8>
    decreases s,
{
    if s.len() == 0 {
        Seq::empty()
    } else {
        coerce_leaf(s[0]) + concat_leaves(s.subrange(1, s.len() as int))
    }
}

/// The byte form of one child of an array response: leaves keep their
/// bytes, a nested array flattens one level, anything else is empty.
pub open spec fn coerce_elem(v: FrameVal) -> Seq<u8> {
    match v {
        FrameVal::Array(cs) => concat_leaves(cs),
        _ => coerce_leaf(v),
    }
}

/// The byte forms of all children of an array response, in order.
pub open spec fn coerce_rows(cs: Seq<FrameVal>) -> Seq<Seq<u8>> {
    Seq::new(cs.len(), |i: int| coerce_elem(cs[i]))
}

/// True when a map key or value frame can be taken as bytes.
pub open spec fn entry_ok(v: FrameVal) -> bool {
    v is BulkString || v is SimpleString || v is Integer
}

/// The kept key-value pairs of a map response, in order: both sides must be
/// byte-coercible, other pairs are dropped.
pub open spec fn coerce_map(ps: Seq<(FrameVal, FrameVal)>) -> Seq<(Seq<u8>, Seq<u8>)>
    decreases ps,
{
    if ps.len() == 0 {
        Seq::empty()
    } else {
        let rest = coerce_map(ps.subrange(1, ps.len() as int));
        if entry_ok(ps[0].0) && entry_ok(ps[0].1) {
            seq![(coerce_leaf(ps[0].0), coerce_leaf(ps[0].1))] + rest
        } else {
            rest
        }
    }
}

/// The views of a vector of byte rows.
pub open spec fn byte_rows(s: Seq<Vec<u8>>) -> Seq<Seq<u8>> {
    Seq::new(s.len(), |i: int| s[i]@)
}

/// The views of a vector of byte pairs.
pub open spec fn byte_pairs(s: Seq<(Vec<u8>, Vec<u8>)>) -> Seq<(Seq<u8>, Seq<u8>)> {
    Seq::new(s.len(), |i: int| (s[i].0@, s[i].1@))
}

/// Copies a byte vector.
pub(crate) fn clone_bytes(src: &Vec<u8>) -> (out: Vec<u8>)
    ensures
        out@ == src@,
{
    let mut out: Vec<u8> = Vec::new();
    let mut i: usize = 0;
    while i < src.len()
        invariant
            i <= src@.len(),
            out@ == src@.subrange(0, i as int),
        decreases src@.len() - i,
    {
        out.push(src[i]);
        proof {
            assert(src@.subrange(0, i + 1) =~= src@.subrange(0, i as int).push(src@[i as int]));
        }
        i = i + 1;
    }
    proof {
        assert(src@.subrange(0, src@.len() as int) =~= src@);
    }
    out
}

/// The decimal text of an integer, as bytes.
pub(crate) fn int_text(n: i64) -> (out: Vec<u8>)
    ensures
        out@ == dec_int(n as int),
{
    let mut out: Vec<u8> = Vec::new();
    push_dec_i64(n, &mut out);
    proof {
        assert(out@ =~= dec_int(n as int));
    }
    out
}

/// The byte form of a leaf frame.
fn coerce_leaf_exec(f: &Frame) -> (out: Vec<u8>)
    ensures
        out@ == coerce_leaf(f@),
{
    match f {
        Frame::BulkString(p) => clone_bytes(p),
        Frame::SimpleString(s) => clone_bytes(s),
        Frame::Integer(n) => int_text(*n),
        _ => Vec::new(),
    }
}

proof fn lemma_concat_leaves_push(s: Seq<FrameVal>, v: FrameVal)
    ensures
        concat_leaves(s.push(v)) == concat_leaves(s) + coerce_leaf(v),
    decreases s,
{
    if s.len() == 0 {
        assert(s.push(v)[0] == v);
        assert(s.push(v).subrange(1, 1) =~= s);
        assert(concat_leaves(s.push(v)) =~= concat_leaves(s) + coerce_leaf(v));
    } else {
        assert(s.push(v).subrange(1, s.len() as int + 1) =~= s.subrange(1, s.len() as int).push(v));
        lemma_concat_leaves_push(s.subrange(1, s.len() as int), v);
        assert(s.push(v)[0] == s[0]);
        assert(concat_leaves(s.push(v)) =~= concat_leaves(s) + coerce_leaf(v));
    }
}

/// The byte form of one child of an array response.
fn coerce_elem_exec(f: &Frame) -> (out: Vec<u8>)
    ensures
        out@ == coerce_elem(f@),
{
    match f {
        Frame::Array(inner) => {
            let mut out: Vec<u8> = Vec::new();
            let mut i: usize = 0;
            while i < inner.len()
                invariant
                    i <= inner@.len(),
                    out@ == concat_leaves(frame_views(inner@).subrange(0, i as int)),
                decreases inner@.len() - i,
            {
                proof {
                    crate::frame::frame_views_index(inner@, i as int);
                }
                let ghost pre = frame_views(inner@).subrange(0, i as int);
                let piece = coerce_leaf_exec(&inner[i]);
                crate::serialize::push_bytes(&mut out, &piece);
                proof {
                    lemma_concat_leaves_push(pre, inner@[i as int]@);
                    assert(frame_views(inner@).subrange(0, i + 1) =~= pre.push(
                        frame_val(inner@[i as int]),
                    ));
                }
                i = i + 1;
            }
            proof {
                assert(frame_views(inner@).subrange(0, frame_views(inner@).len() as int)
                    =~= frame_views(inner@));
            }
            out
        },
        _ => coerce_leaf_exec(f),
    }
}

impl Response {
    /// Coerces one response frame per the client's table: simple and bulk
    /// strings keep their bytes, integers become decimal text, booleans
    /// become `true` or `false`, doubles keep their wire text, arrays
    /// become one byte string per child (nested arrays flatten one level),
    /// maps keep their byte-coercible pairs in order, error frames carry
    /// the server's text, and any other shape is unusable.
    pub fn from_frame(f: &Frame) -> (r: Response)
        ensures
            match f@ {
                FrameVal::SimpleString(s) => (r matches Response::Simple(d) && d@ == s),
                FrameVal::SimpleError(s) => (r matches Response::Error(RedisError::ServerError(d))
                    && d@ == s),
                FrameVal::Integer(n) => (r matches Response::Simple(d) && d@ == dec_int(n)),
                FrameVal::BulkString(p) => (r matches Response::Simple(d) && d@ == p),
                FrameVal::Null => r is Null,
                FrameVal::Boolean(x) => (r matches Response::Simple(d) && d@ == (if x {
                    seq![116u8, 114u8, 117u8, 101u8]
                } else {
                    seq![102u8, 97u8, 108u8, 115u8, 101u8]
                })),
                FrameVal::Double(d) => (r matches Response::Simple(t) && t@ == double_text(d)),
                FrameVal::BulkError(p) => (r matches Response::Error(RedisError::ServerError(d))
                    && d@ == p),
                FrameVal::Array(cs) => (r matches Response::Array(rows) && byte_rows(rows@)
                    == coerce_rows(cs)),
                FrameVal::MapFrame(ps) => (r matches Response::MapPairs(pairs) && byte_pairs(
                    pairs@,
                ) == coerce_map(ps)),
                _ => (r matches Response::Error(RedisError::UnexpectedResponseType)),
            },
    {
        match f {
            Frame::SimpleString(s) => Response::Simple(clone_bytes(s)),
            Frame::SimpleError(s) => Response::Error(RedisError::ServerError(clone_bytes(s))),
            Frame::Integer(n) => Response::Simple(int_text(*n)),
            Frame::BulkString(p) => Response::Simple(clone_bytes(p)),
            Frame::Null => Response::Null,
            Frame::Boolean(x) => {
                let mut d: Vec<u8> = Vec::new();
                if *x {
                    d.push(116u8);
                    d.push(114u8);
                    d.push(117u8);
                    d.push(101u8);
                    proof {
                        assert(d@ =~= seq![116u8, 114u8, 117u8, 101u8]);
                    }
                } else {
                    d.push(102u8);
                    d.push(97u8);
                    d.push(108u8);
                    d.push(115u8);
                    d.push(101u8);
                    proof {
                        assert(d@ =~= seq![102u8, 97u8, 108u8, 115u8, 101u8]);
                    }
                }
                Response::Simple(d)
            },
            Frame::Double(d) => Response::Simple(double_wire_text(d)),
            Frame::BulkError(p) => Response::Error(RedisError::ServerError(clone_bytes(p))),
            Frame::Array(cs) => {
                let mut rows: Vec<Vec<u8>> = Vec::new();
                let mut i: usize = 0;
                while i < cs.len()
                    invariant
                        i <= cs@.len(),
                        rows@.len() == i,
                        forall|j: int|
                            0 <= j < i ==> (#[trigger] rows@[j])@ == coerce_elem(
                                frame_val(cs@[j]),
                            ),
                    decreases cs@.len() - i,
                {
                    proof {
                        crate::frame::frame_views_index(cs@, i as int);
                    }
                    let row = coerce_elem_exec(&cs[i]);
                    rows.push(row);
                    i = i + 1;
                }
                proof {
                    assert forall|j: int| 0 <= j < byte_rows(rows@).len() implies byte_rows(
                        rows@,
                    )[j] == coerce_rows(frame_views(cs@))[j] by {
                        crate::frame::frame_views_index(cs@, j);
                    }
                    assert(byte_rows(rows@) =~= coerce_rows(frame_views(cs@)));
                }
                Response::Array(rows)
            },
            Frame::MapFrame(ps) => {
                let mut pairs: Vec<(Vec<u8>, Vec<u8>)> = Vec::new();
                let ghost target = coerce_map(pair_views(ps@));
                let mut i: usize = ps.len();
                proof {
                    assert(pair_views(ps@).subrange(i as int, pair_views(ps@).len() as int)
                        =~= Seq::<(FrameVal, FrameVal)>::empty());
                }
                // walk from the back so the recursive spec unfolds forwards
                while i > 0
                    invariant
                        i <= ps@.len(),
                        byte_pairs(pairs@) == coerce_map(
                            pair_views(ps@).subrange(i as int, pair_views(ps@).len() as int),
                        ),
                    decreases i,
                {
                    i = i - 1;
                    proof {
                        crate::frame::pair_views_index(ps@, i as int);
                    }
                    let pair = &ps[i];
                    let keep = entry_ok_exec(&pair.0) && entry_ok_exec(&pair.1);
                    let ghost tail = pair_views(ps@).subrange(
                        i + 1,
                        pair_views(ps@).len() as int,
                    );
                    let ghost cur = pair_views(ps@).subrange(i as int, pair_views(ps@).len() as int);
                    proof {
                        assert(cur.subrange(1, cur.len() as int) =~= tail);
                        assert(cur[0] == pair_views(ps@)[i as int]);
                    }
                    if keep {
                        let kb = coerce_leaf_exec(&pair.0);
                        let vb = coerce_leaf_exec(&pair.1);
                        pairs_insert_front(&mut pairs, kb, vb);
                        proof {
                            assert(byte_pairs(pairs@) =~= coerce_map(cur));
                        }
                    } else {
                        proof {
                            assert(byte_pairs(pairs@) =~= coerce_map(cur));
                        }
                    }
                }
                proof {
                    assert(pair_views(ps@).subrange(0, pair_views(ps@).len() as int) =~= pair_views(
                        ps@,
                    ));
                }
                Response::MapPairs(pairs)
            },
            Frame::BigNumber(_) => Response::Error(RedisError::UnexpectedResponseType),
            Frame::VerbatimString(_, _) => Response::Error(RedisError::UnexpectedResponseType),
            Frame::SetFrame(_) => Response::Error(RedisError::UnexpectedResponseType),
            Frame::Push(_) => Response::Error(RedisError::UnexpectedResponseType),
        }
    }
}

/// True when a map entry frame can be taken as bytes.
fn entry_ok_exec(f: &Frame) -> (r: bool)
    ensures
        r == entry_ok(f@),
{
    match f {
        Frame::BulkString(_) => true,
        Frame::SimpleString(_) => true,
        Frame::Integer(_) => true,
        _ => false,
    }
}

/// Inserts a pair at the front of the vector.
fn pairs_insert_front(pairs: &mut Vec<(Vec<u8>, Vec<u8>)>, k: Vec<u8>, v: Vec<u8>)
    ensures
        final(pairs)@.len() == old(pairs)@.len() + 1,
        final(pairs)@[0] == (k, v),
        forall|j: int| 1 <= j < final(pairs)@.len() ==> final(pairs)@[j] == old(pairs)@[j - 1],
{
    pairs.insert(0, (k, v));
}

/// The wire text of a double payload.
fn double_wire_text(d: &crate::frame::DoubleValue) -> (out: Vec<u8>)
    ensures
        out@ == double_text(d@),
{
    match d {
        crate::frame::DoubleValue::Nan => {
            let mut out: Vec<u8> = Vec::new();
            out.push(110u8);
            out.push(97u8);
            out.push(110u8);
            proof {
                assert(out@ =~= seq![110u8, 97u8, 110u8]);
            }
            out
        },
        crate::frame::DoubleValue::Inf => {
            let mut out: Vec<u8> = Vec::new();
            out.push(105u8);
            out.push(110u8);
            out.push(102u8);
            proof {
                assert(out@ =~= seq![105u8, 110u8, 102u8]);
            }
            out
        },
        crate::frame::DoubleValue::NegInf => {
            let mut out: Vec<u8> = Vec::new();
            out.push(45u8);
            out.push(105u8);
            out.push(110u8);
            out.push(102u8);
            proof {
                assert(out@ =~= seq![45u8, 105u8, 110u8, 102u8]);
            }
            out
        },
        crate::frame::DoubleValue::Finite(t) => clone_bytes(t),
    }
}


/// The bytes of a plain reply: `Ok` exactly on `Simple`, the server's error
/// on `Error`, and `UnexpectedResponseType` on every other shape.
pub fn response_bytes(r: Response) -> (res: Result<Vec<u8>, RedisError>)
    ensures
        match r {
            Response::Simple(d) => (res matches Ok(v) && v@ == d@),
            Response::Error(e) => (res matches Err(e2) && e2 == e),
            _ => (res matches Err(RedisError::UnexpectedResponseType)),
        },
{
    match r {
        Response::Simple(d) => Ok(d),
        Response::Error(e) => Err(e),
        _ => Err(RedisError::UnexpectedResponseType),
    }
}

/// The bytes of an optional reply: `Simple` yields the value, `Null` yields
/// none, errors pass through, and every other shape is unexpected.
pub fn response_optional_bytes(r: Response) -> (res: Result<Option<Vec<u8>>, RedisError>)
    ensures
        match r {
            Response::Simple(d) => (res matches Ok(Some(v)) && v@ == d@),
            Response::Null => (res matches Ok(None::<Vec<u8>>)),
            Response::Error(e) => (res matches Err(e2) && e2 == e),
            _ => (res matches Err(RedisError::UnexpectedResponseType)),
        },
{
    match r {
        Response::Simple(d) => Ok(Some(d)),
        Response::Null => Ok(None),
        Response::Error(e) => Err(e),
        _ => Err(RedisError::UnexpectedResponseType),
    }
}

/// The non-negative count of a reply: the `Simple` bytes must be a decimal
/// token whose value is non-negative and fits the signed 64-bit range, else
/// the coercion fails with `EncodingError`.
pub fn response_u64(r: Response) -> (res: Result<u64, RedisError>)
    ensures
        match r {
            Response::Simple(d) => match token_val(d@) {
                Some(v) => if 0 <= v <= i64::MAX {
                    res matches Ok(n) && n as int == v
                } else {
                    res matches Err(RedisError::EncodingError)
                },
                None => (res matches Err(RedisError::EncodingError)),
            },
            Response::Error(e) => (res matches Err(e2) && e2 == e),
            _ => (res matches Err(RedisError::UnexpectedResponseType)),
        },
{
    match r {
        Response::Simple(d) => {
            proof {
                assert(d@.subrange(0, d@.len() as int) =~= d@);
            }
            match eval_token(d.as_slice(), 0, d.len()) {
                TokenVal::Value(v) => if v >= 0 {
                    Ok(v as u64)
                } else {
                    Err(RedisError::EncodingError)
                },
                TokenVal::Overflow => Err(RedisError::EncodingError),
                TokenVal::Malformed => Err(RedisError::EncodingError),
            }
        },
        Response::Error(e) => Err(e),
        _ => Err(RedisError::UnexpectedResponseType),
    }
}

/// The signed count of a reply: the `Simple` bytes must be a decimal token
/// in the signed 64-bit range, else the coercion fails with
/// `EncodingError`.
pub fn response_i64(r: Response) -> (res: Result<i64, RedisError>)
    ensures
        match r {
            Response::Simple(d) => match token_val(d@) {
                Some(v) => if in_i64(v) {
                    res matches Ok(n) && n as int == v
                } else {
                    res matches Err(RedisError::EncodingError)
                },
                None => (res matches Err(RedisError::EncodingError)),
            },
            Response::Error(e) => (res matches Err(e2) && e2 == e),
            _ => (res matches Err(RedisError::UnexpectedResponseType)),
        },
{
    match r {
        Response::Simple(d) => {
            proof {
                assert(d@.subrange(0, d@.len() as int) =~= d@);
            }
            match eval_token(d.as_slice(), 0, d.len()) {
                TokenVal::Value(v) => Ok(v),
                TokenVal::Overflow => Err(RedisError::EncodingError),
                TokenVal::Malformed => Err(RedisError::EncodingError),
            }
        },
        Response::Error(e) => Err(e),
        _ => Err(RedisError::UnexpectedResponseType),
    }
}

/// The rows of an array reply; any other shape is unexpected.
pub fn response_array(r: Response) -> (res: Result<Vec<Vec<u8>>, RedisError>)
    ensures
        match r {
            Response::Array(rows) => (res matches Ok(v) && v == rows),
            Response::Error(e) => (res matches Err(e2) && e2 == e),
            _ => (res matches Err(RedisError::UnexpectedResponseType)),
        },
{
    match r {
        Response::Array(rows) => Ok(rows),
        Response::Error(e) => Err(e),
        _ => Err(RedisError::UnexpectedResponseType),
    }
}

/// The rows of an optional array reply: `Null` yields none.
pub fn response_optional_array(r: Response) -> (res: Result<Option<Vec<Vec<u8>>>, RedisError>)
    ensures
        match r {
            Response::Array(rows) => (res matches Ok(Some(v)) && v == rows),
            Response::Null => (res matches Ok(None::<Vec<Vec<u8>>>)),
            Response::Error(e) => (res matches Err(e2) && e2 == e),
            _ => (res matches Err(RedisError::UnexpectedResponseType)),
        },
{
    match r {
        Response::Array(rows) => Ok(Some(rows)),
        Response::Null => Ok(None),
        Response::Error(e) => Err(e),
        _ => Err(RedisError::UnexpectedResponseType),
    }
}

/// Consecutive rows paired up: row `2i` is a key and row `2i + 1` its
/// value; a trailing odd row is dropped.
pub open spec fn chunk_pairs(s: Seq<Seq<u8>>) -> Seq<(Seq<u8>, Seq<u8>)> {
    Seq::new(s.len() / 2, |i: int| (s[2 * i], s[2 * i + 1]))
}

/// The key-value pairs of a HELLO reply: a map reply keeps its pairs, an
/// array reply (version 2) pairs consecutive rows.
pub fn hello_pairs(r: Response) -> (res: Result<Vec<(Vec<u8>, Vec<u8>)>, RedisError>)
    ensures
        match r {
            Response::MapPairs(pairs) => (res matches Ok(v) && v == pairs),
            Response::Array(rows) => (res matches Ok(v) && byte_pairs(v@) == chunk_pairs(
                byte_rows(rows@),
            )),
            Response::Error(e) => (res matches Err(e2) && e2 == e),
            _ => (res matches Err(RedisError::UnexpectedResponseType)),
        },
{
    match r {
        Response::MapPairs(pairs) => Ok(pairs),
        Response::Array(rows) => {
            let mut out: Vec<(Vec<u8>, Vec<u8>)> = Vec::new();
            let half = rows.len() / 2;
            let mut i: usize = 0;
            while i < half
                invariant
                    rows@.len() <= usize::MAX,
                    half == rows@.len() / 2,
                    i <= half,
                    out@.len() == i,
                    forall|j: int|
                        0 <= j < i ==> (#[trigger] out@[j]).0@ == rows@[2 * j]@ && out@[j].1@
                            == rows@[2 * j + 1]@,
                decreases half - i,
            {
                let k = clone_bytes(&rows[2 * i]);
                let v = clone_bytes(&rows[2 * i + 1]);
                out.push((k, v));
                i = i + 1;
            }
            proof {
                assert forall|j: int| 0 <= j < byte_pairs(out@).len() implies byte_pairs(out@)[j]
                    == chunk_pairs(byte_rows(rows@))[j] by {
                }
                assert(byte_pairs(out@) =~= chunk_pairs(byte_rows(rows@)));
            }
            Ok(out)
        },
        Response::Error(e) => Err(e),
        _ => Err(RedisError::UnexpectedResponseType),
    }
}

} // verus!

//! The LRANGE command: fetch a range of elements of a list.

use crate::cmd::{str_bytes, Command};
use crate::frame::{Frame, FrameVal};
use vstd::prelude::*;

verus! {

/// An LRANGE request: a key and an inclusive index range, where negative
/// indices count from the tail.
pub struct LRange {
    key: Vec<u8>,
    start: i64,
    end: i64,
}

impl LRange {
    /// Creates an LRANGE for `key` over `start..=end`.
    pub fn new(key: &str, start: i64, end: i64) -> (c: LRange)
        ensures
            c.frame_spec() == (FrameVal::Array(
                seq![
                    FrameVal::BulkString(seq![76u8, 82u8, 65u8, 78u8, 71u8, 69u8]),
                    FrameVal::BulkString(vstd::utf8::encode_utf8(key@)),
                    FrameVal::Integer(start as int),
                    FrameVal::Integer(end as int),
                ],
            )),
    {
        LRange { key: str_bytes(key), start, end }
    }
}

impl Command for LRange {
    closed spec fn frame_spec(&self) -> FrameVal {
        FrameVal::Array(
            seq![
                FrameVal::BulkString(seq![76u8, 82u8, 65u8, 78u8, 71u8, 69u8]),
                FrameVal::BulkString(self.key@),
                FrameVal::Integer(self.start as int),
                FrameVal::Integer(self.end as int),
            ],
        )
    }

    fn into_stream(self) -> (f: Frame) {
        let mut frame = Frame::array();
        let mut name: Vec<u8> = Vec::new();
        name.push(76u8);
        name.push(82u8);
        name.push(65u8);
        name.push(78u8);
        name.push(71u8);
        name.push(69u8);
        proof {
            assert(name@ =~= seq![76u8, 82u8, 65u8, 78u8, 71u8, 69u8]);
        }
        let _ = frame.push_frame_to_array(Frame::BulkString(name));
        let _ = frame.push_frame_to_array(Frame::BulkString(self.key));
        let _ = frame.push_frame_to_array(Frame::Integer(self.start));
        let _ = frame.push_frame_to_array(Frame::Integer(self.end));
        proof {
            assert(frame@ == self.frame_spec()) by {
                assert(Seq::<FrameVal>::empty().push(
                    FrameVal::BulkString(seq![76u8, 82u8, 65u8, 78u8, 71u8, 69u8]),
                ).push(FrameVal::BulkString(self.key@)).push(
                    FrameVal::Integer(self.start as int),
                ).push(FrameVal::Integer(self.end as int)) =~= seq![
                    FrameVal::BulkString(seq![76u8, 82u8, 65u8, 78u8, 71u8, 69u8]),
                    FrameVal::BulkString(self.key@),
                    FrameVal::Integer(self.start as int),
                    FrameVal::Integer(self.end as int),
                ]);
            }
        }
        frame
    }
}

} // verus!

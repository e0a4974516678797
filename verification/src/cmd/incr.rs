//! The INCR command: increment the integer value of a key by one.

use crate::cmd::{str_bytes, Command};
use crate::frame::{Frame, FrameVal};
use vstd::prelude::*;

verus! {

/// A INCR request for one key.
pub struct Incr {
    key: Vec<u8>,
}

impl Incr {
    /// Creates a INCR for `key`.
    pub fn new(key: &str) -> (c: Incr)
        ensures
            c.frame_spec() == (FrameVal::Array(
                seq![
                    FrameVal::BulkString(seq![73u8, 78u8, 67u8, 82u8]),
                    FrameVal::BulkString(vstd::utf8::encode_utf8(key@)),
                ],
            )),
    {
        Incr { key: str_bytes(key) }
    }
}

impl Command for Incr {
    closed spec fn frame_spec(&self) -> FrameVal {
        FrameVal::Array(
            seq![
                FrameVal::BulkString(seq![73u8, 78u8, 67u8, 82u8]),
                FrameVal::BulkString(self.key@),
            ],
        )
    }

    fn into_stream(self) -> (f: Frame) {
        let mut frame = Frame::array();
        let mut name: Vec<u8> = Vec::new();
        name.push(73u8);
        name.push(78u8);
        name.push(67u8);
        name.push(82u8);
        proof {
            assert(name@ =~= seq![73u8, 78u8, 67u8, 82u8]);
        }
        let _ = frame.push_frame_to_array(Frame::BulkString(name));
        let _ = frame.push_frame_to_array(Frame::BulkString(self.key));
        proof {
            assert(frame@ == self.frame_spec()) by {
                assert(Seq::<FrameVal>::empty().push(
                    FrameVal::BulkString(seq![73u8, 78u8, 67u8, 82u8]),
                ).push(FrameVal::BulkString(self.key@)) =~= seq![
                    FrameVal::BulkString(seq![73u8, 78u8, 67u8, 82u8]),
                    FrameVal::BulkString(self.key@),
                ]);
            }
        }
        frame
    }
}

} // verus!

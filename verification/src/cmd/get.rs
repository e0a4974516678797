//! The GET command: fetch the value of a key.

use crate::cmd::{str_bytes, Command};
use crate::frame::{Frame, FrameVal};
use vstd::prelude::*;

verus! {

/// A GET request for one key.
pub struct Get {
    key: Vec<u8>,
}

impl Get {
    /// Creates a GET for `key`.
    pub fn new(key: &str) -> (c: Get)
        ensures
            c.frame_spec() == (FrameVal::Array(
                seq![
                    FrameVal::BulkString(seq![71u8, 69u8, 84u8]),
                    FrameVal::BulkString(vstd::utf8::encode_utf8(key@)),
                ],
            )),
    {
        Get { key: str_bytes(key) }
    }
}

impl Command for Get {
    closed spec fn frame_spec(&self) -> FrameVal {
        FrameVal::Array(
            seq![
                FrameVal::BulkString(seq![71u8, 69u8, 84u8]),
                FrameVal::BulkString(self.key@),
            ],
        )
    }

    fn into_stream(self) -> (f: Frame) {
        let mut frame = Frame::array();
        let mut name: Vec<u8> = Vec::new();
        name.push(71u8);
        name.push(69u8);
        name.push(84u8);
        proof {
            assert(name@ =~= seq![71u8, 69u8, 84u8]);
        }
        let _ = frame.push_frame_to_array(Frame::BulkString(name));
        let _ = frame.push_frame_to_array(Frame::BulkString(self.key));
        proof {
            assert(frame@ == self.frame_spec()) by {
                assert(Seq::<FrameVal>::empty().push(
                    FrameVal::BulkString(seq![71u8, 69u8, 84u8]),
                ).push(FrameVal::BulkString(self.key@)) =~= seq![
                    FrameVal::BulkString(seq![71u8, 69u8, 84u8]),
                    FrameVal::BulkString(self.key@),
                ]);
            }
        }
        frame
    }
}

} // verus!

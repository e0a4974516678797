//! The SET command: store a value under a key.

use crate::cmd::{str_bytes, Command};
use crate::frame::{Frame, FrameVal};
use vstd::prelude::*;

verus! {

/// A SET request: a key and the value to store.
pub struct SetCmd {
    key: Vec<u8>,
    value: Vec<u8>,
}

impl SetCmd {
    /// Creates a SET for `key` and `value`.
    pub fn new(key: &str, value: &[u8]) -> (c: SetCmd)
        ensures
            c.frame_spec() == (FrameVal::Array(
                seq![
                    FrameVal::BulkString(seq![83u8, 69u8, 84u8]),
                    FrameVal::BulkString(vstd::utf8::encode_utf8(key@)),
                    FrameVal::BulkString(value@),
                ],
            )),
    {
        SetCmd { key: str_bytes(key), value: vstd::slice::slice_to_vec(value) }
    }
}

impl Command for SetCmd {
    closed spec fn frame_spec(&self) -> FrameVal {
        FrameVal::Array(
            seq![
                FrameVal::BulkString(seq![83u8, 69u8, 84u8]),
                FrameVal::BulkString(self.key@),
                FrameVal::BulkString(self.value@),
            ],
        )
    }

    fn into_stream(self) -> (f: Frame) {
        let mut frame = Frame::array();
        let mut name: Vec<u8> = Vec::new();
        name.push(83u8);
        name.push(69u8);
        name.push(84u8);
        proof {
            assert(name@ =~= seq![83u8, 69u8, 84u8]);
        }
        let _ = frame.push_frame_to_array(Frame::BulkString(name));
        let _ = frame.push_frame_to_array(Frame::BulkString(self.key));
        let _ = frame.push_frame_to_array(Frame::BulkString(self.value));
        proof {
            assert(frame@ == self.frame_spec()) by {
                assert(Seq::<FrameVal>::empty().push(FrameVal::BulkString(seq![83u8, 69u8, 84u8])).push(
                    FrameVal::BulkString(self.key@),
                ).push(FrameVal::BulkString(self.value@)) =~= seq![
                    FrameVal::BulkString(seq![83u8, 69u8, 84u8]),
                    FrameVal::BulkString(self.key@),
                    FrameVal::BulkString(self.value@),
                ]);
            }
        }
        frame
    }
}

} // verus!

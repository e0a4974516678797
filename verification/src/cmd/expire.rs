//! The EXPIRE command: set a timeout on a key.

use crate::client::int_text;
use crate::cmd::{str_bytes, Command};
use crate::dec::dec_int;
use crate::frame::{Frame, FrameVal};
use vstd::prelude::*;

verus! {

/// An EXPIRE request: a key and a timeout in seconds, sent as decimal
/// text.
pub struct Expire {
    key: Vec<u8>,
    seconds: i64,
}

impl Expire {
    /// Creates an EXPIRE for `key` after `seconds`.
    pub fn new(key: &str, seconds: i64) -> (c: Expire)
        ensures
            c.frame_spec() == (FrameVal::Array(
                seq![
                    FrameVal::BulkString(seq![69u8, 88u8, 80u8, 73u8, 82u8, 69u8]),
                    FrameVal::BulkString(vstd::utf8::encode_utf8(key@)),
                    FrameVal::BulkString(dec_int(seconds as int)),
                ],
            )),
    {
        Expire { key: str_bytes(key), seconds }
    }
}

impl Command for Expire {
    closed spec fn frame_spec(&self) -> FrameVal {
        FrameVal::Array(
            seq![
                FrameVal::BulkString(seq![69u8, 88u8, 80u8, 73u8, 82u8, 69u8]),
                FrameVal::BulkString(self.key@),
                FrameVal::BulkString(dec_int(self.seconds as int)),
            ],
        )
    }

    fn into_stream(self) -> (f: Frame) {
        let mut frame = Frame::array();
        let mut name: Vec<u8> = Vec::new();
        name.push(69u8);
        name.push(88u8);
        name.push(80u8);
        name.push(73u8);
        name.push(82u8);
        name.push(69u8);
        proof {
            assert(name@ =~= seq![69u8, 88u8, 80u8, 73u8, 82u8, 69u8]);
        }
        let _ = frame.push_frame_to_array(Frame::BulkString(name));
        let _ = frame.push_frame_to_array(Frame::BulkString(self.key));
        let secs = int_text(self.seconds);
        let _ = frame.push_frame_to_array(Frame::BulkString(secs));
        proof {
            assert(frame@ == self.frame_spec()) by {
                assert(Seq::<FrameVal>::empty().push(
                    FrameVal::BulkString(seq![69u8, 88u8, 80u8, 73u8, 82u8, 69u8]),
                ).push(FrameVal::BulkString(self.key@)).push(
                    FrameVal::BulkString(dec_int(self.seconds as int)),
                ) =~= seq![
                    FrameVal::BulkString(seq![69u8, 88u8, 80u8, 73u8, 82u8, 69u8]),
                    FrameVal::BulkString(self.key@),
                    FrameVal::BulkString(dec_int(self.seconds as int)),
                ]);
            }
        }
        frame
    }
}

} // verus!

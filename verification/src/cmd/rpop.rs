//! The RPOP command: pop elements from the tail of a list.

use crate::cmd::{str_bytes, wrap_i64, wrap_to_i64, Command};
use crate::frame::{Frame, FrameVal};
use vstd::prelude::*;

verus! {

/// A RPOP request: a key and, optionally, how many elements to pop
/// from the tail.
pub struct RPop {
    key: Vec<u8>,
    count: Option<u64>,
}

impl RPop {
    /// Creates a RPOP for `key`; with a count the reply is an array.
    pub fn new(key: &str, count: Option<u64>) -> (c: RPop)
        ensures
            c.frame_spec() == (match count {
                Some(n) => FrameVal::Array(
                    seq![
                        FrameVal::BulkString(seq![82u8, 80u8, 79u8, 80u8]),
                        FrameVal::BulkString(vstd::utf8::encode_utf8(key@)),
                        FrameVal::Integer(wrap_to_i64(n)),
                    ],
                ),
                None => FrameVal::Array(
                    seq![
                        FrameVal::BulkString(seq![82u8, 80u8, 79u8, 80u8]),
                        FrameVal::BulkString(vstd::utf8::encode_utf8(key@)),
                    ],
                ),
            }),
    {
        RPop { key: str_bytes(key), count }
    }
}

impl Command for RPop {
    closed spec fn frame_spec(&self) -> FrameVal {
        match self.count {
            Some(n) => FrameVal::Array(
                seq![
                    FrameVal::BulkString(seq![82u8, 80u8, 79u8, 80u8]),
                    FrameVal::BulkString(self.key@),
                    FrameVal::Integer(wrap_to_i64(n)),
                ],
            ),
            None => FrameVal::Array(
                seq![
                    FrameVal::BulkString(seq![82u8, 80u8, 79u8, 80u8]),
                    FrameVal::BulkString(self.key@),
                ],
            ),
        }
    }

    fn into_stream(self) -> (f: Frame) {
        let mut frame = Frame::array();
        let mut name: Vec<u8> = Vec::new();
        name.push(82u8);
        name.push(80u8);
        name.push(79u8);
        name.push(80u8);
        proof {
            assert(name@ =~= seq![82u8, 80u8, 79u8, 80u8]);
        }
        let _ = frame.push_frame_to_array(Frame::BulkString(name));
        let _ = frame.push_frame_to_array(Frame::BulkString(self.key));
        match self.count {
            Some(n) => {
                let _ = frame.push_frame_to_array(Frame::Integer(wrap_i64(n)));
                proof {
                    assert(frame@ == self.frame_spec()) by {
                        assert(Seq::<FrameVal>::empty().push(
                            FrameVal::BulkString(seq![82u8, 80u8, 79u8, 80u8]),
                        ).push(FrameVal::BulkString(self.key@)).push(
                            FrameVal::Integer(wrap_to_i64(n)),
                        ) =~= seq![
                            FrameVal::BulkString(seq![82u8, 80u8, 79u8, 80u8]),
                            FrameVal::BulkString(self.key@),
                            FrameVal::Integer(wrap_to_i64(n)),
                        ]);
                    }
                }
            },
            None => {
                proof {
                    assert(frame@ == self.frame_spec()) by {
                        assert(Seq::<FrameVal>::empty().push(
                            FrameVal::BulkString(seq![82u8, 80u8, 79u8, 80u8]),
                        ).push(FrameVal::BulkString(self.key@)) =~= seq![
                            FrameVal::BulkString(seq![82u8, 80u8, 79u8, 80u8]),
                            FrameVal::BulkString(self.key@),
                        ]);
                    }
                }
            },
        }
        frame
    }
}

} // verus!

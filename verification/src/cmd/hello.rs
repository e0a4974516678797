//! The HELLO command: switch the connection's protocol version.

use crate::cmd::{Command};
use crate::dec::{dec_nat, push_dec_u64};
use crate::frame::{Frame, FrameVal};
use vstd::prelude::*;

verus! {

/// A HELLO request, optionally naming the protocol version as decimal
/// text.
pub struct Hello {
    proto: Option<u8>,
}

impl Hello {
    /// Creates a HELLO for `proto` when given.
    pub fn new(proto: Option<u8>) -> (c: Hello)
        ensures
            c.frame_spec() == (match proto {
                Some(p) => FrameVal::Array(
                    seq![
                        FrameVal::BulkString(seq![72u8, 69u8, 76u8, 76u8, 79u8]),
                        FrameVal::BulkString(dec_nat(p as int)),
                    ],
                ),
                None => FrameVal::Array(seq![FrameVal::BulkString(seq![72u8, 69u8, 76u8, 76u8, 79u8])]),
            }),
    {
        Hello { proto }
    }
}

impl Command for Hello {
    closed spec fn frame_spec(&self) -> FrameVal {
        match self.proto {
            Some(p) => FrameVal::Array(
                seq![
                    FrameVal::BulkString(seq![72u8, 69u8, 76u8, 76u8, 79u8]),
                    FrameVal::BulkString(dec_nat(p as int)),
                ],
            ),
            None => FrameVal::Array(seq![FrameVal::BulkString(seq![72u8, 69u8, 76u8, 76u8, 79u8])]),
        }
    }

    fn into_stream(self) -> (f: Frame) {
        let mut frame = Frame::array();
        let mut name: Vec<u8> = Vec::new();
        name.push(72u8);
        name.push(69u8);
        name.push(76u8);
        name.push(76u8);
        name.push(79u8);
        proof {
            assert(name@ =~= seq![72u8, 69u8, 76u8, 76u8, 79u8]);
        }
        let _ = frame.push_frame_to_array(Frame::BulkString(name));
        match self.proto {
            Some(p) => {
                let mut text: Vec<u8> = Vec::new();
                push_dec_u64(p as u64, &mut text);
                proof {
                    assert(text@ =~= dec_nat(p as int));
                }
                let _ = frame.push_frame_to_array(Frame::BulkString(text));
                proof {
                    assert(frame@ == self.frame_spec()) by {
                        assert(Seq::<FrameVal>::empty().push(
                            FrameVal::BulkString(seq![72u8, 69u8, 76u8, 76u8, 79u8]),
                        ).push(FrameVal::BulkString(dec_nat(p as int))) =~= seq![
                            FrameVal::BulkString(seq![72u8, 69u8, 76u8, 76u8, 79u8]),
                            FrameVal::BulkString(dec_nat(p as int)),
                        ]);
                    }
                }
            },
            None => {
                proof {
                    assert(frame@ == self.frame_spec()) by {
                        assert(Seq::<FrameVal>::empty().push(
                            FrameVal::BulkString(seq![72u8, 69u8, 76u8, 76u8, 79u8]),
                        ) =~= seq![FrameVal::BulkString(seq![72u8, 69u8, 76u8, 76u8, 79u8])]);
                    }
                }
            },
        }
        frame
    }
}

} // verus!

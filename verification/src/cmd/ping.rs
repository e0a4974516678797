//! The PING command: check that the server is alive.

use crate::cmd::{Command};
use crate::frame::{Frame, FrameVal};
use vstd::prelude::*;

verus! {

/// A PING request, optionally carrying a message to echo.
pub struct Ping {
    msg: Option<Vec<u8>>,
}

impl Ping {
    /// Creates a PING, echoing `msg` when given.
    pub fn new(msg: Option<&[u8]>) -> (c: Ping)
        ensures
            c.frame_spec() == (match msg {
                Some(m) => FrameVal::Array(
                    seq![
                        FrameVal::BulkString(seq![80u8, 73u8, 78u8, 71u8]),
                        FrameVal::BulkString(m@),
                    ],
                ),
                None => FrameVal::Array(seq![FrameVal::BulkString(seq![80u8, 73u8, 78u8, 71u8])]),
            }),
    {
        Ping {
            msg: match msg {
                Some(m) => Some(vstd::slice::slice_to_vec(m)),
                None => None,
            },
        }
    }
}

impl Command for Ping {
    closed spec fn frame_spec(&self) -> FrameVal {
        match self.msg {
            Some(m) => FrameVal::Array(
                seq![
                    FrameVal::BulkString(seq![80u8, 73u8, 78u8, 71u8]),
                    FrameVal::BulkString(m@),
                ],
            ),
            None => FrameVal::Array(seq![FrameVal::BulkString(seq![80u8, 73u8, 78u8, 71u8])]),
        }
    }

    fn into_stream(self) -> (f: Frame) {
        let mut frame = Frame::array();
        let mut name: Vec<u8> = Vec::new();
        name.push(80u8);
        name.push(73u8);
        name.push(78u8);
        name.push(71u8);
        proof {
            assert(name@ =~= seq![80u8, 73u8, 78u8, 71u8]);
        }
        let _ = frame.push_frame_to_array(Frame::BulkString(name));
        match self.msg {
            Some(m) => {
                let ghost mv = m@;
                let _ = frame.push_frame_to_array(Frame::BulkString(m));
                proof {
                    assert(frame@ == self.frame_spec()) by {
                        assert(Seq::<FrameVal>::empty().push(
                            FrameVal::BulkString(seq![80u8, 73u8, 78u8, 71u8]),
                        ).push(FrameVal::BulkString(mv)) =~= seq![
                            FrameVal::BulkString(seq![80u8, 73u8, 78u8, 71u8]),
                            FrameVal::BulkString(mv),
                        ]);
                    }
                }
            },
            None => {
                proof {
                    assert(frame@ == self.frame_spec()) by {
                        assert(Seq::<FrameVal>::empty().push(
                            FrameVal::BulkString(seq![80u8, 73u8, 78u8, 71u8]),
                        ) =~= seq![FrameVal::BulkString(seq![80u8, 73u8, 78u8, 71u8])]);
                    }
                }
            },
        }
        frame
    }
}

} // verus!

//! The GETEX command: fetch a key's value and adjust its expiry.

use crate::client::clone_bytes;
use crate::cmd::{str_bytes, wrap_i64, wrap_to_i64, Command};
use crate::frame::{Frame, FrameVal};
use vstd::prelude::*;

verus! {

/// How a GETEX adjusts the expiry of the key it reads.
#[derive(Debug)]
pub enum Expiry {
    /// Expire after this many seconds.
    EX(u64),
    /// Expire after this many milliseconds.
    PX(u64),
    /// Expire at this Unix timestamp in seconds.
    EXAT(u64),
    /// Expire at this Unix timestamp in milliseconds.
    PXAT(u64),
    /// Remove any expiry.
    PERSIST,
}

/// The argument frames an expiry adds to the request.
pub open spec fn expiry_frames(e: Expiry) -> Seq<FrameVal> {
    match e {
        Expiry::EX(s) => seq![
            FrameVal::BulkString(seq![69u8, 88u8]),
            FrameVal::Integer(wrap_to_i64(s)),
        ],
        Expiry::PX(s) => seq![
            FrameVal::BulkString(seq![80u8, 88u8]),
            FrameVal::Integer(wrap_to_i64(s)),
        ],
        Expiry::EXAT(s) => seq![
            FrameVal::BulkString(seq![69u8, 88u8, 65u8, 84u8]),
            FrameVal::Integer(wrap_to_i64(s)),
        ],
        Expiry::PXAT(s) => seq![
            FrameVal::BulkString(seq![80u8, 88u8, 65u8, 84u8]),
            FrameVal::Integer(wrap_to_i64(s)),
        ],
        Expiry::PERSIST => seq![FrameVal::BulkString(seq![80u8, 69u8, 82u8, 83u8, 73u8, 83u8, 84u8])],
    }
}

/// A GETEX request: a key and an optional expiry adjustment.
pub struct GetEx {
    key: Vec<u8>,
    expiry: Option<Expiry>,
}

impl GetEx {
    /// Creates a GETEX for `key`, adjusting the expiry when given.
    pub fn new(key: &str, expiry: Option<Expiry>) -> (c: GetEx)
        ensures
            c.frame_spec() == (match expiry {
                Some(e) => FrameVal::Array(
                    seq![
                        FrameVal::BulkString(seq![71u8, 69u8, 84u8, 69u8, 88u8]),
                        FrameVal::BulkString(vstd::utf8::encode_utf8(key@)),
                    ] + expiry_frames(e),
                ),
                None => FrameVal::Array(
                    seq![
                        FrameVal::BulkString(seq![71u8, 69u8, 84u8, 69u8, 88u8]),
                        FrameVal::BulkString(vstd::utf8::encode_utf8(key@)),
                    ],
                ),
            }),
    {
        GetEx { key: str_bytes(key), expiry }
    }
}

impl Command for GetEx {
    closed spec fn frame_spec(&self) -> FrameVal {
        match self.expiry {
            Some(e) => FrameVal::Array(
                seq![
                    FrameVal::BulkString(seq![71u8, 69u8, 84u8, 69u8, 88u8]),
                    FrameVal::BulkString(self.key@),
                ] + expiry_frames(e),
            ),
            None => FrameVal::Array(
                seq![
                    FrameVal::BulkString(seq![71u8, 69u8, 84u8, 69u8, 88u8]),
                    FrameVal::BulkString(self.key@),
                ],
            ),
        }
    }

    fn into_stream(self) -> (f: Frame) {
        let mut frame = Frame::array();
        let mut name: Vec<u8> = Vec::new();
        name.push(71u8);
        name.push(69u8);
        name.push(84u8);
        name.push(69u8);
        name.push(88u8);
        proof {
            assert(name@ =~= seq![71u8, 69u8, 84u8, 69u8, 88u8]);
        }
        let _ = frame.push_frame_to_array(Frame::BulkString(name));
        let key = clone_bytes(&self.key);
        let _ = frame.push_frame_to_array(Frame::BulkString(key));
        let ghost head = seq![
            FrameVal::BulkString(seq![71u8, 69u8, 84u8, 69u8, 88u8]),
            FrameVal::BulkString(self.key@),
        ];
        proof {
            assert(Seq::<FrameVal>::empty().push(FrameVal::BulkString(seq![71u8, 69u8, 84u8, 69u8, 88u8])).push(
                FrameVal::BulkString(self.key@),
            ) =~= head);
        }
        match self.expiry {
            None => {
                proof {
                    assert(frame@ == self.frame_spec());
                }
            },
            Some(Expiry::EX(s)) => {
                push_word_and_count(&mut frame, 0u8, s);
                proof {
                    assert(head.push(FrameVal::BulkString(seq![69u8, 88u8])).push(
                        FrameVal::Integer(wrap_to_i64(s)),
                    ) =~= head + expiry_frames(Expiry::EX(s)));
                }
            },
            Some(Expiry::PX(s)) => {
                push_word_and_count(&mut frame, 1u8, s);
                proof {
                    assert(head.push(FrameVal::BulkString(seq![80u8, 88u8])).push(
                        FrameVal::Integer(wrap_to_i64(s)),
                    ) =~= head + expiry_frames(Expiry::PX(s)));
                }
            },
            Some(Expiry::EXAT(s)) => {
                push_word_and_count(&mut frame, 2u8, s);
                proof {
                    assert(head.push(FrameVal::BulkString(seq![69u8, 88u8, 65u8, 84u8])).push(
                        FrameVal::Integer(wrap_to_i64(s)),
                    ) =~= head + expiry_frames(Expiry::EXAT(s)));
                }
            },
            Some(Expiry::PXAT(s)) => {
                push_word_and_count(&mut frame, 3u8, s);
                proof {
                    assert(head.push(FrameVal::BulkString(seq![80u8, 88u8, 65u8, 84u8])).push(
                        FrameVal::Integer(wrap_to_i64(s)),
                    ) =~= head + expiry_frames(Expiry::PXAT(s)));
                }
            },
            Some(Expiry::PERSIST) => {
                let mut word: Vec<u8> = Vec::new();
                word.push(80u8);
                word.push(69u8);
                word.push(82u8);
                word.push(83u8);
                word.push(73u8);
                word.push(83u8);
                word.push(84u8);
                proof {
                    assert(word@ =~= seq![80u8, 69u8, 82u8, 83u8, 73u8, 83u8, 84u8]);
                }
                let _ = frame.push_frame_to_array(Frame::BulkString(word));
                proof {
                    assert(head.push(FrameVal::BulkString(seq![80u8, 69u8, 82u8, 83u8, 73u8, 83u8, 84u8])) =~= head
                        + expiry_frames(Expiry::PERSIST));
                }
            },
        }
        frame
    }
}

/// The spelled keyword of each timed expiry kind.
pub open spec fn expiry_word(kind: u8) -> Seq<u8> {
    if kind == 0u8 {
        seq![69u8, 88u8]
    } else if kind == 1u8 {
        seq![80u8, 88u8]
    } else if kind == 2u8 {
        seq![69u8, 88u8, 65u8, 84u8]
    } else {
        seq![80u8, 88u8, 65u8, 84u8]
    }
}

/// Pushes a timed expiry keyword and its count onto the request frame.
fn push_word_and_count(frame: &mut Frame, kind: u8, s: u64)
    requires
        kind < 4,
        old(frame)@ is Array,
    ensures
        (final(frame)@ matches FrameVal::Array(cs) && old(frame)@ matches FrameVal::Array(pre)
            && cs == pre.push(FrameVal::BulkString(expiry_word(kind))).push(
            FrameVal::Integer(wrap_to_i64(s)),
        )),
{
    let mut word: Vec<u8> = Vec::new();
    if kind == 0u8 {
        word.push(69u8);
        word.push(88u8);
    } else if kind == 1u8 {
        word.push(80u8);
        word.push(88u8);
    } else if kind == 2u8 {
        word.push(69u8);
        word.push(88u8);
        word.push(65u8);
        word.push(84u8);
    } else {
        word.push(80u8);
        word.push(88u8);
        word.push(65u8);
        word.push(84u8);
    }
    proof {
        assert(word@ =~= expiry_word(kind));
    }
    let _ = frame.push_frame_to_array(Frame::BulkString(word));
    let _ = frame.push_frame_to_array(Frame::Integer(wrap_i64(s)));
}

} // verus!

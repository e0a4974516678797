//! The DEL command: delete keys.

use crate::client::clone_bytes;
use crate::cmd::{bulk_rows, str_bytes, Command};
use crate::frame::{Frame, FrameVal};
use vstd::prelude::*;

verus! {

/// A DEL request for a list of keys.
pub struct Del {
    keys: Vec<Vec<u8>>,
}

impl Del {
    /// Creates a DEL for `keys`, kept in order.
    pub fn new(keys: Vec<&str>) -> (c: Del)
        ensures
            c.frame_spec() matches FrameVal::Array(items) && items.len() == keys@.len() + 1
                && items[0] == FrameVal::BulkString(seq![68u8, 69u8, 76u8]) && (forall|i: int|
                0 <= i < keys@.len() ==> #[trigger] items[i + 1] == FrameVal::BulkString(
                    vstd::utf8::encode_utf8(keys@[i]@),
                )),
    {
        let mut rows: Vec<Vec<u8>> = Vec::new();
        let mut i: usize = 0;
        while i < keys.len()
            invariant
                i <= keys@.len(),
                rows@.len() == i,
                forall|j: int|
                    0 <= j < i ==> (#[trigger] rows@[j])@ == vstd::utf8::encode_utf8(keys@[j]@),
            decreases keys@.len() - i,
        {
            rows.push(str_bytes(keys[i]));
            i = i + 1;
        }
        let c = Del { keys: rows };
        proof {
            assert(c.frame_spec() matches FrameVal::Array(items) && items.len() == keys@.len()
                + 1);
        }
        c
    }
}

impl Command for Del {
    closed spec fn frame_spec(&self) -> FrameVal {
        FrameVal::Array(seq![FrameVal::BulkString(seq![68u8, 69u8, 76u8])] + bulk_rows(self.keys@))
    }

    fn into_stream(self) -> (f: Frame) {
        let mut frame = Frame::array();
        let mut name: Vec<u8> = Vec::new();
        name.push(68u8);
        name.push(69u8);
        name.push(76u8);
        proof {
            assert(name@ =~= seq![68u8, 69u8, 76u8]);
        }
        let _ = frame.push_frame_to_array(Frame::BulkString(name));
        let ghost head = seq![FrameVal::BulkString(seq![68u8, 69u8, 76u8])];
        proof {
            assert(frame@ == FrameVal::Array(head + bulk_rows(self.keys@).subrange(0, 0))) by {
                assert(Seq::<FrameVal>::empty().push(FrameVal::BulkString(seq![68u8, 69u8, 76u8]))
                    =~= head + bulk_rows(self.keys@).subrange(0, 0));
            }
        }
        let mut i: usize = 0;
        while i < self.keys.len()
            invariant
                i <= self.keys@.len(),
                frame@ == FrameVal::Array(head + bulk_rows(self.keys@).subrange(0, i as int)),
                head == seq![FrameVal::BulkString(seq![68u8, 69u8, 76u8])],
            decreases self.keys@.len() - i,
        {
            let k = clone_bytes(&self.keys[i]);
            let _ = frame.push_frame_to_array(Frame::BulkString(k));
            proof {
                assert((head + bulk_rows(self.keys@).subrange(0, i as int)).push(
                    FrameVal::BulkString(self.keys@[i as int]@),
                ) =~= head + bulk_rows(self.keys@).subrange(0, i + 1));
            }
            i = i + 1;
        }
        proof {
            assert(bulk_rows(self.keys@).subrange(0, bulk_rows(self.keys@).len() as int)
                =~= bulk_rows(self.keys@));
        }
        frame
    }
}

} // verus!

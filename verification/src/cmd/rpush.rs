//! The RPUSH command: push values onto the tail of a list.

use crate::client::clone_bytes;
use crate::cmd::{bulk_rows, str_bytes, Command};
use crate::frame::{Frame, FrameVal};
use vstd::prelude::*;

verus! {

/// A RPUSH request: a key and the values to push, in order.
pub struct RPush {
    key: Vec<u8>,
    values: Vec<Vec<u8>>,
}

impl RPush {
    /// Creates a RPUSH for `key` and `values`.
    pub fn new(key: &str, values: Vec<&[u8]>) -> (c: RPush)
        ensures
            c.frame_spec() matches FrameVal::Array(items) && items.len() == values@.len() + 2
                && items[0] == FrameVal::BulkString(seq![82u8, 80u8, 85u8, 83u8, 72u8]) && items[1]
                == FrameVal::BulkString(vstd::utf8::encode_utf8(key@)) && (forall|i: int|
                0 <= i < values@.len() ==> #[trigger] items[i + 2] == FrameVal::BulkString(
                    values@[i]@,
                )),
    {
        let mut rows: Vec<Vec<u8>> = Vec::new();
        let mut i: usize = 0;
        while i < values.len()
            invariant
                i <= values@.len(),
                rows@.len() == i,
                forall|j: int| 0 <= j < i ==> (#[trigger] rows@[j])@ == values@[j]@,
            decreases values@.len() - i,
        {
            rows.push(vstd::slice::slice_to_vec(values[i]));
            i = i + 1;
        }
        let c = RPush { key: str_bytes(key), values: rows };
        proof {
            assert(c.frame_spec() matches FrameVal::Array(items) && items.len() == values@.len()
                + 2);
        }
        c
    }
}

impl Command for RPush {
    closed spec fn frame_spec(&self) -> FrameVal {
        FrameVal::Array(
            seq![
                FrameVal::BulkString(seq![82u8, 80u8, 85u8, 83u8, 72u8]),
                FrameVal::BulkString(self.key@),
            ] + bulk_rows(self.values@),
        )
    }

    fn into_stream(self) -> (f: Frame) {
        let mut frame = Frame::array();
        let mut name: Vec<u8> = Vec::new();
        name.push(82u8);
        name.push(80u8);
        name.push(85u8);
        name.push(83u8);
        name.push(72u8);
        proof {
            assert(name@ =~= seq![82u8, 80u8, 85u8, 83u8, 72u8]);
        }
        let _ = frame.push_frame_to_array(Frame::BulkString(name));
        let ghost head = seq![
            FrameVal::BulkString(seq![82u8, 80u8, 85u8, 83u8, 72u8]),
            FrameVal::BulkString(self.key@),
        ];
        let key = clone_bytes(&self.key);
        let _ = frame.push_frame_to_array(Frame::BulkString(key));
        proof {
            assert(frame@ == FrameVal::Array(head + bulk_rows(self.values@).subrange(0, 0))) by {
                assert(Seq::<FrameVal>::empty().push(FrameVal::BulkString(seq![82u8, 80u8, 85u8, 83u8, 72u8])).push(
                    FrameVal::BulkString(self.key@),
                ) =~= head + bulk_rows(self.values@).subrange(0, 0));
            }
        }
        let mut i: usize = 0;
        while i < self.values.len()
            invariant
                i <= self.values@.len(),
                frame@ == FrameVal::Array(head + bulk_rows(self.values@).subrange(0, i as int)),
                head == seq![
                    FrameVal::BulkString(seq![82u8, 80u8, 85u8, 83u8, 72u8]),
                    FrameVal::BulkString(self.key@),
                ],
            decreases self.values@.len() - i,
        {
            let v = clone_bytes(&self.values[i]);
            let _ = frame.push_frame_to_array(Frame::BulkString(v));
            proof {
                assert((head + bulk_rows(self.values@).subrange(0, i as int)).push(
                    FrameVal::BulkString(self.values@[i as int]@),
                ) =~= head + bulk_rows(self.values@).subrange(0, i + 1));
            }
            i = i + 1;
        }
        proof {
            assert(bulk_rows(self.values@).subrange(0, bulk_rows(self.values@).len() as int)
                =~= bulk_rows(self.values@));
        }
        frame
    }
}

} // verus!

//! The read-accumulation buffer of a connection.
//!
//! A transport reads raw bytes from its stream and appends them here; the
//! buffer attempts to parse one frame off its front and, on success, removes
//! exactly the consumed bytes. A partial frame in the buffer is a legal
//! steady state reported as `Ok(None)`, never an error.

use crate::error::RedisError;
use crate::frame::Frame;
use crate::parse::{sparse, ParseOutcome, SpecParsed};
use vstd::prelude::*;

verus! {

/// The hard cap a transport should put on buffer growth: 512 MiB.
pub const MAX_BUFFER_SIZE: usize = 512 * 1024 * 1024;

/// Bytes received from the stream but not yet consumed by a successful
/// parse.
pub struct ReadBuffer {
    data: Vec<u8>,
}

impl View for ReadBuffer {
    type V = Seq<u8>;

    closed spec fn view(&self) -> Seq<u8> {
        self.data@
    }
}

impl ReadBuffer {
    /// An empty buffer.
    pub fn new() -> (r: ReadBuffer)
        ensures
            r@ == Seq::<u8>::empty(),
    {
        ReadBuffer { data: Vec::new() }
    }

    /// How many unconsumed bytes the buffer holds.
    pub fn len(&self) -> (n: usize)
        ensures
            n == self@.len(),
    {
        self.data.len()
    }

    /// True when no unconsumed bytes remain.
    pub fn is_empty(&self) -> (r: bool)
        ensures
            r == (self@.len() == 0),
    {
        self.data.len() == 0
    }

    /// Appends bytes freshly read from the stream.
    pub fn append(&mut self, chunk: &[u8])
        ensures
            final(self)@ == old(self)@ + chunk@,
    {
        let mut i: usize = 0;
        while i < chunk.len()
            invariant
                i <= chunk@.len(),
                self.data@ == old(self).data@ + chunk@.subrange(0, i as int),
            decreases chunk@.len() - i,
        {
            self.data.push(chunk[i]);
            proof {
                assert(chunk@.subrange(0, i + 1) =~= chunk@.subrange(0, i as int).push(
                    chunk@[i as int],
                ));
                assert(self.data@ =~= old(self).data@ + chunk@.subrange(0, i + 1));
            }
            i = i + 1;
        }
        proof {
            assert(chunk@.subrange(0, chunk@.len() as int) =~= chunk@);
        }
    }

    /// Attempts to parse one frame off the front of the buffer.
    ///
    /// On success the consumed prefix is removed and the rest stays for the
    /// next call. An incomplete frame leaves the buffer unchanged and asks
    /// the caller to read more bytes; invalid bytes are fatal and also leave
    /// the buffer unchanged.
    pub fn try_next(&mut self) -> (r: Result<Option<Frame>, RedisError>)
        ensures
            match sparse(old(self)@, 0) {
                SpecParsed::Found { val, next } => {
                    &&& r matches Ok(Some(f)) && f@ == val
                    &&& final(self)@ == old(self)@.subrange(next, old(self)@.len() as int)
                },
                SpecParsed::More => (r matches Ok(None)) && final(self)@ == old(self)@,
                SpecParsed::Bad => (r matches Err(RedisError::InvalidFrame)) && final(self)@
                    == old(self)@,
            },
    {
        match Frame::try_parse(self.data.as_slice()) {
            ParseOutcome::Complete { frame, consumed } => {
                let mut rest: Vec<u8> = Vec::new();
                let mut i: usize = consumed;
                while i < self.data.len()
                    invariant
                        consumed <= i <= self.data@.len(),
                        self.data@ == old(self).data@,
                        rest@ == self.data@.subrange(consumed as int, i as int),
                    decreases self.data@.len() - i,
                {
                    rest.push(self.data[i]);
                    proof {
                        assert(self.data@.subrange(consumed as int, i + 1) =~= self.data@.subrange(
                            consumed as int,
                            i as int,
                        ).push(self.data@[i as int]));
                    }
                    i = i + 1;
                }
                self.data = rest;
                Ok(Some(frame))
            },
            ParseOutcome::Incomplete => Ok(None),
            ParseOutcome::Invalid => Err(RedisError::InvalidFrame),
        }
    }
}

} // verus!

//! Request construction: each command value knows how to produce the Array
//! frame that goes on the wire.
//!
//! Every request is an array whose first element is a bulk string naming
//! the command in upper case, followed by bulk strings (or integers) for
//! the arguments, in order. Command names appear in contracts as their
//! ASCII byte sequences, so `seq![68u8, 69u8, 76u8]` reads `DEL`.

use crate::frame::{Frame, FrameVal};
use vstd::prelude::*;

mod hello;
pub use hello::Hello;

mod ping;
pub use ping::Ping;

mod get;
pub use get::Get;

mod getex;
pub use getex::{Expiry, GetEx};

mod set_cmd;
pub use set_cmd::SetCmd;

mod del;
pub use del::Del;

mod exists_cmd;
pub use exists_cmd::Exists;

mod expire;
pub use expire::Expire;

mod ttl;
pub use ttl::Ttl;

mod incr;
pub use incr::Incr;

mod decr;
pub use decr::Decr;

mod lpush;
pub use lpush::LPush;

mod rpush;
pub use rpush::RPush;

mod lpop;
pub use lpop::LPop;

mod rpop;
pub use rpop::RPop;

mod lrange;
pub use lrange::LRange;

mod publish;
pub use publish::Publish;

mod subscribe;
pub use subscribe::Subscribe;

mod unsubscribe;
pub use unsubscribe::Unsubscribe;

verus! {

/// A command value produces the request frame it stands for.
pub trait Command: Sized {
    /// The request frame this command serializes to.
    spec fn frame_spec(&self) -> FrameVal;

    /// Builds the request frame: the command name, then the arguments.
    fn into_stream(self) -> (f: Frame)
        ensures
            f@ == self.frame_spec(),
    ;
}

/// The UTF-8 bytes of a string, as an owned vector.
pub(crate) fn str_bytes(s: &str) -> (out: Vec<u8>)
    ensures
        out@ == vstd::utf8::encode_utf8(s@),
{
    vstd::slice::slice_to_vec(s.as_bytes())
}

/// One bulk-string frame value per stored byte row.
pub open spec fn bulk_rows(s: Seq<Vec<u8>>) -> Seq<FrameVal> {
    Seq::new(s.len(), |i: int| FrameVal::BulkString(s[i]@))
}

/// The two's-complement reading of an unsigned count, as the wire encoding
/// of optional counts performs.
pub open spec fn wrap_to_i64(s: u64) -> int {
    if s <= i64::MAX {
        s as int
    } else {
        s as int - 0x1_0000_0000_0000_0000
    }
}

/// Reads an unsigned count as a signed 64-bit integer, two's complement.
pub(crate) fn wrap_i64(s: u64) -> (r: i64)
    ensures
        r as int == wrap_to_i64(s),
{
    if s <= i64::MAX as u64 {
        s as i64
    } else {
        let d = s - 9223372036854775808u64;
        i64::MIN + d as i64
    }
}

/// A command word this client does not know; kept for reporting.
#[allow(dead_code)]
pub struct Unknown {
    command: String,
}

} // verus!

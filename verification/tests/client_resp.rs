//! End-to-end request and response halves of the client verbs, against the
//! literal wire bytes a server would see and send.

use redis_async::client::{
    hello_pairs, response_array, response_bytes, response_i64, response_optional_bytes,
    response_u64,
};
use redis_async::{Command, Del, Frame, Get, LPush, LRange, Ping, RedisError, Response, SetCmd};

fn wire(cmd_frame: &Frame) -> Vec<u8> {
    cmd_frame.serialize().expect("request frames are well-formed")
}

fn reply(bytes: &[u8]) -> Response {
    let frame = Frame::deserialize(&bytes.to_vec()).expect("reply bytes parse");
    Response::from_frame(&frame)
}

#[test]
fn ping_no_argument() {
    let request = Ping::new(None).into_stream();
    assert_eq!(wire(&request), b"*1\r\n$4\r\nPING\r\n".to_vec());

    let coerced = response_bytes(reply(b"+PONG\r\n")).unwrap();
    assert_eq!(coerced, b"PONG".to_vec());
}

#[test]
fn ping_with_message() {
    let request = Ping::new(Some(b"hello")).into_stream();
    assert_eq!(wire(&request), b"*2\r\n$4\r\nPING\r\n$5\r\nhello\r\n".to_vec());

    let coerced = response_bytes(reply(b"$5\r\nhello\r\n")).unwrap();
    assert_eq!(coerced, b"hello".to_vec());
}

#[test]
fn set_then_get() {
    let set = SetCmd::new("mykey", b"myvalue").into_stream();
    assert_eq!(
        wire(&set),
        b"*3\r\n$3\r\nSET\r\n$5\r\nmykey\r\n$7\r\nmyvalue\r\n".to_vec()
    );
    let set_reply = response_optional_bytes(reply(b"+OK\r\n")).unwrap();
    assert_eq!(set_reply, Some(b"OK".to_vec()));

    let get = Get::new("mykey").into_stream();
    assert_eq!(wire(&get), b"*2\r\n$3\r\nGET\r\n$5\r\nmykey\r\n".to_vec());
    let get_reply = response_optional_bytes(reply(b"$7\r\nmyvalue\r\n")).unwrap();
    assert_eq!(get_reply, Some(b"myvalue".to_vec()));
}

#[test]
fn get_missing_key_is_none() {
    let get = Get::new("absent").into_stream();
    assert_eq!(wire(&get), b"*2\r\n$3\r\nGET\r\n$6\r\nabsent\r\n".to_vec());

    assert_eq!(response_optional_bytes(reply(b"_\r\n")).unwrap(), None);
    assert_eq!(response_optional_bytes(reply(b"$-1\r\n")).unwrap(), None);
}

#[test]
fn del_returns_count() {
    let del = Del::new(vec!["mykey"]).into_stream();
    assert_eq!(wire(&del), b"*2\r\n$3\r\nDEL\r\n$5\r\nmykey\r\n".to_vec());

    assert_eq!(response_u64(reply(b":1\r\n")).unwrap(), 1);
}

#[test]
fn lpush_then_lrange() {
    let lpush = LPush::new("mylist", vec![b"a", b"b", b"c"]).into_stream();
    assert_eq!(
        wire(&lpush),
        b"*5\r\n$5\r\nLPUSH\r\n$6\r\nmylist\r\n$1\r\na\r\n$1\r\nb\r\n$1\r\nc\r\n".to_vec()
    );
    assert_eq!(response_u64(reply(b":3\r\n")).unwrap(), 3);

    let lrange = LRange::new("mylist", 0, -1).into_stream();
    assert_eq!(
        wire(&lrange),
        b"*4\r\n$6\r\nLRANGE\r\n$6\r\nmylist\r\n:0\r\n:-1\r\n".to_vec()
    );
    let rows = response_array(reply(b"*3\r\n$1\r\nc\r\n$1\r\nb\r\n$1\r\na\r\n")).unwrap();
    assert_eq!(rows, vec![b"c".to_vec(), b"b".to_vec(), b"a".to_vec()]);
}

#[test]
fn ttl_coerces_negative_integers() {
    assert_eq!(response_i64(reply(b":-2\r\n")).unwrap(), -2);
    assert_eq!(response_i64(reply(b":-1\r\n")).unwrap(), -1);
    assert_eq!(response_i64(reply(b":60\r\n")).unwrap(), 60);
}

#[test]
fn server_error_text_is_kept_verbatim() {
    let err = response_bytes(reply(b"-ERR unknown command\r\n"));
    match err {
        Err(RedisError::ServerError(text)) => {
            assert_eq!(text, b"ERR unknown command".to_vec());
        }
        other => panic!("expected a server error, got {:?}", other),
    }
}

#[test]
fn wrong_shape_is_unexpected_response_type() {
    // an array where a plain reply is required
    let r = response_bytes(reply(b"*0\r\n"));
    assert!(matches!(r, Err(RedisError::UnexpectedResponseType)));
}

#[test]
fn non_decimal_count_is_an_encoding_error() {
    let r = response_u64(reply(b"+abc\r\n"));
    assert!(matches!(r, Err(RedisError::EncodingError)));
    let r = response_u64(reply(b":-1\r\n"));
    assert!(matches!(r, Err(RedisError::EncodingError)));
}

#[test]
fn boolean_and_double_replies_coerce_to_text() {
    assert_eq!(response_bytes(reply(b"#t\r\n")).unwrap(), b"true".to_vec());
    assert_eq!(response_bytes(reply(b"#f\r\n")).unwrap(), b"false".to_vec());
    assert_eq!(
        response_bytes(reply(b",3.5\r\n")).unwrap(),
        b"3.5".to_vec()
    );
}

#[test]
fn integer_reply_coerces_to_decimal_text() {
    assert_eq!(response_bytes(reply(b":42\r\n")).unwrap(), b"42".to_vec());
}

#[test]
fn nested_array_reply_flattens_one_level() {
    let rows =
        response_array(reply(b"*2\r\n*2\r\n$1\r\na\r\n$1\r\nb\r\n$1\r\nc\r\n")).unwrap();
    assert_eq!(rows, vec![b"ab".to_vec(), b"c".to_vec()]);
}

#[test]
fn hello_reply_pairs_from_map_and_from_array() {
    let from_map = hello_pairs(reply(
        b"%2\r\n$6\r\nserver\r\n$5\r\nredis\r\n$5\r\nproto\r\n:3\r\n",
    ))
    .unwrap();
    assert_eq!(
        from_map,
        vec![
            (b"server".to_vec(), b"redis".to_vec()),
            (b"proto".to_vec(), b"3".to_vec()),
        ]
    );

    let from_array = hello_pairs(reply(
        b"*4\r\n$6\r\nserver\r\n$5\r\nredis\r\n$5\r\nproto\r\n:2\r\n",
    ))
    .unwrap();
    assert_eq!(
        from_array,
        vec![
            (b"server".to_vec(), b"redis".to_vec()),
            (b"proto".to_vec(), b"2".to_vec()),
        ]
    );
}

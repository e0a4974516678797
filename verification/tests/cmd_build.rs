//! Request construction: each command builds the expected array frame.

use redis_async::{
    Command, Del, Exists, Expire, Frame, Get, GetEx, Hello, Incr, LPop, LPush, LRange, Ping, RPop,
    RPush, SetCmd, Ttl,
};
use redis_async::cmd::Decr;

fn bulk(s: &[u8]) -> Frame {
    Frame::BulkString(s.to_vec())
}

#[test]
fn cmd_test_ping() {
    let ping = Ping::new(None);
    let frame = ping.into_stream();
    assert_eq!(frame, Frame::Array(vec![bulk(b"PING")]));

    let ping = Ping::new(Some(b"hello"));
    let frame = ping.into_stream();
    assert_eq!(frame, Frame::Array(vec![bulk(b"PING"), bulk(b"hello")]));
}

#[test]
fn cmd_test_get() {
    let get = Get::new("mykey");
    let frame = get.into_stream();
    assert_eq!(frame, Frame::Array(vec![bulk(b"GET"), bulk(b"mykey")]));
}

#[test]
fn cmd_test_set() {
    let set = SetCmd::new("mykey", "myvalue".as_bytes());
    let frame = set.into_stream();
    assert_eq!(
        frame,
        Frame::Array(vec![bulk(b"SET"), bulk(b"mykey"), bulk(b"myvalue")])
    );
}

#[test]
fn cmd_test_del() {
    let del = Del::new(vec!["key1", "key2"]);
    let frame = del.into_stream();
    assert_eq!(
        frame,
        Frame::Array(vec![bulk(b"DEL"), bulk(b"key1"), bulk(b"key2")])
    );
}

#[test]
fn cmd_test_exists() {
    let exists = Exists::new(vec!["key1", "key2"]);
    let frame = exists.into_stream();
    assert_eq!(
        frame,
        Frame::Array(vec![bulk(b"EXISTS"), bulk(b"key1"), bulk(b"key2")])
    );
}

#[test]
fn cmd_test_expire() {
    let expire = Expire::new("mykey", 60);
    let frame = expire.into_stream();
    assert_eq!(
        frame,
        Frame::Array(vec![bulk(b"EXPIRE"), bulk(b"mykey"), bulk(b"60")])
    );
}

#[test]
fn cmd_test_ttl() {
    let ttl = Ttl::new("mykey");
    let frame = ttl.into_stream();
    assert_eq!(frame, Frame::Array(vec![bulk(b"TTL"), bulk(b"mykey")]));
}

#[test]
fn cmd_test_incr() {
    let incr = Incr::new("mykey");
    let frame = incr.into_stream();
    assert_eq!(frame, Frame::Array(vec![bulk(b"INCR"), bulk(b"mykey")]));
}

#[test]
fn cmd_test_decr() {
    let decr = Decr::new("mykey");
    let frame = decr.into_stream();
    assert_eq!(frame, Frame::Array(vec![bulk(b"DECR"), bulk(b"mykey")]));
}

#[test]
fn cmd_test_lpush() {
    let lpush = LPush::new("mylist", vec![b"value1", b"value2"]);
    let frame = lpush.into_stream();
    assert_eq!(
        frame,
        Frame::Array(vec![
            bulk(b"LPUSH"),
            bulk(b"mylist"),
            bulk(b"value1"),
            bulk(b"value2"),
        ])
    );
}

#[test]
fn cmd_test_rpush() {
    let rpush = RPush::new("mylist", vec![b"value1", b"value2"]);
    let frame = rpush.into_stream();
    assert_eq!(
        frame,
        Frame::Array(vec![
            bulk(b"RPUSH"),
            bulk(b"mylist"),
            bulk(b"value1"),
            bulk(b"value2"),
        ])
    );
}

#[test]
fn cmd_test_lpop() {
    let lpop = LPop::new("mylist", Some(10));
    let frame = lpop.into_stream();
    assert_eq!(
        frame,
        Frame::Array(vec![bulk(b"LPOP"), bulk(b"mylist"), Frame::Integer(10)])
    );
}

#[test]
fn cmd_test_rpop() {
    let rpop = RPop::new("mylist", Some(10));
    let frame = rpop.into_stream();
    assert_eq!(
        frame,
        Frame::Array(vec![bulk(b"RPOP"), bulk(b"mylist"), Frame::Integer(10)])
    );
}

#[test]
fn cmd_test_lrange() {
    let lrange = LRange::new("mylist", 0, -1);
    let frame = lrange.into_stream();
    assert_eq!(
        frame,
        Frame::Array(vec![
            bulk(b"LRANGE"),
            bulk(b"mylist"),
            Frame::Integer(0),
            Frame::Integer(-1),
        ])
    );
}

#[test]
fn ping_test_ping() {
    let ping = Ping::new(None);
    let frame = ping.into_stream();
    assert_eq!(frame, Frame::Array(vec![bulk(b"PING")]));

    let ping = Ping::new(Some("hello".as_bytes()));
    let frame = ping.into_stream();
    assert_eq!(frame, Frame::Array(vec![bulk(b"PING"), bulk(b"hello")]));
}

#[test]
fn get_test_get() {
    let get = Get::new("mykey");
    let frame = get.into_stream();
    assert_eq!(frame, Frame::Array(vec![bulk(b"GET"), bulk(b"mykey")]));
}

#[test]
fn getex_test_get() {
    let getex = GetEx::new("mykey", None);
    let frame = getex.into_stream();
    assert_eq!(frame, Frame::Array(vec![bulk(b"GETEX"), bulk(b"mykey")]));
}

#[test]
fn getex_with_expiry_builds_keyword_and_count() {
    let getex = GetEx::new("mykey", Some(redis_async::Expiry::EX(1)));
    let frame = getex.into_stream();
    assert_eq!(
        frame,
        Frame::Array(vec![
            bulk(b"GETEX"),
            bulk(b"mykey"),
            bulk(b"EX"),
            Frame::Integer(1),
        ])
    );
}

#[test]
fn test_hello() {
    let hello = Hello::new(None);
    let frame = hello.into_stream();
    assert_eq!(frame, Frame::Array(vec![bulk(b"HELLO")]));

    let hello = Hello::new(Some(3));
    let frame = hello.into_stream();
    assert_eq!(frame, Frame::Array(vec![bulk(b"HELLO"), bulk(b"3")]));
}

#[test]
fn set_test_set() {
    let set = SetCmd::new("mykey", "myvalue".as_bytes());
    let frame = set.into_stream();
    assert_eq!(
        frame,
        Frame::Array(vec![bulk(b"SET"), bulk(b"mykey"), bulk(b"myvalue")])
    );
}

#[test]
fn del_test_del() {
    let del = Del::new(vec!["key1", "key2"]);
    let frame = del.into_stream();
    assert_eq!(
        frame,
        Frame::Array(vec![bulk(b"DEL"), bulk(b"key1"), bulk(b"key2")])
    );
}

#[test]
fn exists_test_exists() {
    let exists = Exists::new(vec!["key1", "key2"]);
    let frame = exists.into_stream();
    assert_eq!(
        frame,
        Frame::Array(vec![bulk(b"EXISTS"), bulk(b"key1"), bulk(b"key2")])
    );
}

#[test]
fn expire_test_expire() {
    let expire = Expire::new("mykey", 60);
    let frame = expire.into_stream();
    assert_eq!(
        frame,
        Frame::Array(vec![bulk(b"EXPIRE"), bulk(b"mykey"), bulk(b"60")])
    );
}

#[test]
fn ttl_test_ttl() {
    let ttl = Ttl::new("mykey");
    let frame = ttl.into_stream();
    assert_eq!(frame, Frame::Array(vec![bulk(b"TTL"), bulk(b"mykey")]));
}

#[test]
fn incr_test_incr() {
    let incr = Incr::new("mykey");
    let frame = incr.into_stream();
    assert_eq!(frame, Frame::Array(vec![bulk(b"INCR"), bulk(b"mykey")]));
}

#[test]
fn decr_test_decr() {
    let decr = Decr::new("mykey");
    let frame = decr.into_stream();
    assert_eq!(frame, Frame::Array(vec![bulk(b"DECR"), bulk(b"mykey")]));
}

#[test]
fn lpush_test_lpush() {
    let lpush = LPush::new("mylist", vec![b"value1", b"value2"]);
    let frame = lpush.into_stream();
    assert_eq!(
        frame,
        Frame::Array(vec![
            bulk(b"LPUSH"),
            bulk(b"mylist"),
            bulk(b"value1"),
            bulk(b"value2"),
        ])
    );
}

#[test]
fn rpush_test_rpush() {
    let rpush = RPush::new("mylist", vec!["value1".as_bytes(), "value2".as_bytes()]);
    let frame = rpush.into_stream();
    assert_eq!(
        frame,
        Frame::Array(vec![
            bulk(b"RPUSH"),
            bulk(b"mylist"),
            bulk(b"value1"),
            bulk(b"value2"),
        ])
    );
}

#[test]
fn lpop_test_lpop() {
    let lpop = LPop::new("mylist", None);
    let frame = lpop.into_stream();
    assert_eq!(frame, Frame::Array(vec![bulk(b"LPOP"), bulk(b"mylist")]));

    let lpop = LPop::new("mylist", Some(2));
    let frame = lpop.into_stream();
    assert_eq!(
        frame,
        Frame::Array(vec![bulk(b"LPOP"), bulk(b"mylist"), Frame::Integer(2)])
    );
}

#[test]
fn rpop_test_rpop() {
    let rpop = RPop::new("mylist", None);
    let frame = rpop.into_stream();
    assert_eq!(frame, Frame::Array(vec![bulk(b"RPOP"), bulk(b"mylist")]));

    let rpop = RPop::new("mylist", Some(2));
    let frame = rpop.into_stream();
    assert_eq!(
        frame,
        Frame::Array(vec![bulk(b"RPOP"), bulk(b"mylist"), Frame::Integer(2)])
    );
}

#[test]
fn lrange_test_lrange() {
    let lrange = LRange::new("mylist", 0, -1);
    let frame = lrange.into_stream();
    assert_eq!(
        frame,
        Frame::Array(vec![
            bulk(b"LRANGE"),
            bulk(b"mylist"),
            Frame::Integer(0),
            Frame::Integer(-1),
        ])
    );
}

//! Codec properties on concrete values: round-trips, prefix stability,
//! concatenation, consumed counts, the null sentinels, the double edge
//! cases, and the boundary behaviors.

use redis_async::{BigInt, DoubleValue, Frame, ParseOutcome, ReadBuffer, RedisError};

fn sample_frames() -> Vec<Frame> {
    vec![
        Frame::SimpleString(b"OK".to_vec()),
        Frame::SimpleError(b"ERR bad".to_vec()),
        Frame::Integer(0),
        Frame::Integer(i64::MIN),
        Frame::Integer(i64::MAX),
        Frame::BulkString(b"a\r\nbc".to_vec()),
        Frame::BulkString(Vec::new()),
        Frame::Null,
        Frame::Boolean(true),
        Frame::Boolean(false),
        Frame::Double(DoubleValue::Nan),
        Frame::Double(DoubleValue::Inf),
        Frame::Double(DoubleValue::NegInf),
        Frame::Double(DoubleValue::Finite(b"-12.5e-3".to_vec())),
        Frame::BigNumber(BigInt {
            negative: true,
            digits: b"340282366920938463463374607431768211456".to_vec(),
        }),
        Frame::BulkError(b"oops".to_vec()),
        Frame::VerbatimString(b"txt".to_vec(), b"Some string".to_vec()),
        Frame::Array(vec![
            Frame::Integer(7),
            Frame::Array(vec![Frame::Null, Frame::BulkString(b"x".to_vec())]),
        ]),
        Frame::MapFrame(vec![(
            Frame::SimpleString(b"key".to_vec()),
            Frame::Integer(42),
        )]),
        Frame::SetFrame(vec![Frame::BulkString(b"member".to_vec())]),
        Frame::Push(vec![
            Frame::BulkString(b"message".to_vec()),
            Frame::BulkString(b"chan".to_vec()),
        ]),
    ]
}

#[test]
fn round_trip_every_kind() {
    for frame in sample_frames() {
        let bytes = frame.serialize().expect("sample frames are well-formed");
        match Frame::try_parse(&bytes) {
            ParseOutcome::Complete { frame: parsed, consumed } => {
                assert_eq!(consumed, bytes.len());
                assert_eq!(parsed, frame);
            }
            other => panic!("expected a complete parse, got {:?}", other),
        }
    }
}

#[test]
fn prefix_of_every_kind_is_incomplete() {
    for frame in sample_frames() {
        let bytes = frame.serialize().expect("sample frames are well-formed");
        for k in 0..bytes.len() {
            match Frame::try_parse(&bytes[..k]) {
                ParseOutcome::Incomplete => {}
                other => panic!(
                    "prefix of length {} parsed as {:?} instead of incomplete",
                    k, other
                ),
            }
        }
    }
}

#[test]
fn concatenation_consumes_exactly_one_frame() {
    let first = Frame::Array(vec![
        Frame::BulkString(b"SET".to_vec()),
        Frame::BulkString(b"k".to_vec()),
    ]);
    let second = Frame::SimpleString(b"OK".to_vec());
    let b1 = first.serialize().unwrap();
    let b2 = second.serialize().unwrap();
    let mut joined = b1.clone();
    joined.extend_from_slice(&b2);

    match Frame::try_parse(&joined) {
        ParseOutcome::Complete { frame, consumed } => {
            assert_eq!(consumed, b1.len());
            assert_eq!(frame, first);
        }
        other => panic!("expected the first frame, got {:?}", other),
    }
    match Frame::try_parse(&joined[b1.len()..]) {
        ParseOutcome::Complete { frame, consumed } => {
            assert_eq!(consumed, b2.len());
            assert_eq!(frame, second);
        }
        other => panic!("expected the second frame, got {:?}", other),
    }
}

#[test]
fn consumed_count_equals_reserialized_length() {
    for frame in sample_frames() {
        let mut bytes = frame.serialize().expect("sample frames are well-formed");
        bytes.extend_from_slice(b"+trailing\r\n");
        match Frame::try_parse(&bytes) {
            ParseOutcome::Complete { frame: parsed, consumed } => {
                let again = parsed.serialize().expect("parsed frames are well-formed");
                assert_eq!(consumed, again.len());
            }
            other => panic!("expected a complete parse, got {:?}", other),
        }
    }
}

#[test]
fn null_compatibility() {
    assert_eq!(Frame::deserialize(&b"_\r\n".to_vec()).unwrap(), Frame::Null);
    assert_eq!(
        Frame::deserialize(&b"$-1\r\n".to_vec()).unwrap(),
        Frame::Null
    );
    assert_eq!(
        Frame::deserialize(&b"*-1\r\n".to_vec()).unwrap(),
        Frame::Null
    );
}

#[test]
fn double_edge_cases() {
    let nan = Frame::deserialize(&b",nan\r\n".to_vec()).unwrap();
    assert!(matches!(nan, Frame::Double(DoubleValue::Nan)));
    assert_eq!(
        Frame::deserialize(&b",inf\r\n".to_vec()).unwrap(),
        Frame::Double(DoubleValue::Inf)
    );
    assert_eq!(
        Frame::deserialize(&b",-inf\r\n".to_vec()).unwrap(),
        Frame::Double(DoubleValue::NegInf)
    );
    let finite = Frame::Double(DoubleValue::Finite(b"123.456".to_vec()));
    let bytes = finite.serialize().unwrap();
    assert_eq!(Frame::deserialize(&bytes).unwrap(), finite);
}

#[test]
fn empty_bulk_string_round_trips() {
    let frame = Frame::BulkString(Vec::new());
    let bytes = frame.serialize().unwrap();
    assert_eq!(bytes, b"$0\r\n\r\n".to_vec());
    assert_eq!(Frame::deserialize(&bytes).unwrap(), frame);
}

#[test]
fn empty_array_round_trips() {
    let frame = Frame::array();
    let bytes = frame.serialize().unwrap();
    assert_eq!(bytes, b"*0\r\n".to_vec());
    assert_eq!(Frame::deserialize(&bytes).unwrap(), frame);
}

#[test]
fn nested_array_parses() {
    let parsed = Frame::deserialize(&b"*1\r\n*2\r\n$5\r\nHello\r\n$5\r\nRedis\r\n".to_vec())
        .unwrap();
    let expected = Frame::Array(vec![Frame::Array(vec![
        Frame::BulkString(b"Hello".to_vec()),
        Frame::BulkString(b"Redis".to_vec()),
    ])]);
    assert_eq!(parsed, expected);
}

#[test]
fn bulk_payload_may_contain_crlf() {
    let parsed = Frame::deserialize(&b"$5\r\na\r\nbc\r\n".to_vec()).unwrap();
    assert_eq!(parsed, Frame::BulkString(b"a\r\nbc".to_vec()));
}

#[test]
fn large_bulk_string_round_trips() {
    // a payload well past ordinary line lengths, to exercise buffer growth
    let payload = vec![0xABu8; 8 * 1024 * 1024];
    let frame = Frame::BulkString(payload.clone());
    let bytes = frame.serialize().unwrap();
    assert_eq!(bytes.len(), payload.len() + 1 + 7 + 2 + 2);
    match Frame::try_parse(&bytes) {
        ParseOutcome::Complete { frame: parsed, consumed } => {
            assert_eq!(consumed, bytes.len());
            assert_eq!(parsed, frame);
        }
        other => panic!("expected a complete parse, got {:?}", other),
    }
}

#[test]
fn read_buffer_splits_frames_across_chunks() {
    let mut buf = ReadBuffer::new();
    assert!(buf.is_empty());
    buf.append(b"+PO");
    assert!(matches!(buf.try_next(), Ok(None)));
    buf.append(b"NG\r\n:42\r\n");
    match buf.try_next() {
        Ok(Some(frame)) => assert_eq!(frame, Frame::SimpleString(b"PONG".to_vec())),
        other => panic!("expected a frame, got {:?}", other),
    }
    match buf.try_next() {
        Ok(Some(frame)) => assert_eq!(frame, Frame::Integer(42)),
        other => panic!("expected a frame, got {:?}", other),
    }
    assert!(buf.is_empty());
    assert_eq!(buf.len(), 0);
}

#[test]
fn read_buffer_reports_invalid_bytes() {
    let mut buf = ReadBuffer::new();
    buf.append(b"?nonsense\r\n");
    assert!(matches!(
        buf.try_next(),
        Err(RedisError::InvalidFrame)
    ));
}

//! Serialization and parsing of every frame kind on concrete values.

use redis_async::{BigInt, DoubleValue, Frame, RedisError};

fn ser(f: &Frame) -> Vec<u8> {
    f.serialize().expect("serialization should succeed")
}

fn de(bytes: &[u8]) -> Frame {
    Frame::deserialize(&bytes.to_vec()).expect("parsing should succeed")
}

#[test]
fn test_serialize_simple_string() {
    let frame = Frame::SimpleString(b"OK".to_vec());
    assert_eq!(ser(&frame), b"+OK\r\n".to_vec());
}

#[test]
fn test_serialize_simple_error() {
    let frame = Frame::SimpleError(b"ERR".to_vec());
    assert_eq!(ser(&frame), b"-ERR\r\n".to_vec());
}

#[test]
fn test_serialize_integer() {
    assert_eq!(ser(&Frame::Integer(123)), b":123\r\n".to_vec());
    assert_eq!(ser(&Frame::Integer(-123)), b":-123\r\n".to_vec());
}

#[test]
fn test_serialize_bulk_string() {
    let frame = Frame::BulkString(b"Hello Redis".to_vec());
    assert_eq!(ser(&frame), b"$11\r\nHello Redis\r\n".to_vec());
    let empty = Frame::BulkString(Vec::new());
    assert_eq!(ser(&empty), b"$0\r\n\r\n".to_vec());
}

#[test]
fn test_serialize_array() {
    let mut frame = Frame::array();
    frame
        .push_frame_to_array(Frame::BulkString(b"Hello".to_vec()))
        .unwrap();
    frame
        .push_frame_to_array(Frame::BulkString(b"Redis".to_vec()))
        .unwrap();
    assert_eq!(ser(&frame), b"*2\r\n$5\r\nHello\r\n$5\r\nRedis\r\n".to_vec());

    let empty = Frame::array();
    assert_eq!(ser(&empty), b"*0\r\n".to_vec());

    let mut outer = Frame::array();
    let mut nested = Frame::array();
    nested
        .push_frame_to_array(Frame::BulkString(b"Hello".to_vec()))
        .unwrap();
    nested
        .push_frame_to_array(Frame::BulkString(b"Redis".to_vec()))
        .unwrap();
    outer.push_frame_to_array(nested).unwrap();
    assert_eq!(
        ser(&outer),
        b"*1\r\n*2\r\n$5\r\nHello\r\n$5\r\nRedis\r\n".to_vec()
    );
}

#[test]
fn test_serialize_null() {
    assert_eq!(ser(&Frame::Null), b"_\r\n".to_vec());
}

#[test]
fn test_serialize_boolean() {
    assert_eq!(ser(&Frame::Boolean(true)), b"#t\r\n".to_vec());
    assert_eq!(ser(&Frame::Boolean(false)), b"#f\r\n".to_vec());
}

#[test]
fn test_serialize_double() {
    let frame = Frame::Double(DoubleValue::Finite(b"123.456".to_vec()));
    assert_eq!(ser(&frame), b",123.456\r\n".to_vec());
    assert_eq!(ser(&Frame::Double(DoubleValue::Nan)), b",nan\r\n".to_vec());
    assert_eq!(ser(&Frame::Double(DoubleValue::Inf)), b",inf\r\n".to_vec());
    assert_eq!(
        ser(&Frame::Double(DoubleValue::NegInf)),
        b",-inf\r\n".to_vec()
    );
}

#[test]
fn test_serialize_bulk_error() {
    let frame = Frame::BulkError(b"Hello Redis".to_vec());
    assert_eq!(ser(&frame), b"!11\r\nHello Redis\r\n".to_vec());
    let empty = Frame::BulkError(Vec::new());
    assert_eq!(ser(&empty), b"!0\r\n\r\n".to_vec());
}

#[test]
fn test_serialize_verbatim_string() {
    let frame = Frame::VerbatimString(b"txt".to_vec(), b"Some string".to_vec());
    assert_eq!(ser(&frame), b"=15\r\ntxt:Some string\r\n".to_vec());
    let empty = Frame::VerbatimString(b"txt".to_vec(), Vec::new());
    assert_eq!(ser(&empty), b"=4\r\ntxt:\r\n".to_vec());
}

#[test]
fn test_serialize_map() {
    let mut frame = Frame::MapFrame(Vec::new());
    frame
        .push_frame_to_map(
            Frame::SimpleString(b"key".to_vec()),
            Frame::SimpleString(b"value".to_vec()),
        )
        .unwrap();
    assert_eq!(ser(&frame), b"%1\r\n+key\r\n+value\r\n".to_vec());
}

#[test]
fn test_serialize_set() {
    let mut frame = Frame::SetFrame(Vec::new());
    frame
        .push_frame_to_array(Frame::BulkString(b"Hello".to_vec()))
        .unwrap();
    frame
        .push_frame_to_array(Frame::BulkString(b"Redis".to_vec()))
        .unwrap();
    assert_eq!(ser(&frame), b"~2\r\n$5\r\nHello\r\n$5\r\nRedis\r\n".to_vec());
}

#[test]
fn test_serialize_big_number() {
    let frame = Frame::BigNumber(BigInt {
        negative: false,
        digits: b"3492890328409238509324850943850943825024385".to_vec(),
    });
    assert_eq!(
        ser(&frame),
        b"(3492890328409238509324850943850943825024385\r\n".to_vec()
    );
    let neg = Frame::BigNumber(BigInt {
        negative: true,
        digits: b"42".to_vec(),
    });
    assert_eq!(ser(&neg), b"(-42\r\n".to_vec());
}

#[test]
fn test_serialize_push() {
    let frame = Frame::Push(vec![
        Frame::BulkString(b"message".to_vec()),
        Frame::BulkString(b"chan".to_vec()),
    ]);
    assert_eq!(ser(&frame), b">2\r\n$7\r\nmessage\r\n$4\r\nchan\r\n".to_vec());
}

#[test]
fn test_serialize_rejects_crlf_in_simple_string() {
    let frame = Frame::SimpleString(b"bad\r\nvalue".to_vec());
    assert!(matches!(
        frame.serialize(),
        Err(RedisError::InvalidFrame)
    ));
}

#[test]
fn test_deserialize_simple_string() {
    assert_eq!(de(b"+OK\r\n"), Frame::SimpleString(b"OK".to_vec()));
}

#[test]
fn test_deserialize_simple_error() {
    assert_eq!(de(b"-ERR\r\n"), Frame::SimpleError(b"ERR".to_vec()));
}

#[test]
fn test_deserialize_integer() {
    assert_eq!(de(b":123\r\n"), Frame::Integer(123));
    assert_eq!(de(b":-123\r\n"), Frame::Integer(-123));
}

#[test]
fn test_deserialize_bulk_string() {
    assert_eq!(
        de(b"$11\r\nHello Redis\r\n"),
        Frame::BulkString(b"Hello Redis".to_vec())
    );
    assert_eq!(de(b"$0\r\n\r\n"), Frame::BulkString(Vec::new()));
}

#[test]
fn test_deserialize_array() {
    let expected = Frame::Array(vec![
        Frame::BulkString(b"Hello".to_vec()),
        Frame::BulkString(b"Redis".to_vec()),
    ]);
    assert_eq!(de(b"*2\r\n$5\r\nHello\r\n$5\r\nRedis\r\n"), expected);

    assert_eq!(de(b"*0\r\n"), Frame::array());

    let nested = Frame::Array(vec![Frame::Array(vec![
        Frame::BulkString(b"Hello".to_vec()),
        Frame::BulkString(b"Redis".to_vec()),
    ])]);
    assert_eq!(de(b"*1\r\n*2\r\n$5\r\nHello\r\n$5\r\nRedis\r\n"), nested);
}

#[test]
fn test_deserialize_null() {
    assert_eq!(de(b"_\r\n"), Frame::Null);
}

#[test]
fn test_deserialize_boolean() {
    assert_eq!(de(b"#t\r\n"), Frame::Boolean(true));
    assert_eq!(de(b"#f\r\n"), Frame::Boolean(false));
}

#[test]
fn test_deserialize_double() {
    assert_eq!(
        de(b",123.456\r\n"),
        Frame::Double(DoubleValue::Finite(b"123.456".to_vec()))
    );
    let nan = de(b",nan\r\n");
    assert!(matches!(nan, Frame::Double(DoubleValue::Nan)));
    assert_eq!(de(b",inf\r\n"), Frame::Double(DoubleValue::Inf));
    assert_eq!(de(b",-inf\r\n"), Frame::Double(DoubleValue::NegInf));
}

#[test]
fn test_deserialize_bulk_error() {
    assert_eq!(
        de(b"!11\r\nHello Redis\r\n"),
        Frame::BulkError(b"Hello Redis".to_vec())
    );
    assert_eq!(de(b"!0\r\n\r\n"), Frame::BulkError(Vec::new()));
}

#[test]
fn test_deserialize_verbatim_string() {
    assert_eq!(
        de(b"=15\r\ntxt:Some string\r\n"),
        Frame::VerbatimString(b"txt".to_vec(), b"Some string".to_vec())
    );
    assert_eq!(
        de(b"=4\r\ntxt:\r\n"),
        Frame::VerbatimString(b"txt".to_vec(), Vec::new())
    );
}

#[test]
fn test_deserialize_map() {
    let expected = Frame::MapFrame(vec![(
        Frame::SimpleString(b"key".to_vec()),
        Frame::SimpleString(b"value".to_vec()),
    )]);
    assert_eq!(de(b"%1\r\n+key\r\n+value\r\n"), expected);
}

#[test]
fn test_deserialize_set() {
    let expected = Frame::SetFrame(vec![
        Frame::BulkString(b"Hello".to_vec()),
        Frame::BulkString(b"Redis".to_vec()),
    ]);
    assert_eq!(de(b"~2\r\n$5\r\nHello\r\n$5\r\nRedis\r\n"), expected);
}

#[test]
fn test_deserialize_big_number() {
    let expected = Frame::BigNumber(BigInt {
        negative: true,
        digits: b"12345".to_vec(),
    });
    assert_eq!(de(b"(-12345\r\n"), expected);
}

#[test]
fn test_deserialize_rejects_unknown_marker() {
    assert!(matches!(
        Frame::deserialize(&b"?what\r\n".to_vec()),
        Err(RedisError::InvalidFrame)
    ));
}

#[test]
fn test_deserialize_rejects_integer_overflow() {
    assert!(matches!(
        Frame::deserialize(&b":92233720368547758080\r\n".to_vec()),
        Err(RedisError::InvalidFrame)
    ));
}

#[test]
fn test_deserialize_incomplete() {
    assert!(matches!(
        Frame::deserialize(&b"+OK".to_vec()),
        Err(RedisError::IncompleteFrame)
    ));
    assert!(matches!(
        Frame::deserialize(&b"$5\r\nab".to_vec()),
        Err(RedisError::IncompleteFrame)
    ));
}

#[test]
fn test_push_into_wrong_variant_is_unknown() {
    let mut frame = Frame::Integer(5);
    assert!(matches!(
        frame.push_frame_to_array(Frame::Null),
        Err(RedisError::Unknown)
    ));
    assert!(matches!(
        frame.push_frame_to_map(Frame::Null, Frame::Null),
        Err(RedisError::Unknown)
    ));
    // the frame is left unchanged
    assert_eq!(frame, Frame::Integer(5));
}

#[test]
fn test_serialize_rejects_bad_big_number() {
    let empty = Frame::BigNumber(BigInt {
        negative: false,
        digits: Vec::new(),
    });
    assert!(matches!(empty.serialize(), Err(RedisError::InvalidFrame)));
    let letters = Frame::BigNumber(BigInt {
        negative: false,
        digits: b"12a4".to_vec(),
    });
    assert!(matches!(letters.serialize(), Err(RedisError::InvalidFrame)));
}

#[test]
fn test_serialize_rejects_bad_verbatim_encoding() {
    let frame = Frame::VerbatimString(b"text".to_vec(), b"body".to_vec());
    assert!(matches!(frame.serialize(), Err(RedisError::InvalidFrame)));
}

#[test]
fn test_serialize_rejects_non_literal_double() {
    let frame = Frame::Double(DoubleValue::Finite(b"abc".to_vec()));
    assert!(matches!(frame.serialize(), Err(RedisError::InvalidFrame)));
}

#[test]
fn test_deserialize_rejects_bad_double_token() {
    assert!(matches!(
        Frame::deserialize(&b",abc\r\n".to_vec()),
        Err(RedisError::InvalidFrame)
    ));
    assert!(matches!(
        Frame::deserialize(&b",1..2\r\n".to_vec()),
        Err(RedisError::InvalidFrame)
    ));
}

#[test]
fn test_deserialize_accepts_exponent_doubles() {
    assert_eq!(
        Frame::deserialize(&b",+1.5e-10\r\n".to_vec()).unwrap(),
        Frame::Double(DoubleValue::Finite(b"+1.5e-10".to_vec()))
    );
    assert_eq!(
        Frame::deserialize(&b",3.\r\n".to_vec()).unwrap(),
        Frame::Double(DoubleValue::Finite(b"3.".to_vec()))
    );
}

#[test]
fn test_deserialize_rejects_bare_lf_in_simple_string() {
    assert!(matches!(
        Frame::deserialize(&b"+bad\nvalue\r\n".to_vec()),
        Err(RedisError::InvalidFrame)
    ));
}

#[test]
fn test_deserialize_rejects_boolean_with_other_byte() {
    assert!(matches!(
        Frame::deserialize(&b"#x\r\n".to_vec()),
        Err(RedisError::InvalidFrame)
    ));
}

#[test]
fn test_deserialize_rejects_bulk_without_terminator() {
    assert!(matches!(
        Frame::deserialize(&b"$3\r\nabcXY".to_vec()),
        Err(RedisError::InvalidFrame)
    ));
}

#[test]
fn test_error_describe_labels() {
    assert_eq!(RedisError::IncompleteFrame.describe(), "incomplete frame");
    assert_eq!(RedisError::InvalidFrame.describe(), "invalid frame");
    assert_eq!(RedisError::Unknown.describe(), "unknown error");
    assert_eq!(
        RedisError::Io("reset".to_string()).describe(),
        "error from io"
    );
    assert_eq!(
        RedisError::ServerError(b"ERR".to_vec()).describe(),
        "server error"
    );
    assert_eq!(
        RedisError::UnexpectedResponseType.describe(),
        "unexpected response type"
    );
    assert_eq!(RedisError::EncodingError.describe(), "encoding error");
}

use bytes::BytesMut;
use simple_redis::decode::{calc_total_length, parse_length};
use simple_redis::{
    BulkString, RespArray, RespDecode, RespEncode, RespError, RespFrame, SimpleError,
    SimpleString,
};

fn bulk(b: &[u8]) -> RespFrame {
    RespFrame::BulkString(BulkString::new(b.to_vec()))
}

#[test]
fn test_array_encode() {
    let frame = RespFrame::Array(RespArray::new(vec![bulk(b"get"), bulk(b"hello")]));
    assert_eq!(frame.encode(), b"*2\r\n$3\r\nget\r\n$5\r\nhello\r\n");
}

#[test]
fn test_array_decode() {
    let mut buf = BytesMut::new();
    buf.extend_from_slice(b"*2\r\n$3\r\nget\r\n$5\r\nhello\r\n");

    let frame = RespArray::decode(&mut buf).unwrap();
    assert_eq!(frame, RespArray::new(vec![bulk(b"get"), bulk(b"hello")]));

    buf.extend_from_slice(b"*2\r\n$3\r\nget\r\n");
    let ret = RespArray::decode(&mut buf);
    assert_eq!(ret.unwrap_err(), RespError::NotComplete);

    buf.extend_from_slice(b"$5\r\nhello\r\n");
    let frame = RespArray::decode(&mut buf).unwrap();
    assert_eq!(frame, RespArray::new(vec![bulk(b"get"), bulk(b"hello")]));
}

#[test]
fn test_null_array_encode() {
    let frame = RespFrame::Array(RespArray(None));
    assert_eq!(frame.encode(), b"*-1\r\n");
}

#[test]
fn test_null_array_decode() {
    let mut buf = BytesMut::new();
    buf.extend_from_slice(b"*-1\r\n");

    let frame = RespArray::decode(&mut buf).unwrap();
    assert_eq!(frame, RespArray(None));
}

#[test]
fn test_bulk_string_encode() {
    let frame = bulk(b"hello");
    assert_eq!(frame.encode(), b"$5\r\nhello\r\n");
}

#[test]
fn test_bulk_string_decode() {
    let mut buf = BytesMut::new();
    buf.extend_from_slice(b"$5\r\nhello\r\n");

    let frame = BulkString::decode(&mut buf).unwrap();
    assert_eq!(frame, BulkString::new(b"hello".to_vec()));

    buf.extend_from_slice(b"$5\r\nworld");

    let ret = BulkString::decode(&mut buf);
    assert_eq!(ret.unwrap_err(), RespError::NotComplete);

    buf.extend_from_slice(b"\r\n");

    let frame = BulkString::decode(&mut buf).unwrap();
    assert_eq!(frame, BulkString::new(b"world".to_vec()));
}

#[test]
fn test_null_bulk_string_encode() {
    let frame = RespFrame::BulkString(BulkString(None));
    assert_eq!(frame.encode(), b"$-1\r\n");
}

#[test]
fn test_null_bulk_string_decode() {
    let mut buf = BytesMut::new();
    buf.extend_from_slice(b"$-1\r\n");

    let frame = BulkString::decode(&mut buf).unwrap();
    assert_eq!(frame, BulkString(None));
}

#[test]
fn decode_test_simple_string_decode() {
    let mut buf = BytesMut::new();
    buf.extend_from_slice(b"+OK\r\n");

    let frame = SimpleString::decode(&mut buf).unwrap();
    assert_eq!(frame, SimpleString::new("OK".to_string()));

    buf.extend_from_slice(b"+hello\r");

    let frame = SimpleString::decode(&mut buf);
    assert_eq!(frame.unwrap_err(), RespError::NotComplete);

    buf.extend_from_slice(b"\n");
    let frame = SimpleString::decode(&mut buf).unwrap();
    assert_eq!(frame, SimpleString::new("hello".to_string()));
}

#[test]
fn encode_test_simple_string_encode() {
    let frame = RespFrame::SimpleString(SimpleString::new("OK".to_string()));
    assert_eq!(frame.encode(), b"+OK\r\n");
}

#[test]
fn simple_string_test_simple_string_encode() {
    let frame = RespFrame::SimpleString(SimpleString::new("OK".to_string()));
    assert_eq!(frame.encode(), b"+OK\r\n");
}

#[test]
fn simple_string_test_simple_string_decode() {
    let mut buf = BytesMut::new();
    buf.extend_from_slice(b"+OK\r\n");

    let frame = SimpleString::decode(&mut buf).unwrap();
    assert_eq!(frame, SimpleString::new("OK".to_string()));

    buf.extend_from_slice(b"+hello\r");

    let frame = SimpleString::decode(&mut buf);
    assert_eq!(frame.unwrap_err(), RespError::NotComplete);

    buf.extend_from_slice(&[b'\n']);
    let frame = SimpleString::decode(&mut buf).unwrap();
    assert_eq!(frame, SimpleString::new("hello".to_string()));
}

#[test]
fn test_integer_encode() {
    let frame = RespFrame::Integer(123);
    assert_eq!(frame.encode(), b":123\r\n");

    let frame = RespFrame::Integer(-123);
    assert_eq!(frame.encode(), b":-123\r\n");
}

#[test]
fn test_integer_decode() {
    let mut buf = BytesMut::new();
    buf.extend_from_slice(b":+123\r\n");

    let frame = i64::decode(&mut buf).unwrap();
    assert_eq!(frame, 123);

    buf.extend_from_slice(b":-123\r");

    let ret = i64::decode(&mut buf);
    assert_eq!(ret.unwrap_err(), RespError::NotComplete);

    buf.extend_from_slice(&[b'\n']);

    let frame = i64::decode(&mut buf).unwrap();
    assert_eq!(frame, -123);
}

#[test]
fn test_calc_array_length() {
    let buf: &[u8] = b"*2\r\n$3\r\nget\r\n$5\r\nhello\r\n";
    let (end, len) = parse_length(buf, 0, b'*').unwrap();
    assert_eq!((end, len), (2, 2));
    let total_len = calc_total_length(buf, 0, end, len).unwrap();
    assert_eq!(total_len, buf.len());

    let buf: &[u8] = b"*2\r\n$3\r\nget\r\r";
    let (end, len) = parse_length(buf, 0, b'*').unwrap();
    assert_eq!((end, len), (2, 2));
    let ret = calc_total_length(buf, 0, end, len);
    assert_eq!(ret.unwrap_err(), RespError::NotComplete);
}

#[test]
fn test_simple_error_encode() {
    let frame = RespFrame::SimpleError(SimpleError::new("Error message".to_string()));
    assert_eq!(frame.encode(), b"-Error message\r\n");
}

#[test]
fn test_simple_error_decode() {
    let mut buf = BytesMut::new();
    buf.extend_from_slice(b"-Error message\r");

    let ret = SimpleError::decode(&mut buf);
    assert_eq!(ret.unwrap_err(), RespError::NotComplete);

    buf.extend_from_slice(&[b'\n']);

    let frame = SimpleError::decode(&mut buf).unwrap();
    assert_eq!(frame, SimpleError::new("Error message".to_string()));
}

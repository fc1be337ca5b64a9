use bytes::BytesMut;
use simple_redis::decode::{calc_total_length, parse_length};
use simple_redis::reply::{hgetall_frame, smembers_frame};
use simple_redis::scan::find_crlf;
use simple_redis::{
    decode_frame, expect_length, Backend, BulkString, Command, CommandError, CommandExecutor,
    Echo, RespArray, RespDecode, RespEncode, RespError, RespFrame, RespMap, RespNull, RespSet,
    SimpleError, SimpleString,
};

fn bulk(b: &[u8]) -> RespFrame {
    RespFrame::BulkString(BulkString::new(b.to_vec()))
}

fn buffer(bytes: &[u8]) -> BytesMut {
    let mut buf = BytesMut::new();
    buf.extend_from_slice(bytes);
    buf
}

/// Decodes one command from the bytes, runs it and encodes the reply.
fn run(backend: &Backend, bytes: &[u8]) -> Vec<u8> {
    let mut buf = buffer(bytes);
    let frame = decode_frame(&mut buf).unwrap();
    assert!(buf.is_empty());
    let cmd = Command::try_from_frame(frame).unwrap();
    cmd.execute(backend).encode()
}

fn sample_frames() -> Vec<RespFrame> {
    vec![
        RespFrame::SimpleString(SimpleString::new("OK".to_string())),
        RespFrame::SimpleString(SimpleString::new(String::new())),
        RespFrame::SimpleError(SimpleError::new("ERR wrong".to_string())),
        RespFrame::Integer(0),
        RespFrame::Integer(i64::MIN),
        RespFrame::Integer(i64::MAX),
        bulk(b""),
        bulk(b"a\r\nb"),
        RespFrame::BulkString(BulkString(None)),
        RespFrame::Array(RespArray(None)),
        RespFrame::Array(RespArray::new(vec![])),
        RespFrame::Null(RespNull),
        RespFrame::Boolean(true),
        RespFrame::Boolean(false),
        RespFrame::Array(RespArray::new(vec![
            bulk(b"set"),
            RespFrame::Array(RespArray::new(vec![RespFrame::Integer(-7), RespFrame::Null(RespNull)])),
            RespFrame::BulkString(BulkString(None)),
            RespFrame::SimpleString(SimpleString::new("h\u{e9}llo".to_string())),
        ])),
        RespFrame::RespMap(RespMap(vec![])),
        RespFrame::RespMap(RespMap(vec![
            (bulk(b"k"), RespFrame::Integer(1)),
            (RespFrame::SimpleString(SimpleString::new("s".to_string())), RespFrame::RespSet(RespSet(vec![]))),
        ])),
        RespFrame::RespSet(RespSet(vec![bulk(b"a"), RespFrame::Boolean(false)])),
    ]
}

#[test]
fn scenario_get_on_empty_backend_is_null() {
    let backend = Backend::new();
    assert_eq!(run(&backend, b"*2\r\n$3\r\nget\r\n$5\r\nhello\r\n"), b"_\r\n");
}

#[test]
fn scenario_set_then_get() {
    let backend = Backend::new();
    assert_eq!(run(&backend, b"*3\r\n$3\r\nset\r\n$5\r\nhello\r\n$5\r\nworld\r\n"), b"+OK\r\n");
    assert_eq!(run(&backend, b"*2\r\n$3\r\nget\r\n$5\r\nhello\r\n"), b"$5\r\nworld\r\n");
}

#[test]
fn scenario_hset_twice_then_sorted_hgetall() {
    let backend = Backend::new();
    assert_eq!(
        run(&backend, b"*4\r\n$4\r\nhset\r\n$3\r\nmap\r\n$5\r\nhello\r\n$5\r\nworld\r\n"),
        b"+OK\r\n"
    );
    assert_eq!(
        run(&backend, b"*4\r\n$4\r\nhset\r\n$3\r\nmap\r\n$6\r\nhello1\r\n$6\r\nworld1\r\n"),
        b"+OK\r\n"
    );
    let cmd = simple_redis::HGetAll { key: "map".to_string(), sort: true };
    assert_eq!(
        cmd.execute(&backend).encode(),
        b"*4\r\n$5\r\nhello\r\n$5\r\nworld\r\n$6\r\nhello1\r\n$6\r\nworld1\r\n"
    );
    // HMGET on the same hash: the stored value, then the null frame.
    assert_eq!(
        run(&backend, b"*4\r\n$5\r\nhmget\r\n$3\r\nmap\r\n$5\r\nhello\r\n$7\r\nmissing\r\n"),
        b"*2\r\n$5\r\nworld\r\n_\r\n"
    );
}

#[test]
fn scenario_sadd_and_sismember() {
    let backend = Backend::new();
    assert_eq!(run(&backend, b"*4\r\n$4\r\nSADD\r\n$5\r\nmyset\r\n$5\r\nhello\r\n$5\r\nworld\r\n"), b":2\r\n");
    assert_eq!(run(&backend, b"*3\r\n$4\r\nsadd\r\n$5\r\nmyset\r\n$5\r\nworld\r\n"), b":0\r\n");
    assert_eq!(run(&backend, b"*3\r\n$9\r\nsismember\r\n$5\r\nmyset\r\n$5\r\nhello\r\n"), b":1\r\n");
    assert_eq!(run(&backend, b"*3\r\n$9\r\nsismember\r\n$5\r\nmyset\r\n$4\r\nnope\r\n"), b":0\r\n");
    assert_eq!(
        run(&backend, b"*2\r\n$8\r\nsmembers\r\n$5\r\nmyset\r\n"),
        b"*2\r\n$5\r\nhello\r\n$5\r\nworld\r\n"
    );
}

#[test]
fn scenario_split_command_decodes_like_whole() {
    let mut buf = buffer(b"*2\r\n$3\r\nget\r\n");
    assert_eq!(RespFrame::decode(&mut buf).unwrap_err(), RespError::NotComplete);
    assert_eq!(&buf[..], b"*2\r\n$3\r\nget\r\n");
    buf.extend_from_slice(b"$5\r\nhello\r\n");
    let split = RespFrame::decode(&mut buf).unwrap();
    assert!(buf.is_empty());

    let mut whole = buffer(b"*2\r\n$3\r\nget\r\n$5\r\nhello\r\n");
    let frame = RespFrame::decode(&mut whole).unwrap();
    assert_eq!(split, frame);
    let backend = Backend::new();
    let a = Command::try_from_frame(split).unwrap().execute(&backend);
    let b = Command::try_from_frame(frame).unwrap().execute(&backend);
    assert_eq!(a, b);
    assert_eq!(a, RespFrame::Null(RespNull));
}

#[test]
fn round_trip_of_sample_frames() {
    for f in sample_frames() {
        let bytes = f.clone().encode();
        let mut buf = buffer(&bytes);
        buf.extend_from_slice(b"+next\r\n");
        let back = RespFrame::decode(&mut buf).unwrap();
        assert_eq!(back, f);
        assert_eq!(&buf[..], b"+next\r\n");
    }
}

#[test]
fn every_split_is_incomplete_until_the_rest_arrives() {
    for f in sample_frames() {
        let bytes = f.clone().encode();
        for k in 0..bytes.len() {
            let mut buf = buffer(&bytes[..k]);
            assert_eq!(RespFrame::decode(&mut buf).unwrap_err(), RespError::NotComplete);
            assert_eq!(&buf[..], &bytes[..k]);
            buf.extend_from_slice(&bytes[k..]);
            assert_eq!(RespFrame::decode(&mut buf).unwrap(), f);
            assert!(buf.is_empty());
        }
    }
}

#[test]
fn expect_length_is_the_encoded_length() {
    for f in sample_frames() {
        let bytes = f.encode();
        assert_eq!(expect_length(&bytes).unwrap(), bytes.len());
    }
    assert_eq!(expect_length(b"$5\r\nhel").unwrap(), 11);
    assert_eq!(expect_length(b"*2\r\n$5\r\nhel").unwrap_err(), RespError::NotComplete);
    assert_eq!(expect_length(b"").unwrap_err(), RespError::NotComplete);
}

#[test]
fn nulls_stay_distinct_from_empty_values() {
    assert_eq!(RespFrame::BulkString(BulkString(None)).encode(), b"$-1\r\n");
    assert_eq!(bulk(b"").encode(), b"$0\r\n\r\n");
    assert_eq!(RespFrame::Array(RespArray(None)).encode(), b"*-1\r\n");
    assert_eq!(RespFrame::Array(RespArray::new(vec![])).encode(), b"*0\r\n");
    let mut buf = buffer(b"$-1\r\n$0\r\n\r\n*-1\r\n*0\r\n");
    assert_eq!(BulkString::decode(&mut buf).unwrap(), BulkString(None));
    assert_eq!(BulkString::decode(&mut buf).unwrap(), BulkString::new(vec![]));
    assert_eq!(RespArray::decode(&mut buf).unwrap(), RespArray(None));
    assert_eq!(RespArray::decode(&mut buf).unwrap(), RespArray::new(vec![]));
}

#[test]
fn command_names_ignore_case() {
    let gets: [&[u8]; 3] = [
        b"*2\r\n$3\r\nGET\r\n$1\r\nk\r\n",
        b"*2\r\n$3\r\nget\r\n$1\r\nk\r\n",
        b"*2\r\n$3\r\nGet\r\n$1\r\nk\r\n",
    ];
    for g in gets {
        let mut buf = buffer(g);
        let a = RespArray::decode(&mut buf).unwrap();
        match Command::try_from(a).unwrap() {
            Command::Get(c) => assert_eq!(c.key, "k"),
            other => panic!("not a GET: {:?}", other),
        }
    }
    let mut buf = buffer(b"*2\r\n$4\r\nEcHo\r\n$2\r\nhi\r\n");
    let a = RespArray::decode(&mut buf).unwrap();
    match Command::try_from(a).unwrap() {
        Command::Echo(Echo { value }) => assert_eq!(value, "hi"),
        other => panic!("not an ECHO: {:?}", other),
    }
    let backend = Backend::new();
    assert_eq!(run(&backend, b"*2\r\n$4\r\nEcHo\r\n$2\r\nhi\r\n"), b"$2\r\nhi\r\n");
}

#[test]
fn unknown_commands_reply_ok() {
    let backend = Backend::new();
    assert_eq!(run(&backend, b"*1\r\n$4\r\nping\r\n"), b"+OK\r\n");
}

#[test]
fn decode_errors() {
    let mut buf = buffer(b"!oops\r\n");
    assert!(matches!(RespFrame::decode(&mut buf), Err(RespError::InvalidFrameType(_))));
    assert_eq!(&buf[..], b"!oops\r\n");
    let mut buf = buffer(b":12a\r\n");
    assert!(matches!(RespFrame::decode(&mut buf), Err(RespError::ParseIntError(_))));
    let mut buf = buffer(b":9223372036854775808\r\n");
    assert!(matches!(i64::decode(&mut buf), Err(RespError::ParseIntError(_))));
    let mut buf = buffer(b"$-2\r\n");
    assert_eq!(BulkString::decode(&mut buf).unwrap_err(), RespError::InvalidFrameLength(-2));
    let mut buf = buffer(b"*-3\r\n");
    assert_eq!(RespArray::decode(&mut buf).unwrap_err(), RespError::InvalidFrameLength(-3));
    let mut buf = buffer(b"$x\r\n");
    assert!(matches!(BulkString::decode(&mut buf), Err(RespError::ParseIntError(_))));
    let mut buf = buffer(b"+OK\r\n");
    assert!(matches!(BulkString::decode(&mut buf), Err(RespError::InvalidFrameType(_))));
    let mut buf = buffer(b"#x\r\n");
    assert!(matches!(bool::decode(&mut buf), Err(RespError::InvalidFrameType(_))));
    let mut buf = buffer(b"");
    assert_eq!(RespFrame::decode(&mut buf).unwrap_err(), RespError::NotComplete);
}

#[test]
fn command_errors() {
    let parse = |bytes: &[u8]| {
        let mut buf = buffer(bytes);
        Command::try_from_frame(RespFrame::decode(&mut buf).unwrap())
    };
    assert!(matches!(parse(b"+get\r\n"), Err(CommandError::InvalidCommand(_))));
    assert!(matches!(parse(b"*1\r\n:1\r\n"), Err(CommandError::InvalidCommand(_))));
    assert!(matches!(parse(b"*0\r\n"), Err(CommandError::InvalidCommand(_))));
    assert!(matches!(parse(b"*1\r\n$3\r\nget\r\n"), Err(CommandError::InvalidArgument(_))));
    assert!(matches!(
        parse(b"*3\r\n$3\r\nget\r\n$1\r\na\r\n$1\r\nb\r\n"),
        Err(CommandError::InvalidArgument(_))
    ));
    assert!(matches!(parse(b"*2\r\n$3\r\nget\r\n:1\r\n"), Err(CommandError::InvalidArgument(_))));
    assert!(matches!(parse(b"*2\r\n$3\r\nget\r\n$-1\r\n"), Err(CommandError::InvalidArgument(_))));
    assert!(matches!(parse(b"*2\r\n$3\r\nget\r\n$1\r\n\xff\r\n"), Err(CommandError::Utf8Error(_))));
    assert!(matches!(
        parse(b"*3\r\n$4\r\nsadd\r\n$1\r\nk\r\n:1\r\n"),
        Err(CommandError::InvalidArgument(_))
    ));
}

#[test]
fn text_is_decoded_from_utf8() {
    let mut buf = buffer("+h\u{e9}llo\r\n".as_bytes());
    assert_eq!(SimpleString::decode(&mut buf).unwrap(), SimpleString::new("h\u{e9}llo".to_string()));
    let mut buf = buffer(b"+a\xffb\r\n");
    assert_eq!(SimpleString::decode(&mut buf).unwrap(), SimpleString::new("a\u{fffd}b".to_string()));
    let mut buf = buffer("*2\r\n$3\r\nget\r\n$6\r\nh\u{e9}llo\r\n".as_bytes());
    match Command::try_from_frame(RespFrame::decode(&mut buf).unwrap()).unwrap() {
        Command::Get(c) => assert_eq!(c.key, "h\u{e9}llo"),
        other => panic!("not a GET: {:?}", other),
    }
}

#[test]
fn set_stores_any_frame_and_keys_are_separate_by_kind() {
    let backend = Backend::new();
    assert_eq!(run(&backend, b"*3\r\n$3\r\nset\r\n$1\r\nk\r\n:42\r\n"), b"+OK\r\n");
    assert_eq!(run(&backend, b"*2\r\n$3\r\nget\r\n$1\r\nk\r\n"), b":42\r\n");
    assert_eq!(run(&backend, b"*3\r\n$4\r\nhget\r\n$1\r\nk\r\n$1\r\nf\r\n"), b"_\r\n");
    assert_eq!(run(&backend, b"*2\r\n$7\r\nhgetall\r\n$1\r\nk\r\n"), b"*0\r\n");
    assert_eq!(run(&backend, b"*2\r\n$8\r\nsmembers\r\n$1\r\nk\r\n"), b"*0\r\n");
}

#[test]
fn map_and_set_wire_forms() {
    let m = RespFrame::RespMap(RespMap(vec![(bulk(b"k"), RespFrame::Integer(1))]));
    assert_eq!(m.encode(), b"%1\r\n$1\r\nk\r\n:1\r\n");
    let st = RespFrame::RespSet(RespSet(vec![bulk(b"a"), RespFrame::Null(RespNull)]));
    assert_eq!(st.encode(), b"~2\r\n$1\r\na\r\n_\r\n");
    assert_eq!(expect_length(b"%1\r\n$1\r\nk\r\n:1\r\n").unwrap(), 15);
    assert_eq!(expect_length(b"%1\r\n$1\r\nk\r\n").unwrap_err(), RespError::NotComplete);
    let mut buf = buffer(b"%1\r\n$1\r\nk\r\n:1\r\n~2\r\n$1\r\na\r\n_\r\n");
    assert_eq!(RespMap::decode(&mut buf).unwrap(), RespMap(vec![(bulk(b"k"), RespFrame::Integer(1))]));
    assert_eq!(RespSet::decode(&mut buf).unwrap(), RespSet(vec![bulk(b"a"), RespFrame::Null(RespNull)]));
    assert!(buf.is_empty());
}

#[test]
fn nth_crlf_search() {
    let buf: &[u8] = b"*2\r\n$3\r\nget\r\n$5\r\nhello\r\n";
    assert_eq!(find_crlf(buf, 1), Some(2));
    assert_eq!(find_crlf(buf, 2), Some(6));
    assert_eq!(find_crlf(buf, 3), Some(11));
    assert_eq!(find_crlf(buf, 5), Some(22));
    assert_eq!(find_crlf(buf, 6), None);
    assert_eq!(find_crlf(b"\r\n\r\n", 1), Some(2));
    assert_eq!(find_crlf(b"", 1), None);
}

#[test]
fn total_length_of_bulk_and_aggregates() {
    let buf: &[u8] = b"$5\r\nhello\r\n";
    let (end, len) = parse_length(buf, 0, b'$').unwrap();
    assert_eq!(calc_total_length(buf, 0, end, len).unwrap(), 7);
    let buf: &[u8] = b"%1\r\n+a\r\n:1\r\n~1\r\n";
    let (end, len) = parse_length(buf, 0, b'%').unwrap();
    assert_eq!(calc_total_length(buf, 0, end, len).unwrap(), 12);
    let (end, len) = parse_length(buf, 12, b'~').unwrap();
    assert_eq!(calc_total_length(buf, 12, end, len).unwrap_err(), RespError::NotComplete);
}

#[test]
fn negative_length_is_reported_with_its_value() {
    assert_eq!(parse_length(b"$-2\r\n", 0, b'$').unwrap_err(), RespError::InvalidFrameLength(-2));
    assert_eq!(parse_length(b"*-1\r\n", 0, b'*').unwrap_err(), RespError::InvalidFrameLength(-1));
}

#[test]
fn hgetall_without_sort_keeps_store_order_and_missing_hash_is_empty() {
    let entries = vec![("b".to_string(), RespFrame::Integer(2)), ("a".to_string(), RespFrame::Integer(1))];
    let copy = vec![("b".to_string(), RespFrame::Integer(2)), ("a".to_string(), RespFrame::Integer(1))];
    assert_eq!(hgetall_frame(Some(entries), false).encode(), b"*4\r\n$1\r\nb\r\n:2\r\n$1\r\na\r\n:1\r\n");
    assert_eq!(hgetall_frame(Some(copy), true).encode(), b"*4\r\n$1\r\na\r\n:1\r\n$1\r\nb\r\n:2\r\n");
    assert_eq!(hgetall_frame(None, true).encode(), b"*0\r\n");
    let backend = Backend::new();
    let cmd = simple_redis::HGetAll { key: "none".to_string(), sort: false };
    assert_eq!(cmd.execute(&backend).encode(), b"*0\r\n");
}

#[test]
fn smembers_frame_sorts() {
    let m = vec!["world".to_string(), "hello".to_string(), "abc".to_string()];
    assert_eq!(
        smembers_frame(Some(m)).encode(),
        b"*3\r\n$3\r\nabc\r\n$5\r\nhello\r\n$5\r\nworld\r\n"
    );
    assert_eq!(smembers_frame(None).encode(), b"*0\r\n");
}

use bytes::BytesMut;
use simple_redis::{
    Backend, BulkString, Command, CommandExecutor, Echo, Get, HGet, HGetAll, HMGet, HSet,
    RespArray, RespDecode, RespFrame, RespNull, SAdd, SIsMember, SMembers, SetCmd, SimpleString,
};

fn array_of(bytes: &[u8]) -> RespArray {
    let mut buf = BytesMut::new();
    buf.extend_from_slice(bytes);
    RespArray::decode(&mut buf).unwrap()
}

fn bulk(b: &[u8]) -> RespFrame {
    RespFrame::BulkString(BulkString::new(b.to_vec()))
}

fn resp_ok() -> RespFrame {
    RespFrame::SimpleString(SimpleString::new("OK".to_string()))
}

fn resp_null() -> RespFrame {
    RespFrame::Null(RespNull)
}

#[test]
fn test_echo_from_resp_array() {
    let frame = array_of(b"*2\r\n$4\r\necho\r\n$5\r\nhello\r\n");
    let ret = Echo::try_from(frame).unwrap();
    assert_eq!(ret.value, "hello");
}

#[test]
fn test_get_from_resp_array() {
    let frame = array_of(b"*2\r\n$3\r\nget\r\n$5\r\nhello\r\n");
    let ret = Get::try_from(frame).unwrap();
    assert_eq!(ret.key, "hello");
}

#[test]
fn hget_test_hget_from_resp_array() {
    let frame = array_of(b"*3\r\n$4\r\nhget\r\n$3\r\nmap\r\n$5\r\nhello\r\n");
    let ret = HGet::try_from(frame).unwrap();
    assert_eq!(ret.key, "map");
    assert_eq!(ret.field, "hello");
}

#[test]
fn hmap_test_hget_from_resp_array() {
    let frame = array_of(b"*3\r\n$4\r\nhget\r\n$3\r\nmap\r\n$5\r\nhello\r\n");
    let ret = HGet::try_from(frame).unwrap();
    assert_eq!(ret.key, "map");
    assert_eq!(ret.field, "hello");
}

#[test]
fn hgetall_test_hgetall_from_resp_array() {
    let frame = array_of(b"*2\r\n$7\r\nhgetall\r\n$3\r\nmap\r\n");
    let ret = HGetAll::try_from(frame).unwrap();
    assert_eq!(ret.key, "map");
    assert!(!ret.sort);
}

#[test]
fn hmap_test_hgetall_from_resp_array() {
    let frame = array_of(b"*2\r\n$7\r\nhgetall\r\n$3\r\nmap\r\n");
    let ret = HGetAll::try_from(frame).unwrap();
    assert_eq!(ret.key, "map");
    assert!(!ret.sort);
}

#[test]
fn hset_test_hset_from_resp_array() {
    let frame = array_of(b"*4\r\n$4\r\nhset\r\n$3\r\nmap\r\n$5\r\nhello\r\n$5\r\nworld\r\n");
    let ret = HSet::try_from(frame).unwrap();
    assert_eq!(ret.key, "map");
    assert_eq!(ret.field, "hello");
    assert_eq!(ret.value, bulk(b"world"));
}

#[test]
fn hmap_test_hset_from_resp_array() {
    let frame = array_of(b"*4\r\n$4\r\nhset\r\n$3\r\nmap\r\n$5\r\nhello\r\n$5\r\nworld\r\n");
    let ret = HSet::try_from(frame).unwrap();
    assert_eq!(ret.key, "map");
    assert_eq!(ret.field, "hello");
    assert_eq!(ret.value, bulk(b"world"));
}

fn hset_hget_hgetall() {
    let backend = Backend::new();
    let cmd = HSet { key: "map".to_string(), field: "hello".to_string(), value: bulk(b"world") };
    let ret = cmd.execute(&backend);

    assert_eq!(ret, resp_ok());

    let cmd = HSet { key: "map".to_string(), field: "hello1".to_string(), value: bulk(b"world1") };
    cmd.execute(&backend);

    let cmd = HGet { key: "map".to_string(), field: "hello".to_string() };
    let ret = cmd.execute(&backend);

    assert_eq!(ret, bulk(b"world"));

    let cmd = HGetAll { key: "map".to_string(), sort: true };
    let ret = cmd.execute(&backend);

    assert_eq!(
        ret,
        RespFrame::Array(RespArray::new(vec![
            bulk(b"hello"),
            bulk(b"world"),
            bulk(b"hello1"),
            bulk(b"world1"),
        ]))
    );
}

#[test]
fn hgetall_test_hset_hget_hgetall_commands() {
    hset_hget_hgetall();
}

#[test]
fn hmap_test_hset_hget_hgetall_commands() {
    hset_hget_hgetall();
}

#[test]
fn test_hmget_from_resp_array() {
    let frame = array_of(b"*4\r\n$5\r\nHMGET\r\n$5\r\nmykey\r\n$6\r\nfield1\r\n$6\r\nfield2\r\n");
    let ret = HMGet::try_from(frame).unwrap();
    assert_eq!(ret.key, "mykey");
}

#[test]
fn test_hset_hmget_from_resp_array() {
    let backend = Backend::new();
    let cmd = HSet { key: "map".to_string(), field: "hello".to_string(), value: bulk(b"world") };
    let ret = cmd.execute(&backend);

    assert_eq!(ret, resp_ok());

    let cmd = HMGet { key: "map".to_string(), fields: vec!["hello".to_string(), "field".to_string()] };
    let ret = cmd.execute(&backend);
    assert_eq!(ret, RespFrame::Array(RespArray::new(vec![bulk(b"world"), resp_null()])));
}

#[test]
fn test_command() {
    let frame = array_of(b"*2\r\n$3\r\nget\r\n$5\r\nhello\r\n");
    let cmd = Command::try_from(frame).unwrap();
    let backend = Backend::new();
    let ret = cmd.execute(&backend);

    assert_eq!(ret, resp_null());
}

#[test]
fn test_sadd_from_resp_array() {
    let frame = array_of(b"*3\r\n$4\r\nsadd\r\n$5\r\nmykey\r\n$7\r\nmyvalue\r\n");
    let cmd = SAdd::try_from(frame).unwrap();

    assert_eq!(cmd.key, "mykey");
    assert_eq!(cmd.members, vec!["myvalue".to_string()]);
}

#[test]
fn test_sadd_execute() {
    let backend = Backend::new();
    let cmd = SAdd { key: "mykey".to_string(), members: vec!["hello".to_string(), "world".to_string()] };
    let ret = cmd.execute(&backend);

    assert_eq!(ret, RespFrame::Integer(2));

    let cmd = SAdd { key: "mykey".to_string(), members: vec!["world".to_string()] };
    let ret = cmd.execute(&backend);

    assert_eq!(ret, RespFrame::Integer(0));
}

#[test]
fn test_set_from_resp_array() {
    let frame = array_of(b"*3\r\n$3\r\nset\r\n$5\r\nhello\r\n$5\r\nworld\r\n");
    let ret = SetCmd::try_from(frame).unwrap();

    assert_eq!(ret.key, "hello");
    assert_eq!(ret.value, bulk(b"world"));
}

#[test]
fn test_set_get_command() {
    let backend = Backend::new();
    let cmd = SetCmd { key: "hello".to_string(), value: bulk(b"world") };
    let ret = cmd.execute(&backend);

    assert_eq!(ret, resp_ok());

    let cmd = Get { key: "hello".to_string() };
    let ret = cmd.execute(&backend);

    assert_eq!(ret, bulk(b"world"));
}

#[test]
fn test_sismember_from_resp_array() {
    let frame = array_of(b"*3\r\n$9\r\nsismember\r\n$5\r\nmykey\r\n$5\r\nmyval\r\n");
    let ret = SIsMember::try_from(frame).unwrap();

    assert_eq!(ret.key, "mykey");
    assert_eq!(ret.member, "myval");
}

#[test]
fn test_sismember_execute() {
    let backend = Backend::new();
    let cmd = SAdd { key: "mykey".to_string(), members: vec!["hello".to_string()] };
    let ret = cmd.execute(&backend);

    assert_eq!(ret, RespFrame::Integer(1));

    let cmd = SIsMember { key: "mykey".to_string(), member: "hello".to_string() };
    let ret = cmd.execute(&backend);

    assert_eq!(ret, RespFrame::Integer(1));

    let cmd = SIsMember { key: "mykey".to_string(), member: "world".to_string() };
    let ret = cmd.execute(&backend);

    assert_eq!(ret, RespFrame::Integer(0));
}

#[test]
fn test_smembers_from_resp_array() {
    let frame = array_of(b"*2\r\n$8\r\nSMEMBERS\r\n$5\r\nhello\r\n");
    let cmd = SMembers::try_from(frame).unwrap();
    assert_eq!(cmd.key, "hello");
}

#[test]
fn test_smembers_execute() {
    let backend = Backend::new();
    let cmd = SAdd { key: "mykey".to_string(), members: vec!["hello".to_string(), "world".to_string()] };
    let ret = cmd.execute(&backend);

    assert_eq!(ret, RespFrame::Integer(2));

    let cmd = SMembers { key: "mykey".to_string() };
    let ret = cmd.execute(&backend);

    assert_eq!(ret, RespFrame::Array(RespArray::new(vec![bulk(b"hello"), bulk(b"world")])));
}

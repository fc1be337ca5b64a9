//! The core of a RESP key/value service: an incremental codec for RESP frames, and the commands
//! that read themselves from array frames and run against a shared in-memory store.
pub mod backend;
pub mod buffer;
pub mod cmd;
pub mod command;
pub mod decode;
pub mod encode;
pub mod error;
pub mod exec;
pub mod frame;
pub mod laws;
pub mod parse;
pub mod reply;
pub mod scan;
pub mod wire;

pub use backend::{Backend, BackendInner};
pub use buffer::{decode_frame, expect_length, RespDecode};
pub use cmd::{
    Command, Echo, Get, HGet, HGetAll, HMGet, HSet, SAdd, SIsMember, SMembers, SetCmd,
    Unrecognized,
};
pub use command::CommandError;
pub use encode::RespEncode;
pub use error::RespError;
pub use exec::CommandExecutor;
pub use frame::{
    BulkString, Frame, RespArray, RespFrame, RespMap, RespNull, RespSet, SimpleError, SimpleString,
};

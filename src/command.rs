//! The model of commands: how an array of frames names a command, and the errors it can fail with.
use vstd::prelude::*;
use vstd::utf8::{decode_utf8, valid_utf8};

use crate::error::RespError;
use crate::frame::Frame;

verus! {

/// What a command parse can fail with, as a model.
#[derive(PartialEq, Eq, Structural, Clone, Copy, Debug)]
pub enum CommandFault {
    InvalidCommand,
    InvalidArgument,
    Utf8,
}

/// Why an array could not be read as a command.
#[derive(Debug)]
pub enum CommandError {
    InvalidCommand(String),
    InvalidArgument(String),
    RespError(RespError),
    Utf8Error(String),
}

impl CommandError {
    pub open spec fn fault(self) -> Option<CommandFault> {
        match self {
            CommandError::InvalidCommand(_) => Some(CommandFault::InvalidCommand),
            CommandError::InvalidArgument(_) => Some(CommandFault::InvalidArgument),
            CommandError::Utf8Error(_) => Some(CommandFault::Utf8),
            CommandError::RespError(_) => None,
        }
    }

    /// The error of the given kind, with a short message.
    pub fn of_fault(k: CommandFault) -> (r: CommandError)
        ensures
            r.fault() == Some(k),
    {
        match k {
            CommandFault::InvalidCommand => CommandError::InvalidCommand("unknown command form".to_string()),
            CommandFault::InvalidArgument => CommandError::InvalidArgument("wrong arguments".to_string()),
            CommandFault::Utf8 => CommandError::Utf8Error("argument is not UTF-8".to_string()),
        }
    }
}

/// `r` fails exactly as `s` says it fails.
pub open spec fn rejects<T>(r: Result<T, CommandError>, s: CommandFault) -> bool {
    r is Err && r->Err_0.fault() == Some(s)
}

/// A command, as a model.
pub enum Cmd {
    Echo(Seq<char>),
    Get(Seq<char>),
    SetCmd(Seq<char>, Frame),
    HGet(Seq<char>, Seq<char>),
    HSet(Seq<char>, Seq<char>, Frame),
    HGetAll(Seq<char>, bool),
    HMGet(Seq<char>, Seq<Seq<char>>),
    SAdd(Seq<char>, Seq<Seq<char>>),
    SMembers(Seq<char>),
    SIsMember(Seq<char>, Seq<char>),
    Unrecognized,
}

pub open spec fn lower_byte(c: u8) -> u8 {
    if 65 <= c <= 90 {
        (c + 32) as u8
    } else {
        c
    }
}

/// ASCII lower case of bytes; other bytes are kept.
pub open spec fn lower(b: Seq<u8>) -> Seq<u8> {
    Seq::new(b.len(), |i: int| lower_byte(b[i]))
}

/// The bytes of a bulk string frame; none for the null one.
pub open spec fn bulk_bytes(f: Frame) -> Seq<u8> {
    match f {
        Frame::BulkString(Some(b)) => b,
        _ => Seq::empty(),
    }
}

/// An argument that must be text: a non-null bulk string of UTF-8 bytes.
pub open spec fn arg_string(f: Frame) -> Result<Seq<char>, CommandFault> {
    match f {
        Frame::BulkString(Some(b)) => if valid_utf8(b) {
            Ok(decode_utf8(b))
        } else {
            Err(CommandFault::Utf8)
        },
        _ => Err(CommandFault::InvalidArgument),
    }
}

/// The texts of the arguments from position `i` on, failing at the first that is not text.
pub open spec fn args_from(xs: Seq<Frame>, i: int) -> Result<Seq<Seq<char>>, CommandFault>
    decreases xs.len() - i,
{
    if i < 0 || i >= xs.len() {
        Ok(Seq::empty())
    } else {
        match arg_string(xs[i]) {
            Err(e) => Err(e),
            Ok(s) => match args_from(xs, i + 1) {
                Ok(rest) => Ok(seq![s] + rest),
                Err(e) => Err(e),
            },
        }
    }
}

/// The shape check of a command named `name` with `n` arguments (at least `n` where
/// `variadic`): a non-null array of the right length whose first frame is a bulk string that
/// spells the name in any case.
pub open spec fn header(a: Option<Seq<Frame>>, name: Seq<u8>, n: nat, variadic: bool) -> Result<
    Seq<Frame>,
    CommandFault,
> {
    match a {
        None => Err(CommandFault::InvalidArgument),
        Some(xs) => if (variadic && xs.len() < n + 1) || (!variadic && xs.len() != n + 1) {
            Err(CommandFault::InvalidArgument)
        } else if !(xs[0] is BulkString) || lower(bulk_bytes(xs[0])) != name {
            Err(CommandFault::InvalidCommand)
        } else {
            Ok(xs)
        },
    }
}

pub open spec fn name_echo() -> Seq<u8> {
    seq![101u8, 99u8, 104u8, 111u8]
}

pub open spec fn name_get() -> Seq<u8> {
    seq![103u8, 101u8, 116u8]
}

pub open spec fn name_set() -> Seq<u8> {
    seq![115u8, 101u8, 116u8]
}

pub open spec fn name_hget() -> Seq<u8> {
    seq![104u8, 103u8, 101u8, 116u8]
}

pub open spec fn name_hset() -> Seq<u8> {
    seq![104u8, 115u8, 101u8, 116u8]
}

pub open spec fn name_hgetall() -> Seq<u8> {
    seq![104u8, 103u8, 101u8, 116u8, 97u8, 108u8, 108u8]
}

pub open spec fn name_hmget() -> Seq<u8> {
    seq![104u8, 109u8, 103u8, 101u8, 116u8]
}

pub open spec fn name_sadd() -> Seq<u8> {
    seq![115u8, 97u8, 100u8, 100u8]
}

pub open spec fn name_smembers() -> Seq<u8> {
    seq![115u8, 109u8, 101u8, 109u8, 98u8, 101u8, 114u8, 115u8]
}

pub open spec fn name_sismember() -> Seq<u8> {
    seq![115u8, 105u8, 115u8, 109u8, 101u8, 109u8, 98u8, 101u8, 114u8]
}

pub open spec fn parse_echo(a: Option<Seq<Frame>>) -> Result<Cmd, CommandFault> {
    match header(a, name_echo(), 1, false) {
        Err(e) => Err(e),
        Ok(xs) => match arg_string(xs[1]) {
            Ok(v) => Ok(Cmd::Echo(v)),
            Err(e) => Err(e),
        },
    }
}

pub open spec fn parse_get(a: Option<Seq<Frame>>) -> Result<Cmd, CommandFault> {
    match header(a, name_get(), 1, false) {
        Err(e) => Err(e),
        Ok(xs) => match arg_string(xs[1]) {
            Ok(k) => Ok(Cmd::Get(k)),
            Err(e) => Err(e),
        },
    }
}

pub open spec fn parse_set(a: Option<Seq<Frame>>) -> Result<Cmd, CommandFault> {
    match header(a, name_set(), 2, false) {
        Err(e) => Err(e),
        Ok(xs) => match arg_string(xs[1]) {
            Ok(k) => Ok(Cmd::SetCmd(k, xs[2])),
            Err(e) => Err(e),
        },
    }
}

pub open spec fn parse_hget(a: Option<Seq<Frame>>) -> Result<Cmd, CommandFault> {
    match header(a, name_hget(), 2, false) {
        Err(e) => Err(e),
        Ok(xs) => match (arg_string(xs[1]), arg_string(xs[2])) {
            (Err(e), _) => Err(e),
            (Ok(_), Err(e)) => Err(e),
            (Ok(k), Ok(f)) => Ok(Cmd::HGet(k, f)),
        },
    }
}

pub open spec fn parse_hset(a: Option<Seq<Frame>>) -> Result<Cmd, CommandFault> {
    match header(a, name_hset(), 3, false) {
        Err(e) => Err(e),
        Ok(xs) => match (arg_string(xs[1]), arg_string(xs[2])) {
            (Err(e), _) => Err(e),
            (Ok(_), Err(e)) => Err(e),
            (Ok(k), Ok(f)) => Ok(Cmd::HSet(k, f, xs[3])),
        },
    }
}

pub open spec fn parse_hgetall(a: Option<Seq<Frame>>) -> Result<Cmd, CommandFault> {
    match header(a, name_hgetall(), 1, false) {
        Err(e) => Err(e),
        Ok(xs) => match arg_string(xs[1]) {
            Ok(k) => Ok(Cmd::HGetAll(k, false)),
            Err(e) => Err(e),
        },
    }
}

pub open spec fn parse_hmget(a: Option<Seq<Frame>>) -> Result<Cmd, CommandFault> {
    match header(a, name_hmget(), 2, true) {
        Err(e) => Err(e),
        Ok(xs) => match arg_string(xs[1]) {
            Err(e) => Err(e),
            Ok(k) => match args_from(xs, 2) {
                Ok(fs) => Ok(Cmd::HMGet(k, fs)),
                Err(e) => Err(e),
            },
        },
    }
}

pub open spec fn parse_sadd(a: Option<Seq<Frame>>) -> Result<Cmd, CommandFault> {
    match header(a, name_sadd(), 2, true) {
        Err(e) => Err(e),
        Ok(xs) => match arg_string(xs[1]) {
            Err(e) => Err(e),
            Ok(k) => match args_from(xs, 2) {
                Ok(ms) => Ok(Cmd::SAdd(k, ms)),
                Err(e) => Err(e),
            },
        },
    }
}

pub open spec fn parse_smembers(a: Option<Seq<Frame>>) -> Result<Cmd, CommandFault> {
    match header(a, name_smembers(), 1, false) {
        Err(e) => Err(e),
        Ok(xs) => match arg_string(xs[1]) {
            Ok(k) => Ok(Cmd::SMembers(k)),
            Err(e) => Err(e),
        },
    }
}

pub open spec fn parse_sismember(a: Option<Seq<Frame>>) -> Result<Cmd, CommandFault> {
    match header(a, name_sismember(), 2, false) {
        Err(e) => Err(e),
        Ok(xs) => match (arg_string(xs[1]), arg_string(xs[2])) {
            (Err(e), _) => Err(e),
            (Ok(_), Err(e)) => Err(e),
            (Ok(k), Ok(m)) => Ok(Cmd::SIsMember(k, m)),
        },
    }
}

/// The command that an array stands for: chosen by its first frame, a bulk string naming it in
/// any case; a name that is none of the commands is an unrecognized command.
pub open spec fn parse_command(a: Option<Seq<Frame>>) -> Result<Cmd, CommandFault> {
    match a {
        None => Err(CommandFault::InvalidCommand),
        Some(xs) => if xs.len() == 0 || !(xs[0] is BulkString) {
            Err(CommandFault::InvalidCommand)
        } else {
            let n = lower(bulk_bytes(xs[0]));
            if n == name_echo() {
                parse_echo(a)
            } else if n == name_get() {
                parse_get(a)
            } else if n == name_set() {
                parse_set(a)
            } else if n == name_hget() {
                parse_hget(a)
            } else if n == name_hset() {
                parse_hset(a)
            } else if n == name_hgetall() {
                parse_hgetall(a)
            } else if n == name_hmget() {
                parse_hmget(a)
            } else if n == name_sadd() {
                parse_sadd(a)
            } else if n == name_smembers() {
                parse_smembers(a)
            } else if n == name_sismember() {
                parse_sismember(a)
            } else {
                Ok(Cmd::Unrecognized)
            }
        },
    }
}

proof fn lemma_args_from_same(xs: Seq<Frame>, ys: Seq<Frame>, i: int)
    requires
        xs.len() == ys.len(),
        i >= 1,
        forall|j: int| 1 <= j < xs.len() ==> xs[j] == ys[j],
    ensures
        args_from(xs, i) == args_from(ys, i),
    decreases xs.len() - i,
{
    if i < xs.len() {
        lemma_args_from_same(xs, ys, i + 1);
    }
}

/// Case-insensitive dispatch: arrays that differ only in the letter case of the command name
/// parse to the same command, or fail alike.
pub proof fn law_case_insensitive(xs: Seq<Frame>, ys: Seq<Frame>)
    requires
        xs.len() == ys.len(),
        xs.len() > 0,
        xs[0] is BulkString,
        ys[0] is BulkString,
        lower(bulk_bytes(xs[0])) == lower(bulk_bytes(ys[0])),
        forall|j: int| 1 <= j < xs.len() ==> xs[j] == ys[j],
    ensures
        parse_command(Some(xs)) == parse_command(Some(ys)),
{
    lemma_args_from_same(xs, ys, 2);
    if xs.len() > 1 {
        assert(xs[1] == ys[1]);
    }
    if xs.len() > 2 {
        assert(xs[2] == ys[2]);
    }
    if xs.len() > 3 {
        assert(xs[3] == ys[3]);
    }
}

} // verus!

//! The commands, and how each reads itself from an array frame.
use vstd::prelude::*;

use crate::command::{
    parse_command, parse_echo, parse_get, parse_hget, parse_hgetall, parse_hmget, parse_hset,
    parse_sadd, parse_set, parse_sismember, parse_smembers, rejects, Cmd, CommandError,
    CommandFault, name_echo, name_get, name_hget, name_hgetall, name_hmget, name_hset, name_sadd,
    name_set, name_sismember, name_smembers,
};
use crate::frame::{frames_model, RespArray, RespFrame};
use crate::parse::{extract_args, extract_bulk_string, lower_equals, strings_model, validate_command};

verus! {

/// ECHO value
#[derive(Debug)]
pub struct Echo {
    pub value: String,
}

/// GET key
#[derive(Debug)]
pub struct Get {
    pub key: String,
}

/// SET key value
#[derive(Debug)]
pub struct SetCmd {
    pub key: String,
    pub value: RespFrame,
}

/// HGET key field
#[derive(Debug)]
pub struct HGet {
    pub key: String,
    pub field: String,
}

/// HSET key field value
#[derive(Debug)]
pub struct HSet {
    pub key: String,
    pub field: String,
    pub value: RespFrame,
}

/// HGETALL key; `sort` asks for the fields in ascending order.
#[derive(Debug)]
pub struct HGetAll {
    pub key: String,
    pub sort: bool,
}

/// HMGET key field [field ...]
#[derive(Debug)]
pub struct HMGet {
    pub key: String,
    pub fields: Vec<String>,
}

/// SADD key member [member ...]
#[derive(Debug)]
pub struct SAdd {
    pub key: String,
    pub members: Vec<String>,
}

/// SMEMBERS key
#[derive(Debug)]
pub struct SMembers {
    pub key: String,
}

/// SISMEMBER key member
#[derive(Debug)]
pub struct SIsMember {
    pub key: String,
    pub member: String,
}

/// Any command of another name.
#[derive(Debug)]
pub struct Unrecognized;

/// A command read from an array frame.
#[derive(Debug)]
pub enum Command {
    Get(Get),
    SetCmd(SetCmd),
    HGet(HGet),
    HSet(HSet),
    HGetAll(HGetAll),
    Echo(Echo),
    HMGet(HMGet),
    SADD(SAdd),
    SMEMBERS(SMembers),
    SISMEMBER(SIsMember),
    Unrecognized(Unrecognized),
}

/// `r` is what the parse `s` gives: the command it names, or the error it fails with.
pub open spec fn parsed_as(r: Result<Cmd, CommandError>, s: Result<Cmd, CommandFault>) -> bool {
    match s {
        Ok(c) => r == Ok::<Cmd, CommandError>(c),
        Err(e) => rejects(r, e),
    }
}

pub open spec fn model_of<T>(r: Result<T, CommandError>, m: spec_fn(T) -> Cmd) -> Result<Cmd, CommandError> {
    match r {
        Ok(v) => Ok(m(v)),
        Err(e) => Err(e),
    }
}

impl Echo {
    pub open spec fn model(self) -> Cmd {
        Cmd::Echo(self.value@)
    }

    pub fn try_from(value: RespArray) -> (r: Result<Echo, CommandError>)
        ensures
            parsed_as(model_of(r, |c: Echo| c.model()), parse_echo(value.model())),
    {
        let name = vec![101u8, 99u8, 104u8, 111u8];
        assert(name@ == name_echo());
        let frames = match validate_command(&value, name.as_slice(), 1, false) {
            Ok(f) => f,
            Err(e) => {
                return Err(e);
            },
        };
        assert(frames_model(*frames)[1] == frames[1].model());
        match extract_bulk_string(&frames[1]) {
            Ok(v) => Ok(Echo { value: v }),
            Err(e) => Err(e),
        }
    }
}

impl Get {
    pub open spec fn model(self) -> Cmd {
        Cmd::Get(self.key@)
    }

    pub fn try_from(value: RespArray) -> (r: Result<Get, CommandError>)
        ensures
            parsed_as(model_of(r, |c: Get| c.model()), parse_get(value.model())),
    {
        let name = vec![103u8, 101u8, 116u8];
        assert(name@ == name_get());
        let frames = match validate_command(&value, name.as_slice(), 1, false) {
            Ok(f) => f,
            Err(e) => {
                return Err(e);
            },
        };
        assert(frames_model(*frames)[1] == frames[1].model());
        let key = match extract_bulk_string(&frames[1]) {
            Ok(v) => v,
            Err(e) => {
                return Err(e);
            },
        };
        Ok(Get { key })
    }
}

impl SetCmd {
    pub open spec fn model(self) -> Cmd {
        Cmd::SetCmd(self.key@, self.value.model())
    }

    pub fn try_from(value: RespArray) -> (r: Result<SetCmd, CommandError>)
        ensures
            parsed_as(model_of(r, |c: SetCmd| c.model()), parse_set(value.model())),
    {
        let name = vec![115u8, 101u8, 116u8];
        assert(name@ == name_set());
        let frames = match validate_command(&value, name.as_slice(), 2, false) {
            Ok(f) => f,
            Err(e) => {
                return Err(e);
            },
        };
        assert(frames_model(*frames)[1] == frames[1].model());
        let key = match extract_bulk_string(&frames[1]) {
            Ok(v) => v,
            Err(e) => {
                return Err(e);
            },
        };
        assert(frames_model(*frames)[2] == frames[2].model());
        Ok(SetCmd { key, value: frames[2].deep_copy() })
    }
}

impl HGet {
    pub open spec fn model(self) -> Cmd {
        Cmd::HGet(self.key@, self.field@)
    }

    pub fn try_from(value: RespArray) -> (r: Result<HGet, CommandError>)
        ensures
            parsed_as(model_of(r, |c: HGet| c.model()), parse_hget(value.model())),
    {
        let name = vec![104u8, 103u8, 101u8, 116u8];
        assert(name@ == name_hget());
        let frames = match validate_command(&value, name.as_slice(), 2, false) {
            Ok(f) => f,
            Err(e) => {
                return Err(e);
            },
        };
        assert(frames_model(*frames)[1] == frames[1].model());
        let key = match extract_bulk_string(&frames[1]) {
            Ok(v) => v,
            Err(e) => {
                return Err(e);
            },
        };
        assert(frames_model(*frames)[2] == frames[2].model());
        let field = match extract_bulk_string(&frames[2]) {
            Ok(v) => v,
            Err(e) => {
                return Err(e);
            },
        };
        Ok(HGet { key, field })
    }
}

impl HSet {
    pub open spec fn model(self) -> Cmd {
        Cmd::HSet(self.key@, self.field@, self.value.model())
    }

    pub fn try_from(value: RespArray) -> (r: Result<HSet, CommandError>)
        ensures
            parsed_as(model_of(r, |c: HSet| c.model()), parse_hset(value.model())),
    {
        let name = vec![104u8, 115u8, 101u8, 116u8];
        assert(name@ == name_hset());
        let frames = match validate_command(&value, name.as_slice(), 3, false) {
            Ok(f) => f,
            Err(e) => {
                return Err(e);
            },
        };
        assert(frames_model(*frames)[1] == frames[1].model());
        let key = match extract_bulk_string(&frames[1]) {
            Ok(v) => v,
            Err(e) => {
                return Err(e);
            },
        };
        assert(frames_model(*frames)[2] == frames[2].model());
        let field = match extract_bulk_string(&frames[2]) {
            Ok(v) => v,
            Err(e) => {
                return Err(e);
            },
        };
        assert(frames_model(*frames)[3] == frames[3].model());
        Ok(HSet { key, field, value: frames[3].deep_copy() })
    }
}

impl HGetAll {
    pub open spec fn model(self) -> Cmd {
        Cmd::HGetAll(self.key@, self.sort)
    }

    pub fn try_from(value: RespArray) -> (r: Result<HGetAll, CommandError>)
        ensures
            parsed_as(model_of(r, |c: HGetAll| c.model()), parse_hgetall(value.model())),
    {
        let name = vec![104u8, 103u8, 101u8, 116u8, 97u8, 108u8, 108u8];
        assert(name@ == name_hgetall());
        let frames = match validate_command(&value, name.as_slice(), 1, false) {
            Ok(f) => f,
            Err(e) => {
                return Err(e);
            },
        };
        assert(frames_model(*frames)[1] == frames[1].model());
        let key = match extract_bulk_string(&frames[1]) {
            Ok(v) => v,
            Err(e) => {
                return Err(e);
            },
        };
        Ok(HGetAll { key, sort: false })
    }
}

impl HMGet {
    pub open spec fn model(self) -> Cmd {
        Cmd::HMGet(self.key@, strings_model(self.fields))
    }

    pub fn try_from(value: RespArray) -> (r: Result<HMGet, CommandError>)
        ensures
            parsed_as(model_of(r, |c: HMGet| c.model()), parse_hmget(value.model())),
    {
        let name = vec![104u8, 109u8, 103u8, 101u8, 116u8];
        assert(name@ == name_hmget());
        let frames = match validate_command(&value, name.as_slice(), 2, true) {
            Ok(f) => f,
            Err(e) => {
                return Err(e);
            },
        };
        assert(frames_model(*frames)[1] == frames[1].model());
        let key = match extract_bulk_string(&frames[1]) {
            Ok(v) => v,
            Err(e) => {
                return Err(e);
            },
        };
        match extract_args(frames, 2) {
            Ok(fields) => Ok(HMGet { key, fields }),
            Err(e) => Err(e),
        }
    }
}

impl SAdd {
    pub open spec fn model(self) -> Cmd {
        Cmd::SAdd(self.key@, strings_model(self.members))
    }

    pub fn try_from(value: RespArray) -> (r: Result<SAdd, CommandError>)
        ensures
            parsed_as(model_of(r, |c: SAdd| c.model()), parse_sadd(value.model())),
    {
        let name = vec![115u8, 97u8, 100u8, 100u8];
        assert(name@ == name_sadd());
        let frames = match validate_command(&value, name.as_slice(), 2, true) {
            Ok(f) => f,
            Err(e) => {
                return Err(e);
            },
        };
        assert(frames_model(*frames)[1] == frames[1].model());
        let key = match extract_bulk_string(&frames[1]) {
            Ok(v) => v,
            Err(e) => {
                return Err(e);
            },
        };
        match extract_args(frames, 2) {
            Ok(members) => Ok(SAdd { key, members }),
            Err(e) => Err(e),
        }
    }
}

impl SMembers {
    pub open spec fn model(self) -> Cmd {
        Cmd::SMembers(self.key@)
    }

    pub fn try_from(value: RespArray) -> (r: Result<SMembers, CommandError>)
        ensures
            parsed_as(model_of(r, |c: SMembers| c.model()), parse_smembers(value.model())),
    {
        let name = vec![115u8, 109u8, 101u8, 109u8, 98u8, 101u8, 114u8, 115u8];
        assert(name@ == name_smembers());
        let frames = match validate_command(&value, name.as_slice(), 1, false) {
            Ok(f) => f,
            Err(e) => {
                return Err(e);
            },
        };
        assert(frames_model(*frames)[1] == frames[1].model());
        let key = match extract_bulk_string(&frames[1]) {
            Ok(v) => v,
            Err(e) => {
                return Err(e);
            },
        };
        Ok(SMembers { key })
    }
}

impl SIsMember {
    pub open spec fn model(self) -> Cmd {
        Cmd::SIsMember(self.key@, self.member@)
    }

    pub fn try_from(value: RespArray) -> (r: Result<SIsMember, CommandError>)
        ensures
            parsed_as(model_of(r, |c: SIsMember| c.model()), parse_sismember(value.model())),
    {
        let name = vec![115u8, 105u8, 115u8, 109u8, 101u8, 109u8, 98u8, 101u8, 114u8];
        assert(name@ == name_sismember());
        let frames = match validate_command(&value, name.as_slice(), 2, false) {
            Ok(f) => f,
            Err(e) => {
                return Err(e);
            },
        };
        assert(frames_model(*frames)[1] == frames[1].model());
        let key = match extract_bulk_string(&frames[1]) {
            Ok(v) => v,
            Err(e) => {
                return Err(e);
            },
        };
        assert(frames_model(*frames)[2] == frames[2].model());
        let member = match extract_bulk_string(&frames[2]) {
            Ok(v) => v,
            Err(e) => {
                return Err(e);
            },
        };
        Ok(SIsMember { key, member })
    }
}

impl Unrecognized {
    pub open spec fn model(self) -> Cmd {
        Cmd::Unrecognized
    }
}

impl Command {
    pub open spec fn model(self) -> Cmd {
        match self {
            Command::Get(c) => c.model(),
            Command::SetCmd(c) => c.model(),
            Command::HGet(c) => c.model(),
            Command::HSet(c) => c.model(),
            Command::HGetAll(c) => c.model(),
            Command::Echo(c) => c.model(),
            Command::HMGet(c) => c.model(),
            Command::SADD(c) => c.model(),
            Command::SMEMBERS(c) => c.model(),
            Command::SISMEMBER(c) => c.model(),
            Command::Unrecognized(c) => c.model(),
        }
    }

    /// The command that an array names: its first frame, a bulk string, names it in any case;
    /// another name gives an unrecognized command.
    pub fn try_from(value: RespArray) -> (r: Result<Command, CommandError>)
        ensures
            parsed_as(model_of(r, |c: Command| c.model()), parse_command(value.model())),
    {
        let name: Vec<u8> = match &value.0 {
            Some(frames) => {
                if frames.len() == 0 {
                    return Err(CommandError::of_fault(CommandFault::InvalidCommand));
                }
                assert(frames_model(*frames)[0] == frames[0].model());
                match &frames[0] {
                    RespFrame::BulkString(b) => match &b.0 {
                        Some(v) => v.clone(),
                        None => Vec::new(),
                    },
                    _ => {
                        return Err(CommandError::of_fault(CommandFault::InvalidCommand));
                    },
                }
            },
            None => {
                return Err(CommandError::of_fault(CommandFault::InvalidCommand));
            },
        };
        let n = name.as_slice();
        if lower_equals(n, vec![101u8, 99u8, 104u8, 111u8].as_slice()) {
            match Echo::try_from(value) {
                Ok(c) => Ok(Command::Echo(c)),
                Err(e) => Err(e),
            }
        } else if lower_equals(n, vec![103u8, 101u8, 116u8].as_slice()) {
            match Get::try_from(value) {
                Ok(c) => Ok(Command::Get(c)),
                Err(e) => Err(e),
            }
        } else if lower_equals(n, vec![115u8, 101u8, 116u8].as_slice()) {
            match SetCmd::try_from(value) {
                Ok(c) => Ok(Command::SetCmd(c)),
                Err(e) => Err(e),
            }
        } else if lower_equals(n, vec![104u8, 103u8, 101u8, 116u8].as_slice()) {
            match HGet::try_from(value) {
                Ok(c) => Ok(Command::HGet(c)),
                Err(e) => Err(e),
            }
        } else if lower_equals(n, vec![104u8, 115u8, 101u8, 116u8].as_slice()) {
            match HSet::try_from(value) {
                Ok(c) => Ok(Command::HSet(c)),
                Err(e) => Err(e),
            }
        } else if lower_equals(n, vec![104u8, 103u8, 101u8, 116u8, 97u8, 108u8, 108u8].as_slice()) {
            match HGetAll::try_from(value) {
                Ok(c) => Ok(Command::HGetAll(c)),
                Err(e) => Err(e),
            }
        } else if lower_equals(n, vec![104u8, 109u8, 103u8, 101u8, 116u8].as_slice()) {
            match HMGet::try_from(value) {
                Ok(c) => Ok(Command::HMGet(c)),
                Err(e) => Err(e),
            }
        } else if lower_equals(n, vec![115u8, 97u8, 100u8, 100u8].as_slice()) {
            match SAdd::try_from(value) {
                Ok(c) => Ok(Command::SADD(c)),
                Err(e) => Err(e),
            }
        } else if lower_equals(n, vec![115u8, 109u8, 101u8, 109u8, 98u8, 101u8, 114u8, 115u8].as_slice()) {
            match SMembers::try_from(value) {
                Ok(c) => Ok(Command::SMEMBERS(c)),
                Err(e) => Err(e),
            }
        } else if lower_equals(n, vec![115u8, 105u8, 115u8, 109u8, 101u8, 109u8, 98u8, 101u8, 114u8].as_slice()) {
            match SIsMember::try_from(value) {
                Ok(c) => Ok(Command::SISMEMBER(c)),
                Err(e) => Err(e),
            }
        } else {
            Ok(Command::Unrecognized(Unrecognized))
        }
    }

    /// The command that a frame names: it must be an array.
    pub fn try_from_frame(v: RespFrame) -> (r: Result<Command, CommandError>)
        ensures
            parsed_as(
                model_of(r, |c: Command| c.model()),
                match v.model() {
                    crate::frame::Frame::Array(a) => parse_command(a),
                    _ => Err(CommandFault::InvalidCommand),
                },
            ),
    {
        match v {
            RespFrame::Array(a) => Command::try_from(a),
            _ => Err(CommandError::of_fault(CommandFault::InvalidCommand)),
        }
    }
}

} // verus!

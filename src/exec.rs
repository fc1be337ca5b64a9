//! Running commands against the store.
use vstd::prelude::*;

use crate::backend::Backend;
use crate::cmd::{Command, Echo, Get, HGet, HGetAll, HMGet, HSet, SAdd, SIsMember, SMembers, SetCmd, Unrecognized};
use crate::frame::{BulkString, Frame, RespFrame};
use crate::reply::{
    bulk_of, bulks, distinct_fields, entries_model, strings_view, flat, get_reply, hgetall_frame, hmget_reply, ok_frame, resp_ok,
    sadd_reply, sismember_reply, smembers_frame, sorted_by_field, sorted_texts, string_bytes,
};

verus! {

/// Running a command against the store.
pub trait CommandExecutor: Sized {
    /// What holds of the reply, whatever the store held when the command ran.
    spec fn replies(self, r: Frame) -> bool;

    fn execute(self, backend: &Backend) -> (r: RespFrame)
        ensures
            self.replies(r.model()),
    ;
}

impl CommandExecutor for Echo {
    open spec fn replies(self, r: Frame) -> bool {
        r == bulk_of(self.value@)
    }

    fn execute(self, backend: &Backend) -> (r: RespFrame) {
        RespFrame::BulkString(BulkString(Some(string_bytes(&self.value))))
    }
}

impl CommandExecutor for Get {
    /// The stored frame, or null: either may come back.
    open spec fn replies(self, r: Frame) -> bool {
        true
    }

    fn execute(self, backend: &Backend) -> (r: RespFrame) {
        get_reply(backend.get(self.key.as_str()))
    }
}

impl CommandExecutor for SetCmd {
    open spec fn replies(self, r: Frame) -> bool {
        r == ok_frame()
    }

    fn execute(self, backend: &Backend) -> (r: RespFrame) {
        backend.set(self.key, self.value);
        resp_ok()
    }
}

impl CommandExecutor for HGet {
    /// The stored frame, or null: either may come back.
    open spec fn replies(self, r: Frame) -> bool {
        true
    }

    fn execute(self, backend: &Backend) -> (r: RespFrame) {
        get_reply(backend.hget(self.key.as_str(), self.field.as_str()))
    }
}

impl CommandExecutor for HSet {
    open spec fn replies(self, r: Frame) -> bool {
        r == ok_frame()
    }

    fn execute(self, backend: &Backend) -> (r: RespFrame) {
        backend.hset(self.key, self.field, self.value);
        resp_ok()
    }
}

impl CommandExecutor for HGetAll {
    /// Fields and values one after the other, each field once, in ascending order of the fields
    /// when `sort`.
    open spec fn replies(self, r: Frame) -> bool {
        exists|es: Seq<(Seq<char>, Frame)>|
            r == Frame::Array(Some(#[trigger] flat(es))) && distinct_fields(es) && (self.sort
                ==> sorted_by_field(es))
    }

    fn execute(self, backend: &Backend) -> (r: RespFrame) {
        let entries = backend.hgetall(self.key.as_str());
        let ghost found = entries;
        let r = hgetall_frame(entries, self.sort);
        proof {
            match found {
                None => {
                    assert(flat(Seq::<(Seq<char>, Frame)>::empty()) =~= Seq::<Frame>::empty());
                },
                Some(v) => {
                    assert(distinct_fields(entries_model(v@))) by {
                        assert forall|i: int, j: int| 0 <= i < j < v@.len() implies (
                        #[trigger] entries_model(v@)[i]).0 != (#[trigger] entries_model(v@)[j]).0 by {
                            assert(v@[i].0@ != v@[j].0@);
                        }
                    }
                    if !self.sort {
                        assert(r.model() == Frame::Array(Some(flat(entries_model(v@)))));
                    }
                },
            }
        }
        r
    }
}

impl CommandExecutor for HMGet {
    open spec fn replies(self, r: Frame) -> bool {
        r matches Frame::Array(Some(xs)) && xs.len() == self.fields.len()
    }

    fn execute(self, backend: &Backend) -> (r: RespFrame) {
        let mut found: Vec<Option<RespFrame>> = Vec::new();
        let mut i: usize = 0;
        while i < self.fields.len()
            invariant
                i <= self.fields.len(),
                found.len() == i,
            decreases self.fields.len() - i,
        {
            found.push(backend.hget(self.key.as_str(), self.fields[i].as_str()));
            i += 1;
        }
        hmget_reply(&found)
    }
}

impl CommandExecutor for SAdd {
    open spec fn replies(self, r: Frame) -> bool {
        r matches Frame::Integer(n) && 0 <= n <= self.members.len()
    }

    fn execute(self, backend: &Backend) -> (r: RespFrame) {
        let mut added: Vec<bool> = Vec::new();
        let mut i: usize = 0;
        while i < self.members.len()
            invariant
                i <= self.members.len(),
                added.len() == i,
            decreases self.members.len() - i,
        {
            added.push(backend.sadd(self.key.clone(), self.members[i].clone()));
            i += 1;
        }
        proof {
            crate::reply::lemma_count_true_bound(added@);
        }
        sadd_reply(&added)
    }
}

impl CommandExecutor for SMembers {
    /// Bulk strings of the members, each once, in ascending order.
    open spec fn replies(self, r: Frame) -> bool {
        exists|ms: Seq<Seq<char>>|
            r == Frame::Array(Some(#[trigger] bulks(ms))) && sorted_texts(ms) && ms.no_duplicates()
    }

    fn execute(self, backend: &Backend) -> (r: RespFrame) {
        let members = backend.smembers(self.key.as_str());
        let ghost found = members;
        let r = smembers_frame(members);
        proof {
            match found {
                None => {
                    assert(bulks(Seq::<Seq<char>>::empty()) =~= Seq::<Frame>::empty());
                },
                Some(m) => {
                    assert(strings_view(m@).no_duplicates()) by {
                        assert forall|i: int, j: int|
                            0 <= i < strings_view(m@).len() && 0 <= j < strings_view(m@).len() && i
                                != j implies strings_view(m@)[i] != strings_view(m@)[j] by {
                            if i < j {
                                assert(m@[i]@ != m@[j]@);
                            } else {
                                assert(m@[j]@ != m@[i]@);
                            }
                        }
                    }
                },
            }
        }
        r
    }
}

impl CommandExecutor for SIsMember {
    open spec fn replies(self, r: Frame) -> bool {
        r == Frame::Integer(1) || r == Frame::Integer(0)
    }

    fn execute(self, backend: &Backend) -> (r: RespFrame) {
        sismember_reply(backend.sismember(self.key.as_str(), self.member.as_str()))
    }
}

impl CommandExecutor for Unrecognized {
    open spec fn replies(self, r: Frame) -> bool {
        r == ok_frame()
    }

    fn execute(self, backend: &Backend) -> (r: RespFrame) {
        resp_ok()
    }
}

impl CommandExecutor for Command {
    open spec fn replies(self, r: Frame) -> bool {
        match self {
            Command::Get(c) => c.replies(r),
            Command::SetCmd(c) => c.replies(r),
            Command::HGet(c) => c.replies(r),
            Command::HSet(c) => c.replies(r),
            Command::HGetAll(c) => c.replies(r),
            Command::Echo(c) => c.replies(r),
            Command::HMGet(c) => c.replies(r),
            Command::SADD(c) => c.replies(r),
            Command::SMEMBERS(c) => c.replies(r),
            Command::SISMEMBER(c) => c.replies(r),
            Command::Unrecognized(c) => c.replies(r),
        }
    }

    fn execute(self, backend: &Backend) -> (r: RespFrame) {
        match self {
            Command::Get(c) => c.execute(backend),
            Command::SetCmd(c) => c.execute(backend),
            Command::HGet(c) => c.execute(backend),
            Command::HSet(c) => c.execute(backend),
            Command::HGetAll(c) => c.execute(backend),
            Command::Echo(c) => c.execute(backend),
            Command::HMGet(c) => c.execute(backend),
            Command::SADD(c) => c.execute(backend),
            Command::SMEMBERS(c) => c.execute(backend),
            Command::SISMEMBER(c) => c.execute(backend),
            Command::Unrecognized(c) => c.execute(backend),
        }
    }
}

} // verus!

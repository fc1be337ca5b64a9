//! Reading the parts of a command out of an array frame.
use vstd::prelude::*;
use vstd::utf8::{decode_utf8, valid_utf8};

use crate::command::{
    arg_string, args_from, header, lower, lower_byte, rejects, CommandError, CommandFault,
};
use crate::frame::{frames_model, RespArray, RespFrame};

verus! {

/// Relies on `String::from_utf8`: it succeeds exactly on UTF-8 bytes, and the string holds
/// their text.
#[verifier::external_body]
fn utf8_string(b: Vec<u8>) -> (r: Option<String>)
    ensures
        r is Some <==> valid_utf8(b@),
        r matches Some(s) ==> s@ == decode_utf8(b@),
{
    String::from_utf8(b).ok()
}

/// The texts of strings, in order.
pub open spec fn strings_model(v: Vec<String>) -> Seq<Seq<char>> {
    Seq::new(v.len() as nat, |i: int| v[i]@)
}

/// Whether the ASCII lower case of `b` is `lit`.
pub fn lower_equals(b: &[u8], lit: &[u8]) -> (r: bool)
    ensures
        r == (lower(b@) == lit@),
{
    if b.len() != lit.len() {
        assert(lower(b@).len() != lit@.len());
        return false;
    }
    let mut i: usize = 0;
    while i < b.len()
        invariant
            i <= b@.len(),
            b@.len() == lit@.len(),
            forall|j: int| 0 <= j < i ==> lower_byte(b@[j]) == lit@[j],
        decreases b.len() - i,
    {
        let c = b[i];
        let l: u8 = if 65 <= c && c <= 90 {
            c + 32
        } else {
            c
        };
        if l != lit[i] {
            assert(lower(b@)[i as int] != lit@[i as int]);
            return false;
        }
        i += 1;
    }
    assert(lower(b@) =~= lit@);
    true
}

/// The bytes of a bulk string frame; none for the null one or another kind.
fn bulk_bytes_of(f: &RespFrame) -> (r: &[u8])
    ensures
        r@ == crate::command::bulk_bytes(f.model()),
{
    match f {
        RespFrame::BulkString(b) => match &b.0 {
            Some(v) => v.as_slice(),
            None => &[],
        },
        _ => &[],
    }
}

/// The shape check of a command: a non-null array of `n_arg` arguments (at least that many
/// where `variadic`) after a bulk string that names the command in any case.
pub fn validate_command<'a>(value: &'a RespArray, name: &[u8], n_arg: usize, variadic: bool) -> (r: Result<
    &'a Vec<RespFrame>,
    CommandError,
>)
    ensures
        match header(value.model(), name@, n_arg as nat, variadic) {
            Ok(xs) => r is Ok && value.0 == Some(*r->Ok_0) && frames_model(*r->Ok_0) == xs,
            Err(e) => rejects(r, e),
        },
{
    let frames = match &value.0 {
        Some(v) => v,
        None => {
            return Err(CommandError::of_fault(CommandFault::InvalidArgument));
        },
    };
    let n = frames.len();
    if (variadic && (n < 1 || n - 1 < n_arg)) || (!variadic && (n < 1 || n - 1 != n_arg)) {
        return Err(CommandError::of_fault(CommandFault::InvalidArgument));
    }
    assert(frames_model(*frames)[0] == frames[0].model());
    match &frames[0] {
        RespFrame::BulkString(_) => {},
        _ => {
            return Err(CommandError::of_fault(CommandFault::InvalidCommand));
        },
    }
    if !lower_equals(bulk_bytes_of(&frames[0]), name) {
        return Err(CommandError::of_fault(CommandFault::InvalidCommand));
    }
    Ok(frames)
}

/// An argument that must be text: a non-null bulk string of UTF-8 bytes.
pub fn extract_bulk_string(f: &RespFrame) -> (r: Result<String, CommandError>)
    ensures
        match arg_string(f.model()) {
            Ok(s) => r is Ok && r->Ok_0@ == s,
            Err(e) => rejects(r, e),
        },
{
    match f {
        RespFrame::BulkString(b) => match &b.0 {
            Some(v) => match utf8_string(v.clone()) {
                Some(s) => Ok(s),
                None => Err(CommandError::of_fault(CommandFault::Utf8)),
            },
            None => Err(CommandError::of_fault(CommandFault::InvalidArgument)),
        },
        _ => Err(CommandError::of_fault(CommandFault::InvalidArgument)),
    }
}

/// The texts of the arguments from position `start` on.
pub fn extract_args(frames: &Vec<RespFrame>, start: usize) -> (r: Result<Vec<String>, CommandError>)
    ensures
        match args_from(frames_model(*frames), start as int) {
            Ok(ss) => r is Ok && strings_model(r->Ok_0) == ss,
            Err(e) => rejects(r, e),
        },
{
    let ghost xs = frames_model(*frames);
    let mut out: Vec<String> = Vec::new();
    let mut i: usize = start;
    while i < frames.len()
        invariant
            xs == frames_model(*frames),
            start <= i,
            i <= frames.len() || i == start,
            args_from(xs, start as int) == (match args_from(xs, i as int) {
                Ok(rest) => Ok::<Seq<Seq<char>>, CommandFault>(strings_model(out) + rest),
                Err(e) => Err(e),
            }),
        decreases frames.len() - i,
    {
        assert(xs[i as int] == frames[i as int].model());
        let s = match extract_bulk_string(&frames[i]) {
            Ok(s) => s,
            Err(e) => {
                return Err(e);
            },
        };
        let ghost before = strings_model(out);
        out.push(s);
        proof {
            assert(strings_model(out) =~= before.push(s@));
            if let Ok(rest) = args_from(xs, i + 1) {
                assert(before + (seq![s@] + rest) =~= before.push(s@) + rest);
            }
        }
        i += 1;
    }
    assert(strings_model(out) + Seq::<Seq<char>>::empty() =~= strings_model(out));
    Ok(out)
}

} // verus!

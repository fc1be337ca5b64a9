//! Decoding from a growable byte buffer: a frame is taken off the front only when it is whole.
use vstd::prelude::*;

use bytes::{Buf, BytesMut};

use crate::decode::{decode_at, expect_at, expect_matches};
use crate::error::{fails_as, RespError};
use crate::frame::{
    frames_model, pairs_model, BulkString, Frame, RespArray, RespFrame, RespMap, RespNull, RespSet,
    SimpleError, SimpleString,
};
use crate::wire::{decode, expect_len, DecodeError};

verus! {

#[verifier::external_type_specification]
#[verifier::external_body]
pub struct ExBytesMut(bytes::BytesMut);

/// The bytes that a buffer holds, front first.
pub uninterp spec fn buffer_bytes(b: BytesMut) -> Seq<u8>;

/// Relies on `BytesMut`'s `AsRef<[u8]>`: the slice of the bytes held, front first.
#[verifier::external_body]
fn buffer_slice(b: &BytesMut) -> (r: &[u8])
    ensures
        r@ == buffer_bytes(*b),
{
    b.as_ref()
}

/// Relies on `Buf::advance` for `BytesMut`: the first `n` bytes are dropped (it panics past
/// the end, which `requires` rules out).
#[verifier::external_body]
fn buffer_advance(b: &mut BytesMut, n: usize)
    requires
        n <= buffer_bytes(*old(b)).len(),
    ensures
        buffer_bytes(*final(b)) == buffer_bytes(*old(b)).skip(n as int),
{
    b.advance(n)
}

/// What a decode of a value whose wire form starts with `tag` makes of `b`: a buffer that
/// starts with another byte holds no such value.
pub open spec fn decode_as(b: Seq<u8>, tag: u8) -> Result<(Frame, nat), DecodeError> {
    if b.len() > 0 && b[0] == tag {
        decode(b)
    } else if b.len() < 3 {
        Err(DecodeError::NotComplete)
    } else {
        Err(DecodeError::InvalidFrameType)
    }
}

/// The frame at the front of the buffer, which is advanced past it; on failure the buffer is
/// left as it was.
pub fn decode_frame(buf: &mut BytesMut) -> (r: Result<RespFrame, RespError>)
    ensures
        match decode(buffer_bytes(*old(buf))) {
            Ok((f, n)) => r is Ok && r->Ok_0.model() == f && buffer_bytes(*final(buf))
                == buffer_bytes(*old(buf)).skip(n as int),
            Err(x) => fails_as(r, x) && buffer_bytes(*final(buf)) == buffer_bytes(*old(buf)),
        },
{
    let res = {
        let s = buffer_slice(buf);
        assert(s@.skip(0) =~= s@);
        decode_at(s, 0)
    };
    match res {
        Ok((f, n)) => {
            buffer_advance(buf, n);
            Ok(f)
        },
        Err(x) => Err(x),
    }
}

/// Reading one value of a kind from the front of a buffer.
pub trait RespDecode: Sized {
    /// The prefix byte of the kind's wire form; `None` where any kind is taken.
    spec fn tag() -> Option<u8>;

    /// The frame that a value stands for.
    spec fn frame_of(v: Self) -> Frame;

    /// Decodes a value and advances the buffer past it; on failure the buffer is left as it was.
    fn decode(buf: &mut BytesMut) -> (r: Result<Self, RespError>)
        ensures
            match (match Self::tag() {
                Some(t) => decode_as(buffer_bytes(*old(buf)), t),
                None => decode(buffer_bytes(*old(buf))),
            }) {
                Ok((f, n)) => r is Ok && Self::frame_of(r->Ok_0) == f && buffer_bytes(*final(buf))
                    == buffer_bytes(*old(buf)).skip(n as int),
                Err(x) => fails_as(r, x) && buffer_bytes(*final(buf)) == buffer_bytes(*old(buf)),
            },
    ;

    /// The byte count of the frame at the front of `buf`, as far as the bytes present tell.
    fn expect_length(buf: &[u8]) -> (r: Result<usize, RespError>)
        ensures
            expect_matches(r, expect_len(buf@)),
    ;
}

/// The byte count of the frame at the front of `buf`, as far as the bytes present tell.
pub fn expect_length(buf: &[u8]) -> (r: Result<usize, RespError>)
    ensures
        expect_matches(r, expect_len(buf@)),
{
    assert(buf@.skip(0) =~= buf@);
    expect_at(buf, 0)
}

/// Decodes a frame that must start with `tag`.
fn decode_tagged(buf: &mut BytesMut, tag: u8) -> (r: Result<RespFrame, RespError>)
    ensures
        match decode_as(buffer_bytes(*old(buf)), tag) {
            Ok((f, n)) => r is Ok && r->Ok_0.model() == f && buffer_bytes(*final(buf))
                == buffer_bytes(*old(buf)).skip(n as int),
            Err(x) => fails_as(r, x) && buffer_bytes(*final(buf)) == buffer_bytes(*old(buf)),
        },
{
    let ok = {
        let s = buffer_slice(buf);
        if s.len() > 0 && s[0] == tag {
            0u8
        } else if s.len() < 3 {
            1u8
        } else {
            2u8
        }
    };
    if ok == 0 {
        decode_frame(buf)
    } else if ok == 1 {
        Err(RespError::NotComplete)
    } else {
        Err(RespError::of_kind(DecodeError::InvalidFrameType))
    }
}

impl RespDecode for RespFrame {
    open spec fn tag() -> Option<u8> {
        None
    }

    open spec fn frame_of(v: RespFrame) -> Frame {
        v.model()
    }

    fn decode(buf: &mut BytesMut) -> (r: Result<RespFrame, RespError>) {
        decode_frame(buf)
    }

    fn expect_length(buf: &[u8]) -> (r: Result<usize, RespError>) {
        expect_length(buf)
    }
}

impl RespDecode for SimpleString {
    open spec fn tag() -> Option<u8> {
        Some(43u8)
    }

    open spec fn frame_of(v: SimpleString) -> Frame {
        Frame::SimpleString(v@)
    }

    fn decode(buf: &mut BytesMut) -> (r: Result<SimpleString, RespError>) {
        match decode_tagged(buf, 43u8) {
            Ok(RespFrame::SimpleString(s)) => Ok(s),
            Ok(_) => Err(RespError::of_kind(DecodeError::InvalidFrameType)),
            Err(x) => Err(x),
        }
    }

    fn expect_length(buf: &[u8]) -> (r: Result<usize, RespError>) {
        expect_length(buf)
    }
}

impl RespDecode for SimpleError {
    open spec fn tag() -> Option<u8> {
        Some(45u8)
    }

    open spec fn frame_of(v: SimpleError) -> Frame {
        Frame::SimpleError(v@)
    }

    fn decode(buf: &mut BytesMut) -> (r: Result<SimpleError, RespError>) {
        match decode_tagged(buf, 45u8) {
            Ok(RespFrame::SimpleError(s)) => Ok(s),
            Ok(_) => Err(RespError::of_kind(DecodeError::InvalidFrameType)),
            Err(x) => Err(x),
        }
    }

    fn expect_length(buf: &[u8]) -> (r: Result<usize, RespError>) {
        expect_length(buf)
    }
}

impl RespDecode for i64 {
    open spec fn tag() -> Option<u8> {
        Some(58u8)
    }

    open spec fn frame_of(v: i64) -> Frame {
        Frame::Integer(v as int)
    }

    fn decode(buf: &mut BytesMut) -> (r: Result<i64, RespError>) {
        match decode_tagged(buf, 58u8) {
            Ok(RespFrame::Integer(n)) => Ok(n),
            Ok(_) => Err(RespError::of_kind(DecodeError::InvalidFrameType)),
            Err(x) => Err(x),
        }
    }

    fn expect_length(buf: &[u8]) -> (r: Result<usize, RespError>) {
        expect_length(buf)
    }
}

impl RespDecode for BulkString {
    open spec fn tag() -> Option<u8> {
        Some(36u8)
    }

    open spec fn frame_of(v: BulkString) -> Frame {
        Frame::BulkString(v@)
    }

    fn decode(buf: &mut BytesMut) -> (r: Result<BulkString, RespError>) {
        match decode_tagged(buf, 36u8) {
            Ok(RespFrame::BulkString(b)) => Ok(b),
            Ok(_) => Err(RespError::of_kind(DecodeError::InvalidFrameType)),
            Err(x) => Err(x),
        }
    }

    fn expect_length(buf: &[u8]) -> (r: Result<usize, RespError>) {
        expect_length(buf)
    }
}

impl RespDecode for RespArray {
    open spec fn tag() -> Option<u8> {
        Some(42u8)
    }

    open spec fn frame_of(v: RespArray) -> Frame {
        Frame::Array(v.model())
    }

    fn decode(buf: &mut BytesMut) -> (r: Result<RespArray, RespError>) {
        match decode_tagged(buf, 42u8) {
            Ok(RespFrame::Array(a)) => Ok(a),
            Ok(_) => Err(RespError::of_kind(DecodeError::InvalidFrameType)),
            Err(x) => Err(x),
        }
    }

    fn expect_length(buf: &[u8]) -> (r: Result<usize, RespError>) {
        expect_length(buf)
    }
}

impl RespDecode for RespNull {
    open spec fn tag() -> Option<u8> {
        Some(95u8)
    }

    open spec fn frame_of(v: RespNull) -> Frame {
        Frame::Null
    }

    fn decode(buf: &mut BytesMut) -> (r: Result<RespNull, RespError>) {
        match decode_tagged(buf, 95u8) {
            Ok(RespFrame::Null(n)) => Ok(n),
            Ok(_) => Err(RespError::of_kind(DecodeError::InvalidFrameType)),
            Err(x) => Err(x),
        }
    }

    fn expect_length(buf: &[u8]) -> (r: Result<usize, RespError>) {
        expect_length(buf)
    }
}

impl RespDecode for bool {
    open spec fn tag() -> Option<u8> {
        Some(35u8)
    }

    open spec fn frame_of(v: bool) -> Frame {
        Frame::Boolean(v)
    }

    fn decode(buf: &mut BytesMut) -> (r: Result<bool, RespError>) {
        match decode_tagged(buf, 35u8) {
            Ok(RespFrame::Boolean(b)) => Ok(b),
            Ok(_) => Err(RespError::of_kind(DecodeError::InvalidFrameType)),
            Err(x) => Err(x),
        }
    }

    fn expect_length(buf: &[u8]) -> (r: Result<usize, RespError>) {
        expect_length(buf)
    }
}

impl RespDecode for RespMap {
    open spec fn tag() -> Option<u8> {
        Some(37u8)
    }

    open spec fn frame_of(v: RespMap) -> Frame {
        Frame::RespMap(pairs_model(v.0))
    }

    fn decode(buf: &mut BytesMut) -> (r: Result<RespMap, RespError>) {
        match decode_tagged(buf, 37u8) {
            Ok(RespFrame::RespMap(m)) => Ok(m),
            Ok(_) => Err(RespError::of_kind(DecodeError::InvalidFrameType)),
            Err(x) => Err(x),
        }
    }

    fn expect_length(buf: &[u8]) -> (r: Result<usize, RespError>) {
        expect_length(buf)
    }
}

impl RespDecode for RespSet {
    open spec fn tag() -> Option<u8> {
        Some(126u8)
    }

    open spec fn frame_of(v: RespSet) -> Frame {
        Frame::RespSet(frames_model(v.0))
    }

    fn decode(buf: &mut BytesMut) -> (r: Result<RespSet, RespError>) {
        match decode_tagged(buf, 126u8) {
            Ok(RespFrame::RespSet(st)) => Ok(st),
            Ok(_) => Err(RespError::of_kind(DecodeError::InvalidFrameType)),
            Err(x) => Err(x),
        }
    }

    fn expect_length(buf: &[u8]) -> (r: Result<usize, RespError>) {
        expect_length(buf)
    }
}

} // verus!

//! The wire grammar, stated as functions on byte sequences: the encoding of a frame, the length
//! scan and the decoding of a buffer.
use vstd::prelude::*;
use vstd::utf8::*;

use crate::frame::Frame;

verus! {

pub const CR: u8 = 13;

pub const LF: u8 = 10;

/// What a decode or a length scan can fail with, as a model.
#[derive(PartialEq, Eq, Structural, Clone, Copy, Debug)]
pub enum DecodeError {
    NotComplete,
    InvalidFrameType,
    InvalidFrame,
    InvalidFrameLength,
    ParseInt,
}

pub open spec fn crlf() -> Seq<u8> {
    seq![CR, LF]
}

/// No CR and no LF byte in `b`.
pub open spec fn line_safe(b: Seq<u8>) -> bool {
    forall|i: int| 0 <= i < b.len() ==> b[i] != CR && b[i] != LF
}

pub open spec fn crlf_at(b: Seq<u8>, i: int) -> bool {
    0 <= i && i + 1 < b.len() && b[i] == CR && b[i + 1] == LF
}

/// The first position at or after `i` where `\r\n` starts.
pub open spec fn crlf_from(b: Seq<u8>, i: int) -> Option<int>
    decreases b.len() - i,
{
    if i < 0 || i + 1 >= b.len() {
        None
    } else if crlf_at(b, i) {
        Some(i)
    } else {
        crlf_from(b, i + 1)
    }
}

/// The position of the `n`th `\r\n` at or after `i`, counting from 1.
pub open spec fn nth_crlf_from(b: Seq<u8>, i: int, n: nat) -> Option<int>
    decreases b.len() - i,
{
    if n == 0 || i < 0 || i + 1 >= b.len() {
        None
    } else if crlf_at(b, i) {
        if n == 1 {
            Some(i)
        } else {
            nth_crlf_from(b, i + 1, (n - 1) as nat)
        }
    } else {
        nth_crlf_from(b, i + 1, n)
    }
}

/// The position of the first `\r\n` of a line, past its prefix byte.
pub open spec fn line_end(b: Seq<u8>) -> Option<int> {
    crlf_from(b, 1)
}

pub open spec fn is_digit(c: u8) -> bool {
    48 <= c <= 57
}

pub open spec fn all_digits(s: Seq<u8>) -> bool {
    forall|i: int| 0 <= i < s.len() ==> is_digit(#[trigger] s[i])
}

/// The number that a run of decimal digits spells.
pub open spec fn digits_value(s: Seq<u8>) -> nat
    decreases s.len(),
{
    if s.len() == 0 {
        0
    } else {
        digits_value(s.drop_last()) * 10 + (s.last() - 48) as nat
    }
}

/// One or more decimal digits, read as a number no larger than `max`.
pub open spec fn parse_digits(s: Seq<u8>, max: nat) -> Option<nat> {
    if s.len() > 0 && all_digits(s) && digits_value(s) <= max {
        Some(digits_value(s))
    } else {
        None
    }
}

/// A length: an optional `+`, then digits, that fits a `usize`.
pub open spec fn parse_len(s: Seq<u8>) -> Option<nat> {
    if s.len() > 0 && s[0] == 43u8 {
        parse_digits(s.skip(1), usize::MAX as nat)
    } else {
        parse_digits(s, usize::MAX as nat)
    }
}

/// A signed 64-bit integer: an optional `+` or `-`, then digits.
pub open spec fn parse_i64(s: Seq<u8>) -> Option<int> {
    if s.len() > 0 && s[0] == 45u8 {
        match parse_digits(s.skip(1), 0x8000_0000_0000_0000) {
            Some(v) => Some(-v),
            None => None,
        }
    } else if s.len() > 0 && s[0] == 43u8 {
        match parse_digits(s.skip(1), 0x7fff_ffff_ffff_ffff) {
            Some(v) => Some(v as int),
            None => None,
        }
    } else {
        match parse_digits(s, 0x7fff_ffff_ffff_ffff) {
            Some(v) => Some(v as int),
            None => None,
        }
    }
}

/// The decimal digits of `n`, most significant first.
pub open spec fn nat_text(n: nat) -> Seq<u8>
    decreases n,
{
    if n < 10 {
        seq![(48 + n) as u8]
    } else {
        nat_text(n / 10).push((48 + n % 10) as u8)
    }
}

/// The decimal text of `n`, with a `-` when it is negative.
pub open spec fn int_text(n: int) -> Seq<u8> {
    if n < 0 {
        seq![45u8] + nat_text((-n) as nat)
    } else {
        nat_text(n as nat)
    }
}

/// Name for what `String::from_utf8_lossy` makes of bytes that are not UTF-8.
pub uninterp spec fn lossy_text(b: Seq<u8>) -> Seq<char>;

/// The text that bytes stand for: their UTF-8 decoding where they are UTF-8.
pub open spec fn text_of(b: Seq<u8>) -> Seq<char> {
    if valid_utf8(b) {
        decode_utf8(b)
    } else {
        lossy_text(b)
    }
}

pub open spec fn null_bulk() -> Seq<u8> {
    seq![36u8, 45u8, 49u8, CR, LF]
}

pub open spec fn null_array() -> Seq<u8> {
    seq![42u8, 45u8, 49u8, CR, LF]
}

pub open spec fn null_text() -> Seq<u8> {
    seq![95u8, CR, LF]
}

pub open spec fn true_text() -> Seq<u8> {
    seq![35u8, 116u8, CR, LF]
}

pub open spec fn false_text() -> Seq<u8> {
    seq![35u8, 102u8, CR, LF]
}

/// The wire form of a frame.
pub open spec fn encode(f: Frame) -> Seq<u8>
    decreases f, 0nat,
{
    match f {
        Frame::SimpleString(s) => seq![43u8] + encode_utf8(s) + crlf(),
        Frame::SimpleError(s) => seq![45u8] + encode_utf8(s) + crlf(),
        Frame::Integer(n) => seq![58u8] + int_text(n) + crlf(),
        Frame::BulkString(None) => null_bulk(),
        Frame::BulkString(Some(b)) => seq![36u8] + nat_text(b.len()) + crlf() + b + crlf(),
        Frame::Array(None) => null_array(),
        Frame::Array(Some(xs)) => seq![42u8] + nat_text(xs.len()) + crlf() + encode_all(xs),
        Frame::Null => null_text(),
        Frame::Boolean(true) => true_text(),
        Frame::Boolean(false) => false_text(),
        Frame::RespMap(xs) => seq![37u8] + nat_text(xs.len() / 2) + crlf() + encode_all(xs),
        Frame::RespSet(xs) => seq![126u8] + nat_text(xs.len()) + crlf() + encode_all(xs),
    }
}

/// The wire forms of frames, one after the other.
pub open spec fn encode_all(xs: Seq<Frame>) -> Seq<u8>
    decreases xs, 1nat,
{
    if xs.len() == 0 {
        Seq::empty()
    } else {
        encode(xs[0]) + encode_all(xs.skip(1))
    }
}

/// A frame the encoder writes faithfully: text lines hold no CR or LF.
pub open spec fn wf(f: Frame) -> bool
    decreases f, 0nat,
{
    match f {
        Frame::SimpleString(s) => line_safe(encode_utf8(s)),
        Frame::SimpleError(s) => line_safe(encode_utf8(s)),
        Frame::Integer(n) => i64::MIN <= n <= i64::MAX,
        Frame::Array(Some(xs)) => wf_all(xs),
        Frame::RespMap(xs) => xs.len() % 2 == 0 && wf_all(xs),
        Frame::RespSet(xs) => wf_all(xs),
        _ => true,
    }
}

pub open spec fn wf_all(xs: Seq<Frame>) -> bool
    decreases xs, 1nat,
{
    if xs.len() == 0 {
        true
    } else {
        wf(xs[0]) && wf_all(xs.skip(1))
    }
}

/// The end of the line of a frame with prefix byte `tag`.
pub open spec fn simple_line(b: Seq<u8>, tag: u8) -> Result<int, DecodeError> {
    if b.len() < 3 {
        Err(DecodeError::NotComplete)
    } else if b[0] != tag {
        Err(DecodeError::InvalidFrameType)
    } else {
        match line_end(b) {
            Some(e) => Ok(e),
            None => Err(DecodeError::NotComplete),
        }
    }
}

/// Whether `b` starts with the fixed text `lit`.
pub open spec fn fixed(b: Seq<u8>, lit: Seq<u8>) -> Result<(), DecodeError> {
    if b.len() < lit.len() {
        Err(DecodeError::NotComplete)
    } else if b.take(lit.len() as int) != lit {
        Err(DecodeError::InvalidFrameType)
    } else {
        Ok(())
    }
}

/// The text of the line at the front of `b`, between its prefix byte and its `\r\n`.
pub open spec fn length_text(b: Seq<u8>) -> Seq<u8> {
    b.subrange(1, line_end(b)->Some_0)
}

/// The end of a length line and the length it holds; a negative number there is no length.
pub open spec fn length_line(b: Seq<u8>, tag: u8) -> Result<(int, nat), DecodeError> {
    match simple_line(b, tag) {
        Err(e) => Err(e),
        Ok(e) => match parse_len(b.subrange(1, e)) {
            Some(n) => Ok((e, n)),
            None => match parse_i64(b.subrange(1, e)) {
                Some(v) => if v < 0 {
                    Err(DecodeError::InvalidFrameLength)
                } else {
                    Err(DecodeError::ParseInt)
                },
                None => Err(DecodeError::ParseInt),
            },
        },
    }
}

/// How many frames follow the count line of an aggregate: two for each entry of a map.
pub open spec fn frame_count(tag: u8, n: nat) -> nat {
    if tag == 37u8 {
        2 * n
    } else {
        n
    }
}

/// A map's count whose frames could not be counted in a `usize` can never be complete.
pub open spec fn count_fits(tag: u8, n: nat) -> bool {
    frame_count(tag, n) <= usize::MAX
}

/// The byte count of the frame at the front of `b`, as far as the bytes present tell.
pub open spec fn expect_len(b: Seq<u8>) -> Result<nat, DecodeError>
    decreases b.len(), 0nat,
{
    if b.len() == 0 {
        Err(DecodeError::NotComplete)
    } else if b[0] == 43u8 || b[0] == 45u8 || b[0] == 58u8 {
        match simple_line(b, b[0]) {
            Ok(e) => Ok((e + 2) as nat),
            Err(x) => Err(x),
        }
    } else if b[0] == 36u8 {
        if fixed(b, null_bulk()) is Ok {
            Ok(5)
        } else {
            match length_line(b, 36u8) {
                Err(x) => Err(x),
                Ok((e, n)) => if e + 2 + n + 2 <= usize::MAX {
                    Ok((e + 2 + n + 2) as nat)
                } else {
                    Err(DecodeError::NotComplete)
                },
            }
        }
    } else if b[0] == 42u8 {
        if fixed(b, null_array()) is Ok {
            Ok(5)
        } else {
            match length_line(b, 42u8) {
                Err(x) => Err(x),
                Ok((e, n)) => if 1 <= e && e + 2 <= b.len() {
                    match walk(b.skip(e + 2), n) {
                        Ok(t) => Ok((e + 2 + t) as nat),
                        Err(x) => Err(x),
                    }
                } else {
                    Err(DecodeError::NotComplete)
                },
            }
        }
    } else if b[0] == 37u8 || b[0] == 126u8 {
        match length_line(b, b[0]) {
            Err(x) => Err(x),
            Ok((e, n)) => if count_fits(b[0], n) && 1 <= e && e + 2 <= b.len() {
                match walk(b.skip(e + 2), frame_count(b[0], n)) {
                    Ok(t) => Ok((e + 2 + t) as nat),
                    Err(x) => Err(x),
                }
            } else {
                Err(DecodeError::NotComplete)
            },
        }
    } else if b[0] == 95u8 {
        Ok(3)
    } else if b[0] == 35u8 {
        Ok(4)
    } else {
        Err(DecodeError::InvalidFrameType)
    }
}

/// The byte count of `n` frames one after the other at the front of `d`; all must be present.
pub open spec fn walk(d: Seq<u8>, n: nat) -> Result<nat, DecodeError>
    decreases d.len(), n + 1,
{
    if n == 0 {
        Ok(0)
    } else {
        match expect_len(d) {
            Err(x) => Err(x),
            Ok(k) => if k > d.len() {
                Err(DecodeError::NotComplete)
            } else {
                match walk(d.skip(k as int), (n - 1) as nat) {
                    Ok(t) => Ok(k + t),
                    Err(x) => Err(x),
                }
            },
        }
    }
}

/// A line frame: its text and the byte count.
pub open spec fn decode_line(b: Seq<u8>, tag: u8) -> Result<(Seq<u8>, nat), DecodeError> {
    match simple_line(b, tag) {
        Err(x) => Err(x),
        Ok(e) => Ok((b.subrange(1, e), (e + 2) as nat)),
    }
}

pub open spec fn decode_integer(b: Seq<u8>) -> Result<(Frame, nat), DecodeError> {
    match decode_line(b, 58u8) {
        Err(x) => Err(x),
        Ok((t, k)) => match parse_i64(t) {
            Some(v) => Ok((Frame::Integer(v), k)),
            None => Err(DecodeError::ParseInt),
        },
    }
}

pub open spec fn decode_bulk(b: Seq<u8>) -> Result<(Frame, nat), DecodeError> {
    if fixed(b, null_bulk()) is Ok {
        Ok((Frame::BulkString(None), 5))
    } else {
        match length_line(b, 36u8) {
            Err(x) => Err(x),
            Ok((e, n)) => if b.len() < e + 2 + n + 2 {
                Err(DecodeError::NotComplete)
            } else {
                Ok((Frame::BulkString(Some(b.subrange(e + 2, e + 2 + n))), (e + 2 + n + 2) as nat))
            },
        }
    }
}

pub open spec fn decode_null(b: Seq<u8>) -> Result<(Frame, nat), DecodeError> {
    match fixed(b, null_text()) {
        Ok(_) => Ok((Frame::Null, 3)),
        Err(x) => Err(x),
    }
}

pub open spec fn decode_bool(b: Seq<u8>) -> Result<(Frame, nat), DecodeError> {
    match fixed(b, true_text()) {
        Ok(_) => Ok((Frame::Boolean(true), 4)),
        Err(DecodeError::NotComplete) => Err(DecodeError::NotComplete),
        Err(_) => match fixed(b, false_text()) {
            Ok(_) => Ok((Frame::Boolean(false), 4)),
            Err(x) => Err(x),
        },
    }
}

/// An array: the null form, or a count line, a length scan of the whole, then the frames.
pub open spec fn decode_array(b: Seq<u8>) -> Result<(Frame, nat), DecodeError>
    decreases b.len(), 1nat,
{
    if fixed(b, null_array()) is Ok {
        Ok((Frame::Array(None), 5))
    } else {
        match length_line(b, 42u8) {
            Err(x) => Err(x),
            Ok((e, n)) => if 1 <= e && e + 2 <= b.len() {
                match walk(b.skip(e + 2), n) {
                    Err(x) => Err(x),
                    Ok(t) => if b.len() < e + 2 + t {
                        Err(DecodeError::NotComplete)
                    } else {
                        match decode_many(b.skip(e + 2), n) {
                            Ok((xs, k)) => Ok((Frame::Array(Some(xs)), (e + 2 + k) as nat)),
                            Err(x) => Err(x),
                        }
                    },
                }
            } else {
                Err(DecodeError::NotComplete)
            },
        }
    }
}

/// A map or a set: a count line, a length scan of the whole, then the frames.
pub open spec fn decode_collection(b: Seq<u8>, tag: u8) -> Result<(Frame, nat), DecodeError>
    decreases b.len(), 1nat,
{
    match length_line(b, tag) {
        Err(x) => Err(x),
        Ok((e, n)) => if count_fits(tag, n) && 1 <= e && e + 2 <= b.len() {
            match walk(b.skip(e + 2), frame_count(tag, n)) {
                Err(x) => Err(x),
                Ok(t) => if b.len() < e + 2 + t {
                    Err(DecodeError::NotComplete)
                } else {
                    match decode_many(b.skip(e + 2), frame_count(tag, n)) {
                        Ok((xs, k)) => Ok(
                            (
                                if tag == 37u8 {
                                    Frame::RespMap(xs)
                                } else {
                                    Frame::RespSet(xs)
                                },
                                (e + 2 + k) as nat,
                            ),
                        ),
                        Err(x) => Err(x),
                    }
                },
            }
        } else {
            Err(DecodeError::NotComplete)
        },
    }
}

/// The frame at the front of `b` and its byte count.
pub open spec fn decode(b: Seq<u8>) -> Result<(Frame, nat), DecodeError>
    decreases b.len(), 2nat,
{
    if b.len() == 0 {
        Err(DecodeError::NotComplete)
    } else if b[0] == 43u8 {
        match decode_line(b, 43u8) {
            Ok((t, k)) => Ok((Frame::SimpleString(text_of(t)), k)),
            Err(x) => Err(x),
        }
    } else if b[0] == 45u8 {
        match decode_line(b, 45u8) {
            Ok((t, k)) => Ok((Frame::SimpleError(text_of(t)), k)),
            Err(x) => Err(x),
        }
    } else if b[0] == 58u8 {
        decode_integer(b)
    } else if b[0] == 36u8 {
        decode_bulk(b)
    } else if b[0] == 42u8 {
        decode_array(b)
    } else if b[0] == 37u8 || b[0] == 126u8 {
        decode_collection(b, b[0])
    } else if b[0] == 95u8 {
        decode_null(b)
    } else if b[0] == 35u8 {
        decode_bool(b)
    } else {
        Err(DecodeError::InvalidFrameType)
    }
}

/// `n` frames one after the other at the front of `d`, and their byte count.
pub open spec fn decode_many(d: Seq<u8>, n: nat) -> Result<(Seq<Frame>, nat), DecodeError>
    decreases d.len(), n + 3,
{
    if n == 0 {
        Ok((Seq::empty(), 0))
    } else {
        match decode(d) {
            Err(x) => Err(x),
            Ok((f, k)) => if k > d.len() {
                Err(DecodeError::NotComplete)
            } else {
                match decode_many(d.skip(k as int), (n - 1) as nat) {
                    Ok((fs, t)) => Ok((seq![f] + fs, k + t)),
                    Err(x) => Err(x),
                }
            },
        }
    }
}

} // verus!

//! The decoder: frames and length scans read from a byte slice at an offset, proved to follow
//! the grammar of `wire`.
use vstd::prelude::*;

use crate::error::{fails_as, RespError};
use crate::frame::{
    frames_model, pairs_model, BulkString, Frame, RespArray, RespFrame, RespMap, RespNull, RespSet,
    SimpleError, SimpleString,
};
use crate::scan::{extract_fixed_data, extract_simple_frame_data, parse_digits_at, text_at};
use crate::wire::{
    decode, decode_array, decode_collection, decode_many, expect_len, false_text, fixed,
    frame_count, length_line, length_text, null_array, null_bulk, null_text, parse_i64, true_text,
    walk, DecodeError, CR, LF,
};

verus! {

/// The end of the length line at `pos` and the length it holds.
pub fn parse_length(buf: &[u8], pos: usize, tag: u8) -> (r: Result<(usize, usize), RespError>)
    requires
        pos <= buf@.len(),
    ensures
        match length_line(buf@.skip(pos as int), tag) {
            Ok((e, n)) => r is Ok && r->Ok_0.0 == e && r->Ok_0.1 == n,
            Err(x) => fails_as(r, x),
        },
        r is Ok ==> 1 <= r->Ok_0.0 && r->Ok_0.0 + 2 <= buf@.len() - pos,
        length_line(buf@.skip(pos as int), tag) == Err::<(int, nat), DecodeError>(
            DecodeError::InvalidFrameLength,
        ) ==> r == Err::<(usize, usize), RespError>(
            RespError::InvalidFrameLength(
                parse_i64(length_text(buf@.skip(pos as int)))->Some_0 as i64,
            ),
        ),
{
    let ghost d = buf@.skip(pos as int);
    let len = buf.len();
    let e = match extract_simple_frame_data(buf, pos, tag) {
        Ok(e) => e,
        Err(x) => {
            return Err(x);
        },
    };
    let ghost s = d.subrange(1, e as int);
    let lo: usize = pos + 1;
    let hi: usize = pos + e;
    assert(buf@.subrange(lo as int, hi as int) =~= s);
    let v = if lo < hi && buf[lo] == 43u8 {
        assert(buf@.subrange(lo + 1, hi as int) =~= s.skip(1));
        parse_digits_at(buf, lo + 1, hi, usize::MAX as u64)
    } else {
        parse_digits_at(buf, lo, hi, usize::MAX as u64)
    };
    match v {
        Some(n) => Ok((e, n as usize)),
        None => match parse_integer(buf, lo, hi) {
            Some(x) => if x < 0 {
                Err(RespError::InvalidFrameLength(x))
            } else {
                Err(RespError::of_kind(DecodeError::ParseInt))
            },
            None => Err(RespError::of_kind(DecodeError::ParseInt)),
        },
    }
}

/// The integer that `buf[lo..hi]` spells, when it is one.
pub fn parse_integer(buf: &[u8], lo: usize, hi: usize) -> (r: Option<i64>)
    requires
        lo <= hi <= buf@.len(),
    ensures
        match parse_i64(buf@.subrange(lo as int, hi as int)) {
            Some(v) => r == Some(v as i64),
            None => r is None,
        },
{
    let ghost s = buf@.subrange(lo as int, hi as int);
    if lo < hi && buf[lo] == 45u8 {
        assert(buf@.subrange(lo + 1, hi as int) =~= s.skip(1));
        match parse_digits_at(buf, lo + 1, hi, 0x8000_0000_0000_0000u64) {
            Some(v) => if v == 0x8000_0000_0000_0000u64 {
                Some(i64::MIN)
            } else {
                Some(-(v as i64))
            },
            None => None,
        }
    } else if lo < hi && buf[lo] == 43u8 {
        assert(buf@.subrange(lo + 1, hi as int) =~= s.skip(1));
        match parse_digits_at(buf, lo + 1, hi, 0x7fff_ffff_ffff_ffffu64) {
            Some(v) => Some(v as i64),
            None => None,
        }
    } else {
        match parse_digits_at(buf, lo, hi, 0x7fff_ffff_ffff_ffffu64) {
            Some(v) => Some(v as i64),
            None => None,
        }
    }
}

pub open spec fn expect_matches(r: Result<usize, RespError>, s: Result<nat, DecodeError>) -> bool {
    match s {
        Ok(n) => r is Ok && r->Ok_0 == n,
        Err(x) => fails_as(r, x),
    }
}

/// The byte count of the frame at `pos`, as far as the bytes present tell.
pub fn expect_at(buf: &[u8], pos: usize) -> (r: Result<usize, RespError>)
    requires
        pos <= buf@.len(),
    ensures
        expect_matches(r, expect_len(buf@.skip(pos as int))),
        r is Ok ==> r->Ok_0 >= 3,
    decreases buf@.len() - pos, 1nat,
{
    let ghost d = buf@.skip(pos as int);
    let len = buf.len();
    if pos == buf.len() {
        return Err(RespError::NotComplete);
    }
    let c = buf[pos];
    if c == 43u8 || c == 45u8 || c == 58u8 {
        let e = match extract_simple_frame_data(buf, pos, c) {
            Ok(e) => e,
            Err(x) => {
                return Err(x);
            },
        };
        proof {
            crate::laws::lemma_line_end_bounds(d);
        }
        Ok(e + 2)
    } else if c == 36u8 {
        let nb = vec![36u8, 45u8, 49u8, CR, LF];
        assert(nb@ =~= null_bulk());
        if extract_fixed_data(buf, pos, nb.as_slice()).is_ok() {
            return Ok(5);
        }
        let (e, n) = match parse_length(buf, pos, 36u8) {
            Ok(v) => v,
            Err(x) => {
                return Err(x);
            },
        };
        proof {
            crate::laws::lemma_line_end_bounds(d);
        }
        if e > usize::MAX - 4 || n > usize::MAX - 4 - e {
            return Err(RespError::NotComplete);
        }
        Ok(e + 2 + n + 2)
    } else if c == 42u8 {
        let na = vec![42u8, 45u8, 49u8, CR, LF];
        assert(na@ =~= null_array());
        if extract_fixed_data(buf, pos, na.as_slice()).is_ok() {
            return Ok(5);
        }
        match parse_length(buf, pos, c) {
            Ok((e, n)) => calc_total_length(buf, pos, e, n),
            Err(x) => Err(x),
        }
    } else if c == 37u8 || c == 126u8 {
        match parse_length(buf, pos, c) {
            Ok((e, n)) => calc_total_length(buf, pos, e, n),
            Err(x) => Err(x),
        }
    } else if c == 95u8 {
        Ok(3)
    } else if c == 35u8 {
        Ok(4)
    } else {
        Err(RespError::of_kind(DecodeError::InvalidFrameType))
    }
}

/// Whether `tag` opens an aggregate: an array, a map or a set.
pub open spec fn is_aggregate(tag: u8) -> bool {
    tag == 42u8 || tag == 37u8 || tag == 126u8
}

/// The byte count of the frame at `pos`, given the end `end` of its length line and the length
/// `len` it holds. For an aggregate it is the length line and the frames it counts, which must
/// all be present; for another frame it is `len` payload bytes and the `\r\n` after them.
pub fn calc_total_length(buf: &[u8], pos: usize, end: usize, len: usize) -> (r: Result<usize, RespError>)
    requires
        pos < buf@.len(),
        is_aggregate(buf@[pos as int]) ==> length_line(buf@.skip(pos as int), buf@[pos as int])
            == Ok::<(int, nat), DecodeError>((end as int, len as nat)),
        buf@[pos as int] == 42u8 ==> fixed(buf@.skip(pos as int), null_array()) is Err,
    ensures
        is_aggregate(buf@[pos as int]) ==> expect_matches(r, expect_len(buf@.skip(pos as int))),
        is_aggregate(buf@[pos as int]) && r is Ok ==> 3 <= r->Ok_0 <= buf@.len() - pos,
        !is_aggregate(buf@[pos as int]) ==> (if len + 2 <= usize::MAX {
            r == Ok::<usize, RespError>((len + 2) as usize)
        } else {
            r == Err::<usize, RespError>(RespError::NotComplete)
        }),
    decreases buf@.len() - pos, 0nat,
{
    let ghost d = buf@.skip(pos as int);
    let blen = buf.len();
    let tag = buf[pos];
    if !(tag == 42u8 || tag == 37u8 || tag == 126u8) {
        if len > usize::MAX - 2 {
            return Err(RespError::NotComplete);
        }
        return Ok(len + 2);
    }
    let e = end;
    let n = len;
    proof {
        crate::laws::lemma_line_end_bounds(d);
        assert(d.skip(e + 2) =~= buf@.skip(pos + e + 2));
    }
    let m: usize = if tag == 37u8 {
        if n > usize::MAX / 2 {
            return Err(RespError::NotComplete);
        }
        2 * n
    } else {
        n
    };
    assert(m == frame_count(tag, n as nat));
    let t = match walk_at(buf, pos + e + 2, m) {
        Ok(t) => t,
        Err(x) => {
            return Err(x);
        },
    };
    Ok(e + 2 + t)
}

/// The byte count of `n` frames one after the other at `pos`, all of which must be present.
pub fn walk_at(buf: &[u8], pos: usize, n: usize) -> (r: Result<usize, RespError>)
    requires
        pos <= buf@.len(),
    ensures
        expect_matches(r, walk(buf@.skip(pos as int), n as nat)),
        r is Ok ==> r->Ok_0 <= buf@.len() - pos,
    decreases buf@.len() - pos, 2nat,
{
    let mut p: usize = pos;
    let mut m: usize = n;
    let mut acc: usize = 0;
    while m > 0
        invariant
            pos <= p <= buf@.len(),
            acc == p - pos,
            m <= n,
            walk(buf@.skip(pos as int), n as nat) == (match walk(buf@.skip(p as int), m as nat) {
                Ok(t) => Ok::<nat, DecodeError>((acc + t) as nat),
                Err(x) => Err(x),
            }),
        decreases m,
    {
        let ghost dp = buf@.skip(p as int);
        let k = match expect_at(buf, p) {
            Ok(k) => k,
            Err(x) => {
                return Err(x);
            },
        };
        if k > buf.len() - p {
            return Err(RespError::NotComplete);
        }
        assert(dp.skip(k as int) =~= buf@.skip(p + k));
        p = p + k;
        m = m - 1;
        acc = acc + k;
    }
    Ok(acc)
}

pub open spec fn decode_matches(r: Result<(RespFrame, usize), RespError>, s: Result<(Frame, nat), DecodeError>) -> bool {
    match s {
        Ok((f, k)) => r is Ok && r->Ok_0.0.model() == f && r->Ok_0.1 == k,
        Err(x) => fails_as(r, x),
    }
}

/// The frame at `pos` and its byte count.
pub fn decode_at(buf: &[u8], pos: usize) -> (r: Result<(RespFrame, usize), RespError>)
    requires
        pos <= buf@.len(),
    ensures
        decode_matches(r, decode(buf@.skip(pos as int))),
        r is Ok ==> r->Ok_0.1 <= buf@.len() - pos,
    decreases buf@.len() - pos, 1nat,
{
    let ghost d = buf@.skip(pos as int);
    let len = buf.len();
    if pos == len {
        return Err(RespError::NotComplete);
    }
    let c = buf[pos];
    if c == 43u8 || c == 45u8 || c == 58u8 {
        let e = match extract_simple_frame_data(buf, pos, c) {
            Ok(e) => e,
            Err(x) => {
                return Err(x);
            },
        };
        assert(buf@.subrange(pos + 1, pos + e) =~= d.subrange(1, e as int));
        if c == 58u8 {
            match parse_integer(buf, pos + 1, pos + e) {
                Some(v) => Ok((RespFrame::Integer(v), e + 2)),
                None => Err(RespError::of_kind(DecodeError::ParseInt)),
            }
        } else {
            let t = text_at(buf, pos + 1, pos + e);
            if c == 43u8 {
                Ok((RespFrame::SimpleString(SimpleString(t)), e + 2))
            } else {
                Ok((RespFrame::SimpleError(SimpleError(t)), e + 2))
            }
        }
    } else if c == 36u8 {
        let nb = vec![36u8, 45u8, 49u8, CR, LF];
        assert(nb@ =~= null_bulk());
        if extract_fixed_data(buf, pos, nb.as_slice()).is_ok() {
            return Ok((RespFrame::BulkString(BulkString(None)), 5));
        }
        let (e, n) = match parse_length(buf, pos, 36u8) {
            Ok(v) => v,
            Err(x) => {
                return Err(x);
            },
        };
        if n > len - pos - e - 2 || len - pos - e - 2 - n < 2 {
            return Err(RespError::NotComplete);
        }
        let mut data: Vec<u8> = Vec::new();
        let start: usize = pos + e + 2;
        let end: usize = start + n;
        let mut i: usize = start;
        while i < end
            invariant
                start <= i <= end <= buf@.len(),
                end == start + n,
                data@ == buf@.subrange(start as int, i as int),
            decreases end - i,
        {
            data.push(buf[i]);
            i += 1;
        }
        assert(data@ =~= d.subrange(e + 2, e + 2 + n));
        Ok((RespFrame::BulkString(BulkString(Some(data))), e + 2 + n + 2))
    } else if c == 42u8 {
        decode_array_at(buf, pos)
    } else if c == 37u8 || c == 126u8 {
        decode_collection_at(buf, pos)
    } else if c == 95u8 {
        let nt = vec![95u8, CR, LF];
        assert(nt@ =~= null_text());
        match extract_fixed_data(buf, pos, nt.as_slice()) {
            Ok(_) => Ok((RespFrame::Null(RespNull), 3)),
            Err(x) => Err(x),
        }
    } else if c == 35u8 {
        let tt = vec![35u8, 116u8, CR, LF];
        assert(tt@ =~= true_text());
        match extract_fixed_data(buf, pos, tt.as_slice()) {
            Ok(_) => Ok((RespFrame::Boolean(true), 4)),
            Err(RespError::NotComplete) => Err(RespError::NotComplete),
            Err(_) => {
                let ft = vec![35u8, 102u8, CR, LF];
                assert(ft@ =~= false_text());
                match extract_fixed_data(buf, pos, ft.as_slice()) {
                    Ok(_) => Ok((RespFrame::Boolean(false), 4)),
                    Err(x) => Err(x),
                }
            },
        }
    } else {
        Err(RespError::of_kind(DecodeError::InvalidFrameType))
    }
}

/// Copies of the frames, taken two at a time as key and value.
fn pair_up(frames: &Vec<RespFrame>) -> (r: Vec<(RespFrame, RespFrame)>)
    requires
        frames.len() % 2 == 0,
    ensures
        pairs_model(r) == frames_model(*frames),
{
    let mut out: Vec<(RespFrame, RespFrame)> = Vec::new();
    let mut i: usize = 0;
    while i < frames.len() / 2
        invariant
            frames.len() % 2 == 0,
            i <= frames.len() / 2,
            out.len() == i,
            forall|j: int|
                0 <= j < i ==> (#[trigger] out[j]).0.model() == frames[2 * j].model()
                    && out[j].1.model() == frames[2 * j + 1].model(),
        decreases frames.len() / 2 - i,
    {
        out.push((frames[2 * i].deep_copy(), frames[2 * i + 1].deep_copy()));
        i += 1;
    }
    assert(pairs_model(out) =~= frames_model(*frames));
    out
}

/// The array at `pos`: the null form, or a count line, a length scan of the whole, then the
/// frames.
fn decode_array_at(buf: &[u8], pos: usize) -> (r: Result<(RespFrame, usize), RespError>)
    requires
        pos < buf@.len(),
        buf@[pos as int] == 42u8,
    ensures
        decode_matches(r, decode_array(buf@.skip(pos as int))),
        r is Ok ==> r->Ok_0.1 <= buf@.len() - pos,
    decreases buf@.len() - pos, 0nat,
{
    let ghost d = buf@.skip(pos as int);
    let len = buf.len();
    let na = vec![42u8, 45u8, 49u8, CR, LF];
    assert(na@ =~= null_array());
    if extract_fixed_data(buf, pos, na.as_slice()).is_ok() {
        return Ok((RespFrame::Array(RespArray(None)), 5));
    }
    let (e, n) = match parse_length(buf, pos, 42u8) {
        Ok(v) => v,
        Err(x) => {
            return Err(x);
        },
    };
    assert(d.skip(e + 2) =~= buf@.skip(pos + e + 2));
    let total = match calc_total_length(buf, pos, e, n) {
        Ok(t) => t,
        Err(x) => {
            return Err(x);
        },
    };
    let (frames, k) = match decode_many_at(buf, pos + e + 2, n) {
        Ok(v) => v,
        Err(x) => {
            return Err(x);
        },
    };
    Ok((RespFrame::Array(RespArray(Some(frames))), e + 2 + k))
}

/// The map or set at `pos`: a count line, a length scan of the whole, then the frames.
fn decode_collection_at(buf: &[u8], pos: usize) -> (r: Result<(RespFrame, usize), RespError>)
    requires
        pos < buf@.len(),
        buf@[pos as int] == 37u8 || buf@[pos as int] == 126u8,
    ensures
        decode_matches(r, decode_collection(buf@.skip(pos as int), buf@[pos as int])),
        r is Ok ==> r->Ok_0.1 <= buf@.len() - pos,
    decreases buf@.len() - pos, 0nat,
{
    let ghost d = buf@.skip(pos as int);
    let len = buf.len();
    let c = buf[pos];
    let (e, n) = match parse_length(buf, pos, c) {
        Ok(v) => v,
        Err(x) => {
            return Err(x);
        },
    };
    assert(d.skip(e + 2) =~= buf@.skip(pos + e + 2));
    let m: usize = if c == 37u8 {
        if n > usize::MAX / 2 {
            return Err(RespError::NotComplete);
        }
        2 * n
    } else {
        n
    };
    assert(m == frame_count(c, n as nat));
    let total = match calc_total_length(buf, pos, e, n) {
        Ok(t) => t,
        Err(x) => {
            return Err(x);
        },
    };
    let (frames, k) = match decode_many_at(buf, pos + e + 2, m) {
        Ok(v) => v,
        Err(x) => {
            return Err(x);
        },
    };
    if c == 37u8 {
        Ok((RespFrame::RespMap(RespMap(pair_up(&frames))), e + 2 + k))
    } else {
        Ok((RespFrame::RespSet(RespSet(frames)), e + 2 + k))
    }
}

pub open spec fn many_matches(r: Result<(Vec<RespFrame>, usize), RespError>, s: Result<(Seq<Frame>, nat), DecodeError>) -> bool {
    match s {
        Ok((xs, k)) => r is Ok && frames_model(r->Ok_0.0) == xs && r->Ok_0.1 == k,
        Err(x) => fails_as(r, x),
    }
}

/// `n` frames one after the other at `pos`, and their byte count.
pub fn decode_many_at(buf: &[u8], pos: usize, n: usize) -> (r: Result<(Vec<RespFrame>, usize), RespError>)
    requires
        pos <= buf@.len(),
    ensures
        many_matches(r, decode_many(buf@.skip(pos as int), n as nat)),
        r is Ok ==> r->Ok_0.1 <= buf@.len() - pos && r->Ok_0.0.len() == n,
    decreases buf@.len() - pos, 2nat,
{
    let len = buf.len();
    let mut out: Vec<RespFrame> = Vec::new();
    let mut p: usize = pos;
    let mut m: usize = n;
    while m > 0
        invariant
            len == buf@.len(),
            pos <= p <= buf@.len(),
            m <= n,
            out.len() == n - m,
            decode_many(buf@.skip(pos as int), n as nat) == (match decode_many(buf@.skip(p as int), m as nat) {
                Ok((fs, t)) => Ok::<(Seq<Frame>, nat), DecodeError>((frames_model(out) + fs, (p - pos + t) as nat)),
                Err(x) => Err(x),
            }),
        decreases m,
    {
        let ghost dp = buf@.skip(p as int);
        let ghost before = frames_model(out);
        let (f, k) = match decode_at(buf, p) {
            Ok(v) => v,
            Err(x) => {
                return Err(x);
            },
        };
        assert(dp.skip(k as int) =~= buf@.skip(p + k));
        out.push(f);
        assert(frames_model(out) =~= before.push(f.model()));
        proof {
            let rest = decode_many(buf@.skip(p + k), (m - 1) as nat);
            if let Ok((fs, t)) = rest {
                assert(before + (seq![f.model()] + fs) =~= before.push(f.model()) + fs);
            }
        }
        p = p + k;
        m = m - 1;
    }
    assert(frames_model(out) + Seq::<Frame>::empty() =~= frames_model(out));
    Ok((out, p - pos))
}

} // verus!

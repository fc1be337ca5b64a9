//! Scanning a line frame: its end, fixed texts, digits and text.
use vstd::prelude::*;

use crate::error::{fails_as, RespError};
use crate::wire::{
    all_digits, crlf_from, digits_value, fixed, is_digit, line_end, lossy_text, nth_crlf_from,
    parse_digits, simple_line, text_of, DecodeError, CR, LF,
};

verus! {

/// Relies on `String::from_utf8_lossy`: UTF-8 bytes are decoded as they are.
#[verifier::external_body]
fn lossy_string(b: &[u8]) -> (r: String)
    ensures
        vstd::utf8::valid_utf8(b@) ==> r@ == vstd::utf8::decode_utf8(b@),
        !vstd::utf8::valid_utf8(b@) ==> r@ == lossy_text(b@),
{
    String::from_utf8_lossy(b).into_owned()
}

/// The text of the bytes `buf[lo..hi]`.
pub fn text_at(buf: &[u8], lo: usize, hi: usize) -> (r: String)
    requires
        lo <= hi <= buf@.len(),
    ensures
        r@ == text_of(buf@.subrange(lo as int, hi as int)),
{
    let mut v: Vec<u8> = Vec::new();
    let mut i: usize = lo;
    while i < hi
        invariant
            lo <= i <= hi <= buf@.len(),
            v@ == buf@.subrange(lo as int, i as int),
        decreases hi - i,
    {
        v.push(buf[i]);
        i += 1;
    }
    lossy_string(v.as_slice())
}

/// The position, relative to `pos`, of the first `\r\n` of the line at `pos`, searching from
/// the byte after its prefix.
pub fn line_end_at(buf: &[u8], pos: usize) -> (r: Option<usize>)
    requires
        pos <= buf@.len(),
    ensures
        match line_end(buf@.skip(pos as int)) {
            Some(e) => r == Some(e as usize),
            None => r is None,
        },
{
    let ghost d = buf@.skip(pos as int);
    if buf.len() - pos < 2 {
        return None;
    }
    let mut i: usize = pos + 1;
    while i < buf.len() - 1
        invariant
            pos < i,
            buf@.len() >= 2,
            pos <= buf@.len(),
            d == buf@.skip(pos as int),
            crlf_from(d, 1) == crlf_from(d, (i - pos) as int),
        decreases buf.len() - i,
    {
        if buf[i] == CR && buf[i + 1] == LF {
            return Some(i - pos);
        }
        i += 1;
    }
    None
}

/// The position of the `nth` `\r\n` of `buf`, counting from 1 and searching from the byte
/// after the first, which never counts.
pub fn find_crlf(buf: &[u8], nth: usize) -> (r: Option<usize>)
    ensures
        match nth_crlf_from(buf@, 1, nth as nat) {
            Some(i) => r == Some(i as usize),
            None => r is None,
        },
{
    let ghost b = buf@;
    if nth == 0 || buf.len() < 2 {
        return None;
    }
    let mut count: usize = 0;
    let mut i: usize = 1;
    while i < buf.len() - 1
        invariant
            b == buf@,
            b.len() >= 2,
            1 <= i,
            count < nth,
            nth_crlf_from(b, 1, nth as nat) == nth_crlf_from(b, i as int, (nth - count) as nat),
        decreases buf.len() - i,
    {
        if buf[i] == CR && buf[i + 1] == LF {
            count += 1;
            if count == nth {
                return Some(i);
            }
        }
        i += 1;
    }
    None
}

/// The end of the line at `pos` of a frame whose prefix byte is `tag`.
pub fn extract_simple_frame_data(buf: &[u8], pos: usize, tag: u8) -> (r: Result<usize, RespError>)
    requires
        pos <= buf@.len(),
    ensures
        match simple_line(buf@.skip(pos as int), tag) {
            Ok(e) => r is Ok && r->Ok_0 == e,
            Err(x) => fails_as(r, x),
        },
        r is Ok ==> 1 <= r->Ok_0 && r->Ok_0 + 2 <= buf@.len() - pos,
{
    proof {
        crate::laws::lemma_line_end_bounds(buf@.skip(pos as int));
    }
    if buf.len() - pos < 3 {
        return Err(RespError::NotComplete);
    }
    if buf[pos] != tag {
        return Err(RespError::of_kind(DecodeError::InvalidFrameType));
    }
    match line_end_at(buf, pos) {
        Some(e) => Ok(e),
        None => Err(RespError::NotComplete),
    }
}

/// Whether the bytes at `pos` start with `lit`.
pub fn extract_fixed_data(buf: &[u8], pos: usize, lit: &[u8]) -> (r: Result<(), RespError>)
    requires
        pos <= buf@.len(),
    ensures
        match fixed(buf@.skip(pos as int), lit@) {
            Ok(_) => r is Ok,
            Err(x) => fails_as(r, x),
        },
{
    let ghost d = buf@.skip(pos as int);
    if buf.len() - pos < lit.len() {
        return Err(RespError::NotComplete);
    }
    let mut i: usize = 0;
    while i < lit.len()
        invariant
            i <= lit@.len(),
            lit@.len() <= d.len(),
            pos + lit.len() <= buf.len(),
            d == buf@.skip(pos as int),
            d.take(i as int) == lit@.take(i as int),
        decreases lit.len() - i,
    {
        if buf[pos + i] != lit[i] {
            assert(d.take(lit@.len() as int)[i as int] != lit@[i as int]);
            return Err(RespError::of_kind(DecodeError::InvalidFrameType));
        }
        assert(d.take(i + 1) =~= d.take(i as int).push(d[i as int]));
        assert(lit@.take(i + 1) =~= lit@.take(i as int).push(lit@[i as int]));
        i += 1;
    }
    assert(lit@.take(i as int) =~= lit@);
    Ok(())
}

pub proof fn lemma_digits_prefix(s: Seq<u8>, j: int)
    requires
        all_digits(s),
        0 <= j <= s.len(),
    ensures
        digits_value(s.take(j)) <= digits_value(s),
    decreases s.len(),
{
    if j < s.len() {
        let t = s.drop_last();
        assert(all_digits(t));
        lemma_digits_prefix(t, j);
        assert(t.take(j) =~= s.take(j));
    } else {
        assert(s.take(j) =~= s);
    }
}

/// The number that `buf[lo..hi]` spells when it is one or more digits and at most `max`.
pub fn parse_digits_at(buf: &[u8], lo: usize, hi: usize, max: u64) -> (r: Option<u64>)
    requires
        lo <= hi <= buf@.len(),
    ensures
        match parse_digits(buf@.subrange(lo as int, hi as int), max as nat) {
            Some(v) => r == Some(v as u64),
            None => r is None,
        },
{
    let ghost s = buf@.subrange(lo as int, hi as int);
    if lo == hi {
        return None;
    }
    let mut acc: u64 = 0;
    let mut i: usize = lo;
    while i < hi
        invariant
            lo <= i <= hi <= buf@.len(),
            s == buf@.subrange(lo as int, hi as int),
            all_digits(s.take(i - lo)),
            acc as nat == digits_value(s.take(i - lo)),
            acc <= max,
        decreases hi - i,
    {
        let c = buf[i];
        let ghost k = i - lo;
        assert(s.take(k + 1).drop_last() =~= s.take(k));
        if c < 48 || c > 57 {
            assert(!is_digit(s[k]));
            return None;
        }
        let d: u64 = (c - 48) as u64;
        if d > max || acc > (max - d) / 10 {
            assert(acc * 10 + d > max) by (nonlinear_arith)
                requires d > max || acc > (max - d) / 10, acc >= 0;
            proof {
                if all_digits(s) {
                    lemma_digits_prefix(s, k + 1);
                }
            }
            return None;
        }
        assert(acc * 10 + d <= max) by (nonlinear_arith)
            requires acc <= (max - d) / 10, d <= max;
        acc = acc * 10 + d;
        i += 1;
    }
    assert(s.take(hi - lo) =~= s);
    Some(acc)
}

} // verus!

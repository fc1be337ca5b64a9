//! What holds of the codec as a whole: round trip, incremental decoding, the length scan and
//! the null forms.
use vstd::prelude::*;
use vstd::utf8::{encode_utf8_decode_utf8, encode_utf8_valid_utf8};

use crate::frame::Frame;
use crate::wire::{
    all_digits, crlf, crlf_at, crlf_from, decode, decode_many, digits_value, encode, encode_all,
    count_fits, expect_len, false_text, fixed, frame_count, int_text, is_digit, length_line, line_end, line_safe,
    nat_text, null_array, null_bulk, null_text, parse_digits, parse_i64, parse_len, simple_line,
    text_of, true_text, walk, wf, wf_all, DecodeError, CR, LF,
};

verus! {

/// Where the search from `i` finds a `\r\n`, it stands there and not before.
pub proof fn lemma_crlf_from_bounds(b: Seq<u8>, i: int)
    requires
        i >= 0,
    ensures
        crlf_from(b, i) matches Some(e) ==> i <= e && e + 2 <= b.len() && crlf_at(b, e),
    decreases b.len() - i,
{
    if i + 1 < b.len() && !crlf_at(b, i) {
        lemma_crlf_from_bounds(b, i + 1);
    }
}

pub proof fn lemma_line_end_bounds(b: Seq<u8>)
    ensures
        line_end(b) matches Some(e) ==> 1 <= e && e + 2 <= b.len() && crlf_at(b, e),
{
    lemma_crlf_from_bounds(b, 1);
}

proof fn lemma_crlf_scan(b: Seq<u8>, i: int, m: int)
    requires
        0 <= i <= m,
        forall|j: int| i <= j < m ==> !crlf_at(b, j),
        crlf_at(b, m),
    ensures
        crlf_from(b, i) == Some(m),
    decreases m - i,
{
    if i < m {
        lemma_crlf_scan(b, i + 1, m);
    }
}

proof fn lemma_crlf_none(b: Seq<u8>, i: int)
    requires
        0 <= i,
        forall|j: int| i <= j ==> !crlf_at(b, j),
    ensures
        crlf_from(b, i) is None,
    decreases b.len() - i,
{
    if i + 1 < b.len() {
        lemma_crlf_none(b, i + 1);
    }
}

/// A line whose text holds no CR or LF ends at the `\r\n` that follows the text.
proof fn lemma_line(tag: u8, p: Seq<u8>, rest: Seq<u8>)
    requires
        line_safe(p),
    ensures
        simple_line(seq![tag] + p + crlf() + rest, tag) == Ok::<int, DecodeError>(1 + p.len() as int),
        (seq![tag] + p + crlf() + rest).subrange(1, 1 + p.len() as int) == p,
{
    let b = seq![tag] + p + crlf() + rest;
    assert forall|j: int| 1 <= j < 1 + p.len() as int implies !crlf_at(b, j) by {
        assert(b[j] == p[j - 1]);
    }
    assert(b[1 + p.len() as int] == CR && b[2 + p.len() as int] == LF);
    lemma_crlf_scan(b, 1, 1 + p.len() as int);
    assert(b.subrange(1, 1 + p.len() as int) =~= p);
}

/// A line cut before its `\r\n` is complete is reported incomplete.
proof fn lemma_line_prefix(tag: u8, p: Seq<u8>, k: int)
    requires
        line_safe(p),
        0 <= k < p.len() + 3,
    ensures
        simple_line((seq![tag] + p + crlf()).take(k), tag) == Err::<int, DecodeError>(
            DecodeError::NotComplete,
        ),
{
    let b = (seq![tag] + p + crlf()).take(k);
    if k >= 3 {
        assert forall|j: int| 1 <= j implies !crlf_at(b, j) by {
            if crlf_at(b, j) {
                assert(b[j] == p[j - 1]);
            }
        }
        lemma_crlf_none(b, 1);
    }
}

proof fn lemma_nat_text(n: nat)
    ensures
        nat_text(n).len() >= 1,
        all_digits(nat_text(n)),
        digits_value(nat_text(n)) == n,
        line_safe(nat_text(n)),
    decreases n,
{
    let t = nat_text(n);
    if n < 10 {
        assert(t.drop_last() =~= Seq::<u8>::empty());
        assert(t.last() == (48 + n) as u8);
        assert(digits_value(t) == digits_value(t.drop_last()) * 10 + (t.last() - 48) as nat);
    } else {
        lemma_nat_text(n / 10);
        assert(t.drop_last() =~= nat_text(n / 10));
        assert(t.last() == (48 + n % 10) as u8);
        assert(n == (n / 10) * 10 + n % 10) by (nonlinear_arith)
            requires n >= 10;
        assert(digits_value(t) == digits_value(t.drop_last()) * 10 + (t.last() - 48) as nat);
        assert(digits_value(t.drop_last()) == n / 10);
        assert forall|i: int| 0 <= i < t.len() implies is_digit(#[trigger] t[i]) by {
            if i < t.len() - 1 {
                assert(t[i] == nat_text(n / 10)[i]);
            }
        }
    }
}

proof fn lemma_parse_len(n: nat)
    requires
        n <= usize::MAX,
    ensures
        parse_len(nat_text(n)) == Some(n),
{
    lemma_nat_text(n);
    assert(is_digit(nat_text(n)[0]));
}

proof fn lemma_parse_i64(n: int)
    requires
        i64::MIN <= n <= i64::MAX,
    ensures
        parse_i64(int_text(n)) == Some(n),
        line_safe(int_text(n)),
{
    if n < 0 {
        let m = (-n) as nat;
        lemma_nat_text(m);
        assert(int_text(n).skip(1) =~= nat_text(m));
        assert(parse_digits(nat_text(m), 0x8000_0000_0000_0000) == Some(m));
        assert forall|i: int| 0 <= i < int_text(n).len() implies int_text(n)[i] != CR && int_text(n)[i] != LF by {
            if i > 0 {
                assert(int_text(n)[i] == nat_text(m)[i - 1]);
            }
        }
    } else {
        lemma_nat_text(n as nat);
        assert(is_digit(nat_text(n as nat)[0]));
    }
}

proof fn lemma_text_round_trip(s: Seq<char>)
    ensures
        text_of(vstd::utf8::encode_utf8(s)) == s,
{
    encode_utf8_valid_utf8(s);
    encode_utf8_decode_utf8(s);
}

/// The length line of an aggregate or bulk string, with its count `n`.
proof fn lemma_length_line(tag: u8, n: nat, rest: Seq<u8>)
    requires
        n <= usize::MAX,
    ensures
        length_line(seq![tag] + nat_text(n) + crlf() + rest, tag) == Ok::<(int, nat), DecodeError>(
            (1 + nat_text(n).len() as int, n),
        ),
        (seq![tag] + nat_text(n) + crlf() + rest).skip(3 + nat_text(n).len() as int) == rest,
        fixed(seq![tag] + nat_text(n) + crlf() + rest, seq![tag, 45u8, 49u8, CR, LF]) is Err,
{
    lemma_nat_text(n);
    lemma_line(tag, nat_text(n), rest);
    lemma_parse_len(n);
    let b = seq![tag] + nat_text(n) + crlf() + rest;
    assert(b.skip(3 + nat_text(n).len() as int) =~= rest);
    assert(is_digit(nat_text(n)[0]));
    if b.len() >= 5 {
        assert(b.take(5)[1] != seq![tag, 45u8, 49u8, CR, LF][1]);
    }
}

proof fn lemma_encode_all_len(xs: Seq<Frame>)
    ensures
        encode_all(xs).len() >= 3 * xs.len(),
    decreases xs.len(),
{
    if xs.len() > 0 {
        lemma_encode_all_len(xs.skip(1));
        lemma_encode_len(xs[0]);
    }
}

proof fn lemma_encode_len(f: Frame)
    ensures
        encode(f).len() >= 3,
{
}

proof fn lemma_expect_line(f: Frame, rest: Seq<u8>)
    requires
        wf(f),
        f is SimpleString || f is SimpleError || f is Integer,
    ensures
        expect_len(encode(f) + rest) == Ok::<nat, DecodeError>(encode(f).len()),
        decode(encode(f) + rest) == Ok::<(Frame, nat), DecodeError>((f, encode(f).len())),
{
    match f {
        Frame::SimpleString(s) => {
            lemma_line(43u8, vstd::utf8::encode_utf8(s), rest);
            lemma_text_round_trip(s);
        },
        Frame::SimpleError(s) => {
            lemma_line(45u8, vstd::utf8::encode_utf8(s), rest);
            lemma_text_round_trip(s);
        },
        Frame::Integer(n) => {
            lemma_parse_i64(n);
            lemma_line(58u8, int_text(n), rest);
        },
        _ => {},
    }
}

proof fn lemma_expect_bulk(d: Seq<u8>, rest: Seq<u8>)
    requires
        encode(Frame::BulkString(Some(d))).len() + rest.len() <= usize::MAX,
    ensures
        expect_len(encode(Frame::BulkString(Some(d))) + rest) == Ok::<nat, DecodeError>(
            encode(Frame::BulkString(Some(d))).len(),
        ),
        decode(encode(Frame::BulkString(Some(d))) + rest) == Ok::<(Frame, nat), DecodeError>(
            (Frame::BulkString(Some(d)), encode(Frame::BulkString(Some(d))).len()),
        ),
{
    let b = encode(Frame::BulkString(Some(d))) + rest;
    lemma_length_line(36u8, d.len(), d + crlf() + rest);
    assert(b =~= seq![36u8] + nat_text(d.len()) + crlf() + (d + crlf() + rest));
    let e: int = 1 + nat_text(d.len()).len() as int;
    assert(b.subrange(e + 2, e + 2 + d.len() as int) =~= d);
}

proof fn lemma_fixed_forms(f: Frame, rest: Seq<u8>)
    requires
        f is Null || f is Boolean || f == Frame::BulkString(None) || f == Frame::Array(None),
    ensures
        expect_len(encode(f) + rest) == Ok::<nat, DecodeError>(encode(f).len()),
        decode(encode(f) + rest) == Ok::<(Frame, nat), DecodeError>((f, encode(f).len())),
{
    let b = encode(f) + rest;
    match f {
        Frame::Null => {
            assert(b.take(3) =~= null_text());
        },
        Frame::Boolean(true) => {
            assert(b.take(4) =~= true_text());
        },
        Frame::Boolean(false) => {
            assert(b.take(4) =~= false_text());
            assert(b.take(4)[1] != true_text()[1]);
        },
        Frame::BulkString(_) => {
            assert(b.take(5) =~= null_bulk());
        },
        _ => {
            assert(b.take(5) =~= null_array());
        },
    }
}

/// The byte count that a scan finds for a whole frame is the length of its wire form.
pub proof fn lemma_expect_full(f: Frame, rest: Seq<u8>)
    requires
        wf(f),
        encode(f).len() + rest.len() <= usize::MAX,
    ensures
        expect_len(encode(f) + rest) == Ok::<nat, DecodeError>(encode(f).len()),
    decreases f, 0nat,
{
    match f {
        Frame::BulkString(Some(d)) => {
            lemma_expect_bulk(d, rest);
        },
        Frame::Array(Some(xs)) => {
            let b = encode(f) + rest;
            lemma_encode_all_len(xs);
            lemma_length_line(42u8, xs.len(), encode_all(xs) + rest);
            assert(b =~= seq![42u8] + nat_text(xs.len()) + crlf() + (encode_all(xs) + rest));
            lemma_walk_full(xs, rest);
        },
        Frame::SimpleString(_) | Frame::SimpleError(_) | Frame::Integer(_) => {
            lemma_expect_line(f, rest);
        },
        Frame::RespMap(xs) => {
            lemma_collection_header(f, rest);
            lemma_walk_full(xs, rest);
        },
        Frame::RespSet(xs) => {
            lemma_collection_header(f, rest);
            lemma_walk_full(xs, rest);
        },
        _ => {
            lemma_fixed_forms(f, rest);
        },
    }
}

pub proof fn lemma_walk_full(xs: Seq<Frame>, rest: Seq<u8>)
    requires
        wf_all(xs),
        encode_all(xs).len() + rest.len() <= usize::MAX,
    ensures
        walk(encode_all(xs) + rest, xs.len()) == Ok::<nat, DecodeError>(encode_all(xs).len()),
    decreases xs, 1nat,
{
    if xs.len() > 0 {
        let tail = encode_all(xs.skip(1)) + rest;
        let b = encode_all(xs) + rest;
        assert(b =~= encode(xs[0]) + tail);
        lemma_expect_full(xs[0], tail);
        assert(b.skip(encode(xs[0]).len() as int) =~= tail);
        lemma_walk_full(xs.skip(1), rest);
    }
}

/// A whole frame decodes to itself, with the length of its wire form.
pub proof fn lemma_decode_full(f: Frame, rest: Seq<u8>)
    requires
        wf(f),
        encode(f).len() + rest.len() <= usize::MAX,
    ensures
        decode(encode(f) + rest) == Ok::<(Frame, nat), DecodeError>((f, encode(f).len())),
    decreases f, 0nat,
{
    match f {
        Frame::BulkString(Some(d)) => {
            lemma_expect_bulk(d, rest);
        },
        Frame::Array(Some(xs)) => {
            let b = encode(f) + rest;
            lemma_encode_all_len(xs);
            lemma_length_line(42u8, xs.len(), encode_all(xs) + rest);
            assert(b =~= seq![42u8] + nat_text(xs.len()) + crlf() + (encode_all(xs) + rest));
            lemma_walk_full(xs, rest);
            lemma_many_full(xs, rest);
        },
        Frame::SimpleString(_) | Frame::SimpleError(_) | Frame::Integer(_) => {
            lemma_expect_line(f, rest);
        },
        Frame::RespMap(xs) => {
            lemma_collection_header(f, rest);
            lemma_walk_full(xs, rest);
            lemma_many_full(xs, rest);
        },
        Frame::RespSet(xs) => {
            lemma_collection_header(f, rest);
            lemma_walk_full(xs, rest);
            lemma_many_full(xs, rest);
        },
        _ => {
            lemma_fixed_forms(f, rest);
        },
    }
}

pub proof fn lemma_many_full(xs: Seq<Frame>, rest: Seq<u8>)
    requires
        wf_all(xs),
        encode_all(xs).len() + rest.len() <= usize::MAX,
    ensures
        decode_many(encode_all(xs) + rest, xs.len()) == Ok::<(Seq<Frame>, nat), DecodeError>(
            (xs, encode_all(xs).len()),
        ),
    decreases xs, 1nat,
{
    if xs.len() > 0 {
        let tail = encode_all(xs.skip(1)) + rest;
        let b = encode_all(xs) + rest;
        assert(b =~= encode(xs[0]) + tail);
        lemma_decode_full(xs[0], tail);
        assert(b.skip(encode(xs[0]).len() as int) =~= tail);
        lemma_many_full(xs.skip(1), rest);
        assert(seq![xs[0]] + xs.skip(1) =~= xs);
    } else {
        assert(xs =~= Seq::<Frame>::empty());
    }
}

/// A scan of a cut frame either finds it incomplete or asks for more than is there.
pub open spec fn pending(r: Result<nat, DecodeError>, k: int) -> bool {
    r == Err::<nat, DecodeError>(DecodeError::NotComplete) || (r is Ok && r->Ok_0 > k)
}

/// A count line cut before its end.
proof fn lemma_header_prefix(tag: u8, n: nat, tail: Seq<u8>, k: int)
    requires
        0 <= k < nat_text(n).len() + 3,
    ensures
        length_line((seq![tag] + nat_text(n) + crlf() + tail).take(k), tag) == Err::<
            (int, nat),
            DecodeError,
        >(DecodeError::NotComplete),
        fixed((seq![tag] + nat_text(n) + crlf() + tail).take(k), seq![tag, 45u8, 49u8, CR, LF]) is Err,
{
    let h = seq![tag] + nat_text(n) + crlf();
    let b = (h + tail).take(k);
    assert(b =~= h.take(k));
    lemma_nat_text(n);
    lemma_line_prefix(tag, nat_text(n), k);
    if k >= 5 {
        assert(is_digit(nat_text(n)[0]));
        assert(b.take(5)[1] != seq![tag, 45u8, 49u8, CR, LF][1]);
    }
}

/// The null bulk string and the null array, cut.
proof fn lemma_null_prefix(tag: u8, k: int)
    requires
        0 <= k < 5,
    ensures
        length_line(seq![tag, 45u8, 49u8, CR, LF].take(k), tag) == Err::<(int, nat), DecodeError>(
            DecodeError::NotComplete,
        ),
        fixed(seq![tag, 45u8, 49u8, CR, LF].take(k), seq![tag, 45u8, 49u8, CR, LF]) is Err,
{
    let p = seq![45u8, 49u8];
    assert(seq![tag, 45u8, 49u8, CR, LF] =~= seq![tag] + p + crlf());
    lemma_line_prefix(tag, p, k);
}

proof fn lemma_prefix_line(f: Frame, k: int)
    requires
        wf(f),
        f is SimpleString || f is SimpleError || f is Integer,
        0 <= k < encode(f).len(),
    ensures
        expect_len(encode(f).take(k)) == Err::<nat, DecodeError>(DecodeError::NotComplete),
        decode(encode(f).take(k)) == Err::<(Frame, nat), DecodeError>(DecodeError::NotComplete),
{
    match f {
        Frame::SimpleString(s) => lemma_line_prefix(43u8, vstd::utf8::encode_utf8(s), k),
        Frame::SimpleError(s) => lemma_line_prefix(45u8, vstd::utf8::encode_utf8(s), k),
        Frame::Integer(n) => {
            lemma_parse_i64(n);
            lemma_line_prefix(58u8, int_text(n), k);
        },
        _ => {},
    }
}

proof fn lemma_prefix_fixed(f: Frame, k: int)
    requires
        f is Null || f is Boolean || f == Frame::BulkString(None) || f == Frame::Array(None),
        0 <= k < encode(f).len(),
    ensures
        pending(expect_len(encode(f).take(k)), k),
        decode(encode(f).take(k)) == Err::<(Frame, nat), DecodeError>(DecodeError::NotComplete),
{
    match f {
        Frame::BulkString(_) => lemma_null_prefix(36u8, k),
        Frame::Array(_) => lemma_null_prefix(42u8, k),
        _ => {},
    }
}

proof fn lemma_prefix_bulk(d: Seq<u8>, k: int)
    requires
        encode(Frame::BulkString(Some(d))).len() <= usize::MAX,
        0 <= k < encode(Frame::BulkString(Some(d))).len(),
    ensures
        pending(expect_len(encode(Frame::BulkString(Some(d))).take(k)), k),
        decode(encode(Frame::BulkString(Some(d))).take(k)) == Err::<(Frame, nat), DecodeError>(
            DecodeError::NotComplete,
        ),
{
    let f = Frame::BulkString(Some(d));
    let h = seq![36u8] + nat_text(d.len()) + crlf();
    assert(encode(f) =~= h + (d + crlf()));
    if k < h.len() {
        lemma_header_prefix(36u8, d.len(), d + crlf(), k);
    } else {
        let part = (d + crlf()).take(k - h.len());
        assert(encode(f).take(k) =~= seq![36u8] + nat_text(d.len()) + crlf() + part);
        lemma_length_line(36u8, d.len(), part);
    }
}

/// A cut frame: its scan finds it incomplete or asks for more than is there.
pub proof fn lemma_expect_prefix(f: Frame, k: int)
    requires
        wf(f),
        encode(f).len() <= usize::MAX,
        0 <= k < encode(f).len(),
    ensures
        pending(expect_len(encode(f).take(k)), k),
    decreases f, 0nat,
{
    match f {
        Frame::BulkString(Some(d)) => lemma_prefix_bulk(d, k),
        Frame::Array(Some(xs)) => lemma_prefix_array(xs, k),
        Frame::SimpleString(_) | Frame::SimpleError(_) | Frame::Integer(_) => lemma_prefix_line(f, k),
        Frame::RespMap(xs) => lemma_prefix_collection(37u8, xs, k),
        Frame::RespSet(xs) => lemma_prefix_collection(126u8, xs, k),
        _ => lemma_prefix_fixed(f, k),
    }
}

proof fn lemma_prefix_array(xs: Seq<Frame>, k: int)
    requires
        wf_all(xs),
        encode(Frame::Array(Some(xs))).len() <= usize::MAX,
        0 <= k < encode(Frame::Array(Some(xs))).len(),
    ensures
        expect_len(encode(Frame::Array(Some(xs))).take(k)) == Err::<nat, DecodeError>(DecodeError::NotComplete),
        decode(encode(Frame::Array(Some(xs))).take(k)) == Err::<(Frame, nat), DecodeError>(
            DecodeError::NotComplete,
        ),
    decreases xs, 1nat,
{
    let f = Frame::Array(Some(xs));
    let h = seq![42u8] + nat_text(xs.len()) + crlf();
    assert(encode(f) =~= h + encode_all(xs));
    lemma_encode_all_len(xs);
    if k < h.len() {
        lemma_header_prefix(42u8, xs.len(), encode_all(xs), k);
    } else {
        let part = encode_all(xs).take(k - h.len());
        let b = encode(f).take(k);
        assert(b =~= seq![42u8] + nat_text(xs.len()) + crlf() + part);
        lemma_length_line(42u8, xs.len(), part);
        lemma_walk_prefix(xs, k - h.len());
    }
}

/// The count line of a whole map or set, and the frames after it.
proof fn lemma_collection_header(f: Frame, rest: Seq<u8>)
    requires
        wf(f),
        f is RespMap || f is RespSet,
        encode(f).len() + rest.len() <= usize::MAX,
    ensures
        ({
            let (tag, xs) = match f {
                Frame::RespMap(xs) => (37u8, xs),
                Frame::RespSet(xs) => (126u8, xs),
                _ => (0u8, Seq::empty()),
            };
            let b = encode(f) + rest;
            let n = if tag == 37u8 { xs.len() / 2 } else { xs.len() };
            &&& length_line(b, tag) == Ok::<(int, nat), DecodeError>((1 + nat_text(n).len() as int, n))
            &&& b.skip(3 + nat_text(n).len() as int) == encode_all(xs) + rest
            &&& frame_count(tag, n) == xs.len()
            &&& count_fits(tag, n)
            &&& 1 + nat_text(n).len() + 2 <= b.len()
            &&& b[0] == tag
            &&& encode(f).len() == 3 + nat_text(n).len() + encode_all(xs).len()
        }),
{
    let (tag, xs) = match f {
        Frame::RespMap(xs) => (37u8, xs),
        Frame::RespSet(xs) => (126u8, xs),
        _ => (0u8, Seq::empty()),
    };
    let n = if tag == 37u8 { xs.len() / 2 } else { xs.len() };
    lemma_encode_all_len(xs);
    lemma_length_line(tag, n, encode_all(xs) + rest);
    assert(encode(f) + rest =~= seq![tag] + nat_text(n) + crlf() + (encode_all(xs) + rest));
}

/// A cut map or set is incomplete.
proof fn lemma_prefix_collection(tag: u8, xs: Seq<Frame>, k: int)
    requires
        tag == 37u8 || tag == 126u8,
        wf(if tag == 37u8 { Frame::RespMap(xs) } else { Frame::RespSet(xs) }),
        encode(if tag == 37u8 { Frame::RespMap(xs) } else { Frame::RespSet(xs) }).len() <= usize::MAX,
        0 <= k < encode(if tag == 37u8 { Frame::RespMap(xs) } else { Frame::RespSet(xs) }).len(),
    ensures
        expect_len(encode(if tag == 37u8 { Frame::RespMap(xs) } else { Frame::RespSet(xs) }).take(k))
            == Err::<nat, DecodeError>(DecodeError::NotComplete),
        decode(encode(if tag == 37u8 { Frame::RespMap(xs) } else { Frame::RespSet(xs) }).take(k))
            == Err::<(Frame, nat), DecodeError>(DecodeError::NotComplete),
    decreases xs, 1nat,
{
    let f = if tag == 37u8 { Frame::RespMap(xs) } else { Frame::RespSet(xs) };
    let n = if tag == 37u8 { xs.len() / 2 } else { xs.len() };
    let h = seq![tag] + nat_text(n) + crlf();
    assert(encode(f) =~= h + encode_all(xs));
    lemma_encode_all_len(xs);
    if k < h.len() {
        lemma_header_prefix(tag, n, encode_all(xs), k);
    } else {
        let part = encode_all(xs).take(k - h.len());
        let b = encode(f).take(k);
        assert(b =~= seq![tag] + nat_text(n) + crlf() + part);
        lemma_length_line(tag, n, part);
        assert(frame_count(tag, n) == xs.len());
        lemma_walk_prefix(xs, k - h.len());
    }
}

/// A cut run of frames is incomplete.
pub proof fn lemma_walk_prefix(xs: Seq<Frame>, k: int)
    requires
        wf_all(xs),
        encode_all(xs).len() <= usize::MAX,
        0 <= k < encode_all(xs).len(),
    ensures
        walk(encode_all(xs).take(k), xs.len()) == Err::<nat, DecodeError>(DecodeError::NotComplete),
    decreases xs, 0nat,
{
    let first = encode(xs[0]);
    let tail = encode_all(xs.skip(1));
    assert(encode_all(xs) =~= first + tail);
    let b = encode_all(xs).take(k);
    if k < first.len() {
        assert(b =~= first.take(k));
        lemma_expect_prefix(xs[0], k);
    } else {
        let part = tail.take(k - first.len());
        assert(b =~= first + part);
        lemma_expect_full(xs[0], part);
        assert(b.skip(first.len() as int) =~= part);
        lemma_walk_prefix(xs.skip(1), k - first.len());
    }
}

/// A cut frame does not decode: the decoder reports it incomplete.
pub proof fn lemma_decode_prefix(f: Frame, k: int)
    requires
        wf(f),
        encode(f).len() <= usize::MAX,
        0 <= k < encode(f).len(),
    ensures
        decode(encode(f).take(k)) == Err::<(Frame, nat), DecodeError>(DecodeError::NotComplete),
{
    match f {
        Frame::BulkString(Some(d)) => lemma_prefix_bulk(d, k),
        Frame::Array(Some(xs)) => lemma_prefix_array(xs, k),
        Frame::SimpleString(_) | Frame::SimpleError(_) | Frame::Integer(_) => lemma_prefix_line(f, k),
        Frame::RespMap(xs) => lemma_prefix_collection(37u8, xs, k),
        Frame::RespSet(xs) => lemma_prefix_collection(126u8, xs, k),
        _ => lemma_prefix_fixed(f, k),
    }
}

/// Round trip: the wire form of a frame decodes to that frame and is consumed whole, leaving
/// whatever follows it in the buffer.
pub proof fn law_round_trip(f: Frame, rest: Seq<u8>)
    requires
        wf(f),
        encode(f).len() + rest.len() <= usize::MAX,
    ensures
        decode(encode(f) + rest) == Ok::<(Frame, nat), DecodeError>((f, encode(f).len())),
        decode(encode(f)) == Ok::<(Frame, nat), DecodeError>((f, encode(f).len())),
{
    lemma_decode_full(f, rest);
    lemma_decode_full(f, Seq::empty());
    assert(encode(f) + Seq::<u8>::empty() =~= encode(f));
}

/// Incremental decode: split the wire form of a frame anywhere before its end; the first part
/// alone is reported incomplete, and with the second part appended the frame decodes whole.
pub proof fn law_incremental(f: Frame, k: int)
    requires
        wf(f),
        encode(f).len() <= usize::MAX,
        0 <= k < encode(f).len(),
    ensures
        decode(encode(f).take(k)) == Err::<(Frame, nat), DecodeError>(DecodeError::NotComplete),
        decode(encode(f).take(k) + encode(f).skip(k)) == Ok::<(Frame, nat), DecodeError>(
            (f, encode(f).len()),
        ),
{
    lemma_decode_prefix(f, k);
    assert(encode(f).take(k) + encode(f).skip(k) =~= encode(f));
    law_round_trip(f, Seq::empty());
}

/// Length invariant: the length scan of the wire form of a frame is its length.
pub proof fn law_expect_length(f: Frame, rest: Seq<u8>)
    requires
        wf(f),
        encode(f).len() + rest.len() <= usize::MAX,
    ensures
        expect_len(encode(f) + rest) == Ok::<nat, DecodeError>(encode(f).len()),
        expect_len(encode(f)) == Ok::<nat, DecodeError>(encode(f).len()),
{
    lemma_expect_full(f, rest);
    lemma_expect_full(f, Seq::empty());
    assert(encode(f) + Seq::<u8>::empty() =~= encode(f));
}

/// Null distinction: the null bulk string and the null array have their own wire forms, which
/// decode back to the nulls and not to the empty values.
pub proof fn law_null_distinction()
    ensures
        encode(Frame::BulkString(None)) == seq![36u8, 45u8, 49u8, CR, LF],
        decode(encode(Frame::BulkString(None))) == Ok::<(Frame, nat), DecodeError>(
            (Frame::BulkString(None), 5),
        ),
        encode(Frame::BulkString(None)) != encode(Frame::BulkString(Some(Seq::empty()))),
        encode(Frame::Array(None)) == seq![42u8, 45u8, 49u8, CR, LF],
        decode(encode(Frame::Array(None))) == Ok::<(Frame, nat), DecodeError>(
            (Frame::Array(None), 5),
        ),
        encode(Frame::Array(None)) != encode(Frame::Array(Some(Seq::empty()))),
{
    law_round_trip(Frame::BulkString(None), Seq::empty());
    law_round_trip(Frame::Array(None), Seq::empty());
    assert(encode(Frame::BulkString(Some(Seq::empty())))[1] == 48u8);
    assert(encode(Frame::Array(Some(Seq::empty())))[1] == 48u8);
}

} // verus!

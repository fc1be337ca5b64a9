//! The encoder: frames written in their wire form.
use vstd::prelude::*;

use crate::frame::{
    frames_model, pairs_model, BulkString, Frame, RespArray, RespFrame, RespMap, RespSet,
    SimpleError, SimpleString,
};
use crate::wire::{
    crlf, encode, encode_all, false_text, int_text, nat_text, null_array, null_bulk, null_text,
    true_text, CR, LF,
};

verus! {

/// Writing a value in its wire form.
pub trait RespEncode: Sized {
    spec fn wire(self) -> Seq<u8>;

    fn encode(self) -> (r: Vec<u8>)
        ensures
            r@ == self.wire(),
    ;
}

pub proof fn lemma_encode_all_push(xs: Seq<Frame>, x: Frame)
    ensures
        encode_all(xs.push(x)) == encode_all(xs) + encode(x),
    decreases xs.len(),
{
    if xs.len() == 0 {
        assert(xs.push(x).skip(1) =~= Seq::<Frame>::empty());
        assert(xs.push(x)[0] == x);
        assert(encode_all(Seq::<Frame>::empty()) == Seq::<u8>::empty());
        assert(encode_all(xs.push(x)) =~= encode(x) + Seq::<u8>::empty());
        assert(encode_all(xs) + encode(x) =~= encode(x));
    } else {
        assert(xs.push(x).skip(1) =~= xs.skip(1).push(x));
        lemma_encode_all_push(xs.skip(1), x);
        assert(xs.push(x)[0] == xs[0]);
        assert(encode_all(xs.push(x)) =~= encode(xs[0]) + (encode_all(xs.skip(1)) + encode(x)));
    }
}

/// Appends the decimal digits of `n`.
fn push_decimal(out: &mut Vec<u8>, n: u64)
    ensures
        final(out)@ == old(out)@ + nat_text(n as nat),
    decreases n,
{
    if n >= 10 {
        push_decimal(out, n / 10);
    }
    out.push((48 + n % 10) as u8);
    assert(final(out)@ =~= old(out)@ + nat_text(n as nat));
}

/// Appends the decimal text of `n`.
fn push_integer(out: &mut Vec<u8>, n: i64)
    ensures
        final(out)@ == old(out)@ + int_text(n as int),
{
    if n < 0 {
        out.push(45u8);
        let m: u64 = ((-(n + 1)) as u64) + 1;
        push_decimal(out, m);
        assert(final(out)@ =~= old(out)@ + int_text(n as int));
    } else {
        push_decimal(out, n as u64);
    }
}

fn push_bytes(out: &mut Vec<u8>, b: &[u8])
    ensures
        final(out)@ == old(out)@ + b@,
{
    let mut i: usize = 0;
    while i < b.len()
        invariant
            i <= b@.len(),
            out@ == old(out)@ + b@.take(i as int),
        decreases b.len() - i,
    {
        out.push(b[i]);
        assert(b@.take(i + 1) =~= b@.take(i as int).push(b@[i as int]));
        i += 1;
    }
    assert(b@.take(i as int) =~= b@);
}

fn push_crlf(out: &mut Vec<u8>)
    ensures
        final(out)@ == old(out)@ + crlf(),
{
    out.push(CR);
    out.push(LF);
    assert(final(out)@ =~= old(out)@ + crlf());
}

/// Appends a line frame: its prefix byte, its text and `\r\n`.
fn push_line(out: &mut Vec<u8>, tag: u8, s: &String)
    ensures
        final(out)@ == old(out)@ + seq![tag] + vstd::utf8::encode_utf8(s@) + crlf(),
{
    out.push(tag);
    push_bytes(out, s.as_str().as_bytes());
    push_crlf(out);
    assert(final(out)@ =~= old(out)@ + seq![tag] + vstd::utf8::encode_utf8(s@) + crlf());
}

impl RespFrame {
    /// Appends the wire form of the frame.
    pub fn encode_into(&self, out: &mut Vec<u8>)
        ensures
            final(out)@ == old(out)@ + encode(self.model()),
        decreases self,
    {
        match self {
            RespFrame::SimpleString(s) => push_line(out, 43u8, &s.0),
            RespFrame::SimpleError(s) => push_line(out, 45u8, &s.0),
            RespFrame::Integer(n) => {
                out.push(58u8);
                push_integer(out, *n);
                push_crlf(out);
                assert(final(out)@ =~= old(out)@ + encode(self.model()));
            },
            RespFrame::BulkString(b) => match &b.0 {
                None => {
                    push_bytes(out, vec![36u8, 45u8, 49u8, CR, LF].as_slice());
                    assert(final(out)@ =~= old(out)@ + null_bulk());
                },
                Some(v) => {
                    out.push(36u8);
                    push_decimal(out, v.len() as u64);
                    push_crlf(out);
                    push_bytes(out, v.as_slice());
                    push_crlf(out);
                    assert(final(out)@ =~= old(out)@ + encode(self.model()));
                },
            },
            RespFrame::Array(a) => match &a.0 {
                None => {
                    push_bytes(out, vec![42u8, 45u8, 49u8, CR, LF].as_slice());
                    assert(final(out)@ =~= old(out)@ + null_array());
                },
                Some(v) => {
                    let ghost xs = frames_model(*v);
                    out.push(42u8);
                    push_decimal(out, v.len() as u64);
                    push_crlf(out);
                    let ghost head = out@;
                    let mut i: usize = 0;
                    while i < v.len()
                        invariant
                            *self == RespFrame::Array(RespArray(Some(*v))),
                            xs == frames_model(*v),
                            i <= v.len(),
                            out@ == head + encode_all(xs.take(i as int)),
                        decreases v.len() - i,
                    {
                        proof {
                            vstd::std_specs::vec::axiom_vec_index_decreases(*v, i as int);
                            assert(decreases_to!(*self => self->Array_0.0->Some_0));
                            lemma_encode_all_push(xs.take(i as int), xs[i as int]);
                            assert(xs.take(i + 1) =~= xs.take(i as int).push(xs[i as int]));
                        }
                        v[i].encode_into(out);
                        i += 1;
                    }
                    assert(xs.take(i as int) =~= xs);
                    assert(final(out)@ =~= old(out)@ + encode(self.model()));
                },
            },
            RespFrame::Null(_) => {
                push_bytes(out, vec![95u8, CR, LF].as_slice());
                assert(final(out)@ =~= old(out)@ + null_text());
            },
            RespFrame::Boolean(b) => {
                if *b {
                    push_bytes(out, vec![35u8, 116u8, CR, LF].as_slice());
                    assert(final(out)@ =~= old(out)@ + true_text());
                } else {
                    push_bytes(out, vec![35u8, 102u8, CR, LF].as_slice());
                    assert(final(out)@ =~= old(out)@ + false_text());
                }
            },
            RespFrame::RespMap(m) => {
                let v = &m.0;
                let ghost xs = pairs_model(*v);
                out.push(37u8);
                push_decimal(out, v.len() as u64);
                push_crlf(out);
                let ghost head = out@;
                let mut i: usize = 0;
                while i < v.len()
                    invariant
                        *self == RespFrame::RespMap(RespMap(*v)),
                        xs == pairs_model(*v),
                        i <= v.len(),
                        out@ == head + encode_all(xs.take(2 * i as int)),
                    decreases v.len() - i,
                {
                    proof {
                        vstd::std_specs::vec::axiom_vec_index_decreases(*v, i as int);
                        assert(decreases_to!(*self => self->RespMap_0.0));
                        assert(decreases_to!(v[i as int] => v[i as int].0));
                        assert(decreases_to!(v[i as int] => v[i as int].1));
                        assert(xs[2 * i as int] == v[i as int].0.model());
                        assert(xs[2 * i + 1] == v[i as int].1.model());
                        lemma_encode_all_push(xs.take(2 * i as int), xs[2 * i as int]);
                        assert(xs.take(2 * i + 1) =~= xs.take(2 * i as int).push(xs[2 * i as int]));
                        lemma_encode_all_push(xs.take(2 * i + 1), xs[2 * i + 1]);
                        assert(xs.take(2 * i + 2) =~= xs.take(2 * i + 1).push(xs[2 * i + 1]));
                    }
                    v[i].0.encode_into(out);
                    v[i].1.encode_into(out);
                    i += 1;
                }
                assert(xs.take(2 * i as int) =~= xs);
                assert(xs.len() / 2 == v.len());
                assert(final(out)@ =~= old(out)@ + encode(self.model()));
            },
            RespFrame::RespSet(st) => {
                let v = &st.0;
                let ghost xs = frames_model(*v);
                out.push(126u8);
                push_decimal(out, v.len() as u64);
                push_crlf(out);
                let ghost head = out@;
                let mut i: usize = 0;
                while i < v.len()
                    invariant
                        *self == RespFrame::RespSet(RespSet(*v)),
                        xs == frames_model(*v),
                        i <= v.len(),
                        out@ == head + encode_all(xs.take(i as int)),
                    decreases v.len() - i,
                {
                    proof {
                        vstd::std_specs::vec::axiom_vec_index_decreases(*v, i as int);
                        assert(decreases_to!(*self => self->RespSet_0.0));
                        lemma_encode_all_push(xs.take(i as int), xs[i as int]);
                        assert(xs.take(i + 1) =~= xs.take(i as int).push(xs[i as int]));
                    }
                    v[i].encode_into(out);
                    i += 1;
                }
                assert(xs.take(i as int) =~= xs);
                assert(final(out)@ =~= old(out)@ + encode(self.model()));
            },
        }
    }
}

impl RespEncode for RespFrame {
    open spec fn wire(self) -> Seq<u8> {
        encode(self.model())
    }

    fn encode(self) -> (r: Vec<u8>) {
        let mut out: Vec<u8> = Vec::new();
        self.encode_into(&mut out);
        assert(out@ =~= encode(self.model()));
        out
    }
}

} // verus!

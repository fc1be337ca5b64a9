//! The replies of the commands, built from what the store handed back.
use vstd::prelude::*;
use vstd::multiset::Multiset;
use vstd::utf8::encode_utf8;

use crate::frame::{frames_model, BulkString, Frame, RespArray, RespFrame, RespNull, SimpleString};

verus! {

broadcast use vstd::seq_lib::group_to_multiset_ensures;

/// Byte-wise lexicographic order, the order of Rust's strings.
pub open spec fn lex_le(a: Seq<u8>, b: Seq<u8>) -> bool
    decreases a.len(),
{
    if a.len() == 0 {
        true
    } else if b.len() == 0 {
        false
    } else if a[0] != b[0] {
        a[0] < b[0]
    } else {
        lex_le(a.skip(1), b.skip(1))
    }
}

pub proof fn lemma_lex_total(a: Seq<u8>, b: Seq<u8>)
    ensures
        lex_le(a, b) || lex_le(b, a),
    decreases a.len(),
{
    if a.len() > 0 && b.len() > 0 && a[0] == b[0] {
        lemma_lex_total(a.skip(1), b.skip(1));
    }
}

pub proof fn lemma_lex_trans(a: Seq<u8>, b: Seq<u8>, c: Seq<u8>)
    requires
        lex_le(a, b),
        lex_le(b, c),
    ensures
        lex_le(a, c),
    decreases a.len(),
{
    if a.len() > 0 && b.len() > 0 && c.len() > 0 && a[0] == b[0] && b[0] == c[0] {
        lemma_lex_trans(a.skip(1), b.skip(1), c.skip(1));
    }
}

/// A field of a hash and its value, as a model.
pub open spec fn entry_model(e: (String, RespFrame)) -> (Seq<char>, Frame) {
    (e.0@, e.1.model())
}

pub open spec fn entries_model(v: Seq<(String, RespFrame)>) -> Seq<(Seq<char>, Frame)> {
    Seq::new(v.len(), |i: int| entry_model(v[i]))
}

/// Entries in ascending order of their fields' bytes.
pub open spec fn sorted_by_field(es: Seq<(Seq<char>, Frame)>) -> bool {
    forall|i: int, j: int|
        0 <= i < j < es.len() ==> lex_le(encode_utf8(#[trigger] es[i].0), encode_utf8(#[trigger] es[j].0))
}

/// The bytes of a string.
pub fn string_bytes(s: &String) -> (r: Vec<u8>)
    ensures
        r@ == encode_utf8(s@),
{
    let b = s.as_str().as_bytes();
    let mut out: Vec<u8> = Vec::new();
    let mut i: usize = 0;
    while i < b.len()
        invariant
            i <= b@.len(),
            out@ == b@.take(i as int),
        decreases b.len() - i,
    {
        out.push(b[i]);
        assert(b@.take(i + 1) =~= b@.take(i as int).push(b@[i as int]));
        i += 1;
    }
    assert(b@.take(i as int) =~= b@);
    out
}

/// Whether `a` comes before `b`, or equals it, byte by byte.
fn bytes_le(a: &[u8], b: &[u8]) -> (r: bool)
    ensures
        r == lex_le(a@, b@),
{
    let mut i: usize = 0;
    assert(a@.skip(0) =~= a@ && b@.skip(0) =~= b@);
    while i < a.len() && i < b.len()
        invariant
            i <= a@.len(),
            i <= b@.len(),
            lex_le(a@, b@) == lex_le(a@.skip(i as int), b@.skip(i as int)),
        decreases a.len() - i,
    {
        if a[i] != b[i] {
            return a[i] < b[i];
        }
        assert(a@.skip(i as int).skip(1) =~= a@.skip(i + 1));
        assert(b@.skip(i as int).skip(1) =~= b@.skip(i + 1));
        i += 1;
    }
    i == a.len()
}

/// The entries in ascending order of their fields, as Rust orders strings.
pub fn sort_entries(entries: Vec<(String, RespFrame)>) -> (r: Vec<(String, RespFrame)>)
    ensures
        sorted_by_field(entries_model(r@)),
        entries_model(r@).to_multiset() == entries_model(entries@).to_multiset(),
{
    let mut rest = entries;
    let mut out: Vec<(String, RespFrame)> = Vec::new();
    while rest.len() > 0
        invariant
            sorted_by_field(entries_model(out@)),
            entries_model(out@).to_multiset().add(entries_model(rest@).to_multiset())
                == entries_model(entries@).to_multiset(),
        decreases rest.len(),
    {
        let ghost before_rest = entries_model(rest@);
        let ghost before_out = entries_model(out@);
        let e = rest.pop().unwrap();
        assert(before_rest =~= entries_model(rest@).push(entry_model(e)));
        let kb = string_bytes(&e.0);
        let mut j: usize = 0;
        while j < out.len()
            invariant
                j <= out@.len(),
                before_out == entries_model(out@),
                sorted_by_field(before_out),
                kb@ == encode_utf8(e.0@),
                forall|i: int| 0 <= i < j ==> lex_le(encode_utf8(#[trigger] before_out[i].0), kb@),
            ensures
                j <= out@.len(),
                forall|i: int| 0 <= i < j ==> lex_le(encode_utf8(#[trigger] before_out[i].0), kb@),
                j < out@.len() ==> !lex_le(encode_utf8(before_out[j as int].0), kb@),
            decreases out.len() - j,
        {
            let ob = string_bytes(&out[j].0);
            assert(before_out[j as int] == entry_model(out@[j as int]));
            if !bytes_le(ob.as_slice(), kb.as_slice()) {
                break;
            }
            j += 1;
        }
        proof {
            if j < out@.len() {
                lemma_lex_total(encode_utf8(before_out[j as int].0), kb@);
            }
        }
        out.insert(j, e);
        let ghost now = entries_model(out@);
        assert(now =~= before_out.insert(j as int, entry_model(e)));
        assert forall|a: int, b: int| 0 <= a < b < now.len() implies lex_le(
            encode_utf8(#[trigger] now[a].0),
            encode_utf8(#[trigger] now[b].0),
        ) by {
            let k = encode_utf8(e.0@);
            if b == j {
                assert(now[a] == before_out[a]);
            } else if a == j {
                assert(now[b] == before_out[b - 1]);
                if b - 1 > j {
                    lemma_lex_trans(k, encode_utf8(before_out[j as int].0), encode_utf8(before_out[b - 1].0));
                }
            } else if b < j {
                assert(now[a] == before_out[a] && now[b] == before_out[b]);
            } else if a < j {
                assert(now[a] == before_out[a] && now[b] == before_out[b - 1]);
            } else {
                assert(now[a] == before_out[a - 1] && now[b] == before_out[b - 1]);
            }
        }
        assert(now.to_multiset() == before_out.to_multiset().insert(entry_model(e)));
        assert(before_rest.to_multiset() == entries_model(rest@).to_multiset().insert(entry_model(e)));
        assert(now.to_multiset().add(entries_model(rest@).to_multiset()) =~= before_out.to_multiset().add(
            before_rest.to_multiset(),
        ));
    }
    assert(entries_model(rest@).to_multiset() =~= Multiset::empty());
    assert(entries_model(out@).to_multiset().add(Multiset::empty()) =~= entries_model(out@).to_multiset());
    out
}

/// The texts of strings, in order.
pub open spec fn strings_view(v: Seq<String>) -> Seq<Seq<char>> {
    Seq::new(v.len(), |i: int| v[i]@)
}

/// Texts in ascending order of their bytes.
pub open spec fn sorted_texts(ts: Seq<Seq<char>>) -> bool {
    forall|i: int, j: int|
        0 <= i < j < ts.len() ==> lex_le(encode_utf8(#[trigger] ts[i]), encode_utf8(#[trigger] ts[j]))
}

/// The strings in ascending order, as Rust orders strings.
pub fn sort_strings(entries: Vec<String>) -> (r: Vec<String>)
    ensures
        sorted_texts(strings_view(r@)),
        strings_view(r@).to_multiset() == strings_view(entries@).to_multiset(),
{
    let mut rest = entries;
    let mut out: Vec<String> = Vec::new();
    while rest.len() > 0
        invariant
            sorted_texts(strings_view(out@)),
            strings_view(out@).to_multiset().add(strings_view(rest@).to_multiset())
                == strings_view(entries@).to_multiset(),
        decreases rest.len(),
    {
        let ghost before_rest = strings_view(rest@);
        let ghost before_out = strings_view(out@);
        let e = rest.pop().unwrap();
        assert(before_rest =~= strings_view(rest@).push(e@));
        let kb = string_bytes(&e);
        let mut j: usize = 0;
        while j < out.len()
            invariant
                j <= out@.len(),
                before_out == strings_view(out@),
                sorted_texts(before_out),
                kb@ == encode_utf8(e@),
                forall|i: int| 0 <= i < j ==> lex_le(encode_utf8(#[trigger] before_out[i]), kb@),
            ensures
                j <= out@.len(),
                forall|i: int| 0 <= i < j ==> lex_le(encode_utf8(#[trigger] before_out[i]), kb@),
                j < out@.len() ==> !lex_le(encode_utf8(before_out[j as int]), kb@),
            decreases out.len() - j,
        {
            let ob = string_bytes(&out[j]);
            assert(before_out[j as int] == out@[j as int]@);
            if !bytes_le(ob.as_slice(), kb.as_slice()) {
                break;
            }
            j += 1;
        }
        proof {
            if j < out@.len() {
                lemma_lex_total(encode_utf8(before_out[j as int]), kb@);
            }
        }
        out.insert(j, e);
        let ghost now = strings_view(out@);
        assert(now =~= before_out.insert(j as int, e@));
        assert forall|a: int, b: int| 0 <= a < b < now.len() implies lex_le(
            encode_utf8(#[trigger] now[a]),
            encode_utf8(#[trigger] now[b]),
        ) by {
            let k = encode_utf8(e@);
            if b == j {
                assert(now[a] == before_out[a]);
            } else if a == j {
                assert(now[b] == before_out[b - 1]);
                if b - 1 > j {
                    lemma_lex_trans(k, encode_utf8(before_out[j as int]), encode_utf8(before_out[b - 1]));
                }
            } else if b < j {
                assert(now[a] == before_out[a] && now[b] == before_out[b]);
            } else if a < j {
                assert(now[a] == before_out[a] && now[b] == before_out[b - 1]);
            } else {
                assert(now[a] == before_out[a - 1] && now[b] == before_out[b - 1]);
            }
        }
        assert(now.to_multiset() == before_out.to_multiset().insert(e@));
        assert(before_rest.to_multiset() == strings_view(rest@).to_multiset().insert(e@));
        assert(now.to_multiset().add(strings_view(rest@).to_multiset()) =~= before_out.to_multiset().add(
            before_rest.to_multiset(),
        ));
    }
    assert(strings_view(rest@).to_multiset() =~= Multiset::empty());
    assert(strings_view(out@).to_multiset().add(Multiset::empty()) =~= strings_view(out@).to_multiset());
    out
}

/// The reply `+OK`.
pub open spec fn ok_frame() -> Frame {
    Frame::SimpleString(seq!['O', 'K'])
}

pub fn resp_ok() -> (r: RespFrame)
    ensures
        r.model() == ok_frame(),
{
    let s = "OK".to_string();
    proof {
        reveal_strlit("OK");
        vstd::string::to_string_from_display_ensures_for_str("OK", s);
    }
    assert(s@ =~= seq!['O', 'K']);
    RespFrame::SimpleString(SimpleString(s))
}

/// A bulk string of the bytes of a text.
pub open spec fn bulk_of(s: Seq<char>) -> Frame {
    Frame::BulkString(Some(encode_utf8(s)))
}

/// A found frame, or the null frame.
pub open spec fn found_or_null(found: Option<RespFrame>) -> Frame {
    match found {
        Some(v) => v.model(),
        None => Frame::Null,
    }
}

/// How many of the flags are set.
pub open spec fn count_true(s: Seq<bool>) -> nat
    decreases s.len(),
{
    if s.len() == 0 {
        0
    } else {
        count_true(s.drop_last()) + if s.last() {
            1nat
        } else {
            0nat
        }
    }
}

pub proof fn lemma_count_true_bound(s: Seq<bool>)
    ensures
        count_true(s) <= s.len(),
    decreases s.len(),
{
    if s.len() > 0 {
        lemma_count_true_bound(s.drop_last());
    }
}

/// Fields and values, one after the other: the fields as bulk strings.
pub open spec fn flat(es: Seq<(Seq<char>, Frame)>) -> Seq<Frame> {
    Seq::new(
        2 * es.len(),
        |i: int|
            if i % 2 == 0 {
                bulk_of(es[i / 2].0)
            } else {
                es[i / 2].1
            },
    )
}

/// The reply to a lookup: the frame found, or null.
pub fn get_reply(found: Option<RespFrame>) -> (r: RespFrame)
    ensures
        r.model() == found_or_null(found),
{
    match found {
        Some(v) => v,
        None => RespFrame::Null(RespNull),
    }
}

/// The reply to a lookup of several fields: for each, the frame found or null.
pub fn hmget_reply(found: &Vec<Option<RespFrame>>) -> (r: RespFrame)
    ensures
        r.model() == Frame::Array(Some(Seq::new(found.len() as nat, |i: int| found_or_null(found@[i])))),
{
    let mut out: Vec<RespFrame> = Vec::new();
    let mut i: usize = 0;
    while i < found.len()
        invariant
            i <= found@.len(),
            out.len() == i,
            forall|j: int| 0 <= j < i ==> (#[trigger] out@[j]).model() == found_or_null(found@[j]),
        decreases found.len() - i,
    {
        let f = match &found[i] {
            Some(v) => v.deep_copy(),
            None => RespFrame::Null(RespNull),
        };
        out.push(f);
        i += 1;
    }
    assert(frames_model(out) =~= Seq::new(found.len() as nat, |i: int| found_or_null(found@[i])));
    RespFrame::Array(RespArray(Some(out)))
}

/// The reply to adding members: how many were new, as far as an `i64` counts.
pub fn sadd_reply(added: &Vec<bool>) -> (r: RespFrame)
    ensures
        r.model() == Frame::Integer(
            if count_true(added@) <= i64::MAX {
                count_true(added@) as int
            } else {
                i64::MAX as int
            },
        ),
{
    let mut n: u64 = 0;
    let mut i: usize = 0;
    while i < added.len()
        invariant
            i <= added@.len(),
            n == count_true(added@.take(i as int)),
            n <= i,
        decreases added.len() - i,
    {
        assert(added@.take(i + 1).drop_last() =~= added@.take(i as int));
        if added[i] {
            n = n + 1;
        }
        i += 1;
    }
    assert(added@.take(i as int) =~= added@);
    if n > i64::MAX as u64 {
        RespFrame::Integer(i64::MAX)
    } else {
        RespFrame::Integer(n as i64)
    }
}

/// The reply to a membership test: 1 or 0.
pub fn sismember_reply(found: bool) -> (r: RespFrame)
    ensures
        r.model() == Frame::Integer(
            if found {
                1
            } else {
                0
            },
        ),
{
    if found {
        RespFrame::Integer(1)
    } else {
        RespFrame::Integer(0)
    }
}

/// The reply listing the members of a set: an empty array when there is no set.
pub fn smembers_reply(members: Option<Vec<String>>) -> (r: RespFrame)
    ensures
        r.model() == Frame::Array(
            Some(
                match members {
                    Some(m) => Seq::new(m.len() as nat, |i: int| bulk_of(m@[i]@)),
                    None => Seq::empty(),
                },
            ),
        ),
{
    let mut out: Vec<RespFrame> = Vec::new();
    match &members {
        Some(m) => {
            let mut i: usize = 0;
            while i < m.len()
                invariant
                    i <= m@.len(),
                    out.len() == i,
                    forall|j: int| 0 <= j < i ==> (#[trigger] out@[j]).model() == bulk_of(m@[j]@),
                decreases m.len() - i,
            {
                out.push(RespFrame::BulkString(BulkString(Some(string_bytes(&m[i])))));
                i += 1;
            }
            assert(frames_model(out) =~= Seq::new(m.len() as nat, |i: int| bulk_of(m@[i]@)));
        },
        None => {
            assert(frames_model(out) =~= Seq::<Frame>::empty());
        },
    }
    RespFrame::Array(RespArray(Some(out)))
}

/// The reply listing a hash: its fields and values one after the other, in the order given;
/// an empty array when there is no hash.
pub fn hgetall_reply(entries: Option<Vec<(String, RespFrame)>>) -> (r: RespFrame)
    ensures
        r.model() == Frame::Array(
            Some(
                match entries {
                    Some(v) => flat(entries_model(v@)),
                    None => Seq::empty(),
                },
            ),
        ),
{
    let mut out: Vec<RespFrame> = Vec::new();
    match &entries {
        Some(v) => {
            let ghost es = entries_model(v@);
            let mut i: usize = 0;
            while i < v.len()
                invariant
                    es == entries_model(v@),
                    i <= v@.len(),
                    out.len() == 2 * i,
                    forall|j: int| 0 <= j < 2 * i ==> (#[trigger] out@[j]).model() == flat(es)[j],
                decreases v.len() - i,
            {
                assert(flat(es)[2 * i as int] == bulk_of(es[i as int].0));
                assert(flat(es)[2 * i + 1] == es[i as int].1);
                out.push(RespFrame::BulkString(BulkString(Some(string_bytes(&v[i].0)))));
                out.push(v[i].1.deep_copy());
                i += 1;
            }
            assert(frames_model(out) =~= flat(es));
        },
        None => {
            assert(frames_model(out) =~= Seq::<Frame>::empty());
        },
    }
    RespFrame::Array(RespArray(Some(out)))
}

/// No field comes twice.
pub open spec fn distinct_fields(es: Seq<(Seq<char>, Frame)>) -> bool {
    forall|i: int, j: int| 0 <= i < j < es.len() ==> (#[trigger] es[i]).0 != (#[trigger] es[j]).0
}

/// A reordering of entries whose fields are distinct keeps them distinct.
pub proof fn lemma_reorder_keeps_fields_distinct(es: Seq<(Seq<char>, Frame)>, vs: Seq<(Seq<char>, Frame)>)
    requires
        es.to_multiset() == vs.to_multiset(),
        distinct_fields(vs),
    ensures
        distinct_fields(es),
{
    assert forall|i: int, j: int| 0 <= i < vs.len() && 0 <= j < vs.len() && i != j implies vs[i]
        != vs[j] by {
        if i < j {
            assert(vs[i].0 != vs[j].0);
        } else {
            assert(vs[j].0 != vs[i].0);
        }
    }
    vs.lemma_multiset_has_no_duplicates();
    es.lemma_multiset_has_no_duplicates_conv();
    assert forall|i: int, j: int| 0 <= i < j < es.len() implies (#[trigger] es[i]).0 != (
    #[trigger] es[j]).0 by {
        if es[i].0 == es[j].0 {
            assert(es.contains(es[i]) && es.contains(es[j]));
            assert(es.to_multiset().count(es[i]) > 0 && es.to_multiset().count(es[j]) > 0);
            assert(vs.contains(es[i]) && vs.contains(es[j]));
            let a = choose|a: int| 0 <= a < vs.len() && vs[a] == es[i];
            let b = choose|b: int| 0 <= b < vs.len() && vs[b] == es[j];
            assert(es[i] != es[j]);
            if a < b {
                assert(vs[a].0 != vs[b].0);
            } else {
                assert(vs[b].0 != vs[a].0);
            }
        }
    }
}

/// A reordering of texts without repeats has none.
pub proof fn lemma_reorder_keeps_texts_distinct(ms: Seq<Seq<char>>, vs: Seq<Seq<char>>)
    requires
        ms.to_multiset() == vs.to_multiset(),
        vs.no_duplicates(),
    ensures
        ms.no_duplicates(),
{
    vs.lemma_multiset_has_no_duplicates();
    ms.lemma_multiset_has_no_duplicates_conv();
}

/// Bulk strings of texts, in order.
pub open spec fn bulks(ms: Seq<Seq<char>>) -> Seq<Frame> {
    Seq::new(ms.len(), |i: int| bulk_of(ms[i]))
}

/// The reply to HGETALL from the entries the store handed back: the fields and values one
/// after the other, in the order given, or in ascending order of the fields when `sort`; an
/// empty array when there is no hash.
pub fn hgetall_frame(entries: Option<Vec<(String, RespFrame)>>, sort: bool) -> (r: RespFrame)
    ensures
        match entries {
            None => r.model() == Frame::Array(Some(Seq::empty())),
            Some(v) => {
                &&& !sort ==> r.model() == Frame::Array(Some(flat(entries_model(v@))))
                &&& sort ==> exists|es: Seq<(Seq<char>, Frame)>|
                    #[trigger] sorted_by_field(es) && es.to_multiset()
                        == entries_model(v@).to_multiset() && (distinct_fields(entries_model(v@))
                        ==> distinct_fields(es)) && r.model() == Frame::Array(Some(flat(es)))
            },
        },
{
    match entries {
        None => hgetall_reply(None),
        Some(v) => if sort {
            let ghost v0 = v;
            let w = sort_entries(v);
            let ghost es = entries_model(w@);
            let r = hgetall_reply(Some(w));
            proof {
                if distinct_fields(entries_model(v0@)) {
                    lemma_reorder_keeps_fields_distinct(es, entries_model(v0@));
                }
            }
            assert(sorted_by_field(es));
            r
        } else {
            hgetall_reply(Some(v))
        },
    }
}

/// The reply to SMEMBERS from the members the store handed back: bulk strings in ascending
/// order; an empty array when there is no set.
pub fn smembers_frame(members: Option<Vec<String>>) -> (r: RespFrame)
    ensures
        match members {
            None => r.model() == Frame::Array(Some(Seq::empty())),
            Some(m) => exists|ms: Seq<Seq<char>>|
                #[trigger] sorted_texts(ms) && ms.to_multiset() == strings_view(m@).to_multiset()
                    && (strings_view(m@).no_duplicates() ==> ms.no_duplicates()) && r.model()
                    == Frame::Array(Some(bulks(ms))),
        },
{
    match members {
        None => smembers_reply(None),
        Some(m) => {
            let ghost m0 = m;
            let w = sort_strings(m);
            let ghost ms = strings_view(w@);
            let r = smembers_reply(Some(w));
            assert(bulks(ms) =~= Seq::new(w.len() as nat, |i: int| bulk_of(w@[i]@)));
            proof {
                if strings_view(m0@).no_duplicates() {
                    lemma_reorder_keeps_texts_distinct(ms, strings_view(m0@));
                }
            }
            assert(sorted_texts(ms));
            r
        },
    }
}

} // verus!

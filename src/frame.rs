//! Frames: the values that travel on the wire, and their model.
use vstd::prelude::*;

verus! {

/// Mathematical model of a frame: the value that a `RespFrame` stands for.
pub enum Frame {
    SimpleString(Seq<char>),
    SimpleError(Seq<char>),
    Integer(int),
    BulkString(Option<Seq<u8>>),
    Array(Option<Seq<Frame>>),
    Null,
    Boolean(bool),
    /// The keys and values of a map, alternating: key, value, key, value, ...
    RespMap(Seq<Frame>),
    RespSet(Seq<Frame>),
}

/// A line of text without CR or LF (`+OK`).
#[derive(Debug, Clone, PartialEq, Eq, PartialOrd)]
pub struct SimpleString(pub String);

/// An error line (`-ERR ...`).
#[derive(Debug, Clone, PartialEq, Eq, PartialOrd)]
pub struct SimpleError(pub String);

/// Length-prefixed bytes; `None` is the null bulk string.
#[derive(Debug, Clone, PartialEq, Eq, PartialOrd)]
pub struct BulkString(pub Option<Vec<u8>>);

/// A sequence of frames; `None` is the null array.
#[derive(Debug, PartialEq, PartialOrd)]
pub struct RespArray(pub Option<Vec<RespFrame>>);

/// Key-value pairs, in order.
#[derive(Debug, PartialEq, PartialOrd)]
pub struct RespMap(pub Vec<(RespFrame, RespFrame)>);

/// A sequence of frames sent as a set.
#[derive(Debug, PartialEq, PartialOrd)]
pub struct RespSet(pub Vec<RespFrame>);

/// The null frame (`_`).
#[derive(Debug, Clone, Copy, PartialEq, Eq, PartialOrd)]
pub struct RespNull;

#[derive(Debug, PartialEq, PartialOrd)]
pub enum RespFrame {
    SimpleString(SimpleString),
    SimpleError(SimpleError),
    Integer(i64),
    BulkString(BulkString),
    Array(RespArray),
    Null(RespNull),
    Boolean(bool),
    RespMap(RespMap),
    RespSet(RespSet),
}

impl View for SimpleString {
    type V = Seq<char>;

    open spec fn view(&self) -> Seq<char> {
        self.0@
    }
}

impl View for SimpleError {
    type V = Seq<char>;

    open spec fn view(&self) -> Seq<char> {
        self.0@
    }
}

impl View for BulkString {
    type V = Option<Seq<u8>>;

    open spec fn view(&self) -> Option<Seq<u8>> {
        match self.0 {
            Some(v) => Some(v@),
            None => None,
        }
    }
}

/// The models of the frames of a vector, in order.
pub open spec fn frames_model(v: Vec<RespFrame>) -> Seq<Frame>
    decreases v, 0nat,
{
    Seq::new(
        v.len() as nat,
        |i: int|
            if 0 <= i < v.len() {
                v[i].model()
            } else {
                Frame::Null
            },
    )
}

/// The models of the keys and values of pairs, alternating.
pub open spec fn pairs_model(v: Vec<(RespFrame, RespFrame)>) -> Seq<Frame>
    decreases v, 0nat,
{
    Seq::new(
        2 * v.len() as nat,
        |i: int|
            if 0 <= i < 2 * v.len() {
                if i % 2 == 0 {
                    v[i / 2].0.model()
                } else {
                    v[i / 2].1.model()
                }
            } else {
                Frame::Null
            },
    )
}

impl RespArray {
    pub open spec fn model(self) -> Option<Seq<Frame>>
        decreases self, 1nat,
    {
        match self.0 {
            Some(v) => Some(frames_model(v)),
            None => None,
        }
    }

    /// A non-null array holding `frames`.
    pub fn new(frames: Vec<RespFrame>) -> (r: RespArray)
        ensures
            r.0 == Some(frames),
    {
        RespArray(Some(frames))
    }
}

impl RespFrame {
    pub open spec fn model(self) -> Frame
        decreases self, 2nat,
    {
        match self {
            RespFrame::SimpleString(s) => Frame::SimpleString(s@),
            RespFrame::SimpleError(s) => Frame::SimpleError(s@),
            RespFrame::Integer(n) => Frame::Integer(n as int),
            RespFrame::BulkString(b) => Frame::BulkString(b@),
            RespFrame::Array(a) => Frame::Array(a.model()),
            RespFrame::Null(_) => Frame::Null,
            RespFrame::Boolean(b) => Frame::Boolean(b),
            RespFrame::RespMap(m) => Frame::RespMap(pairs_model(m.0)),
            RespFrame::RespSet(s) => Frame::RespSet(frames_model(s.0)),
        }
    }
}

impl RespFrame {
    /// A copy of the frame, down to its leaves.
    pub fn deep_copy(&self) -> (r: RespFrame)
        ensures
            r.model() == self.model(),
        decreases self,
    {
        match self {
            RespFrame::SimpleString(s) => RespFrame::SimpleString(SimpleString(s.0.clone())),
            RespFrame::SimpleError(s) => RespFrame::SimpleError(SimpleError(s.0.clone())),
            RespFrame::Integer(n) => RespFrame::Integer(*n),
            RespFrame::BulkString(b) => match &b.0 {
                Some(v) => RespFrame::BulkString(BulkString(Some(v.clone()))),
                None => RespFrame::BulkString(BulkString(None)),
            },
            RespFrame::Array(a) => match &a.0 {
                None => RespFrame::Array(RespArray(None)),
                Some(v) => {
                    let mut out: Vec<RespFrame> = Vec::new();
                    let mut i: usize = 0;
                    while i < v.len()
                        invariant
                            *self == RespFrame::Array(RespArray(Some(*v))),
                            i <= v.len(),
                            out.len() == i,
                            forall|j: int| 0 <= j < i ==> (#[trigger] out[j]).model() == v[j].model(),
                        decreases v.len() - i,
                    {
                        proof {
                            vstd::std_specs::vec::axiom_vec_index_decreases(*v, i as int);
                            assert(decreases_to!(*self => self->Array_0.0->Some_0));
                        }
                        out.push(v[i].deep_copy());
                        i += 1;
                    }
                    assert(frames_model(out) =~= frames_model(*v));
                    RespFrame::Array(RespArray(Some(out)))
                },
            },
            RespFrame::Null(_) => RespFrame::Null(RespNull),
            RespFrame::Boolean(b) => RespFrame::Boolean(*b),
            RespFrame::RespMap(m) => {
                let v = &m.0;
                let mut out: Vec<(RespFrame, RespFrame)> = Vec::new();
                let mut i: usize = 0;
                while i < v.len()
                    invariant
                        *self == RespFrame::RespMap(RespMap(*v)),
                        i <= v.len(),
                        out.len() == i,
                        forall|j: int|
                            0 <= j < i ==> (#[trigger] out[j]).0.model() == v[j].0.model()
                                && out[j].1.model() == v[j].1.model(),
                    decreases v.len() - i,
                {
                    proof {
                        vstd::std_specs::vec::axiom_vec_index_decreases(*v, i as int);
                        assert(decreases_to!(*self => self->RespMap_0.0));
                        assert(decreases_to!(v[i as int] => v[i as int].0));
                        assert(decreases_to!(v[i as int] => v[i as int].1));
                    }
                    let k = v[i].0.deep_copy();
                    let x = v[i].1.deep_copy();
                    out.push((k, x));
                    i += 1;
                }
                assert(pairs_model(out) =~= pairs_model(*v));
                RespFrame::RespMap(RespMap(out))
            },
            RespFrame::RespSet(st) => {
                let v = &st.0;
                let mut out: Vec<RespFrame> = Vec::new();
                let mut i: usize = 0;
                while i < v.len()
                    invariant
                        *self == RespFrame::RespSet(RespSet(*v)),
                        i <= v.len(),
                        out.len() == i,
                        forall|j: int| 0 <= j < i ==> (#[trigger] out[j]).model() == v[j].model(),
                    decreases v.len() - i,
                {
                    proof {
                        vstd::std_specs::vec::axiom_vec_index_decreases(*v, i as int);
                        assert(decreases_to!(*self => self->RespSet_0.0));
                    }
                    out.push(v[i].deep_copy());
                    i += 1;
                }
                assert(frames_model(out) =~= frames_model(*v));
                RespFrame::RespSet(RespSet(out))
            },
        }
    }
}

impl Clone for RespFrame {
    fn clone(&self) -> (r: RespFrame)
        ensures
            r.model() == self.model(),
    {
        self.deep_copy()
    }
}

impl SimpleString {
    pub fn new(s: String) -> (r: SimpleString)
        ensures
            r@ == s@,
    {
        SimpleString(s)
    }
}

impl SimpleError {
    pub fn new(s: String) -> (r: SimpleError)
        ensures
            r@ == s@,
    {
        SimpleError(s)
    }
}

impl BulkString {
    /// A non-null bulk string holding `data`.
    pub fn new(data: Vec<u8>) -> (r: BulkString)
        ensures
            r@ == Some(data@),
    {
        BulkString(Some(data))
    }
}


} // verus!

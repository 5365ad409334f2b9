//! The stored envelope of a record, and its byte form.
use vstd::prelude::*;
use crate::codec::{frame_bytes, parse_frame, push_u64, read_u64, TAG_NONE, TAG_SOME};

verus! {

/// A record type: it derives the id of the epoch that a record stamped
/// `time` belongs to.
pub trait Tick {
    fn epoch(&self, time: u64) -> u64;
}

/// A timestamp paired with an optional payload; an absent payload is a
/// placeholder that is never stored.
pub struct Frame<T> {
    pub time: u64,
    pub tick: Option<T>,
}

impl<T> Frame<T> {
    pub fn new(time: u64, tick: Option<T>) -> (r: Frame<T>)
        ensures
            r.time == time,
            r.tick == tick,
    {
        Frame { time, tick }
    }

    pub fn tick(&self) -> (r: Option<&T>)
        ensures
            r is Some <==> self.tick is Some,
            r is Some ==> *r->Some_0 == self.tick->Some_0,
    {
        match &self.tick {
            Some(t) => Some(t),
            None => None,
        }
    }

    pub fn time(&self) -> (r: u64)
        ensures
            r == self.time,
    {
        self.time
    }
}

impl<T: Tick> Frame<T> {
    /// The epoch of the frame, which only a payload can tell.
    pub fn epoch(&self) -> (r: Option<u64>)
        ensures
            r is Some <==> self.tick is Some,
    {
        match &self.tick {
            Some(t) => Some(t.epoch(self.time)),
            None => None,
        }
    }
}

/// The payload bytes of a frame whose payload is already encoded.
pub open spec fn tick_bytes(tick: Option<Vec<u8>>) -> Option<Seq<u8>> {
    match tick {
        Some(p) => Some(p@),
        None => None,
    }
}

/// Appends all of `src` to `out`.
pub fn push_all(out: &mut Vec<u8>, src: &[u8])
    ensures
        final(out)@ == old(out)@ + src@,
{
    let ghost start = out@;
    let n = src.len();
    let mut i: usize = 0;
    while i < n
        invariant
            i <= n,
            n == src@.len(),
            out@ == start + src@.subrange(0, i as int),
        decreases n - i,
    {
        out.push(src[i]);
        assert(src@.subrange(0, i + 1) =~= src@.subrange(0, i as int) + seq![src@[i as int]]);
        i = i + 1;
    }
    assert(src@.subrange(0, n as int) =~= src@);
}

/// The stored form of a frame whose payload is already encoded.
pub fn encode_frame(frame: &Frame<Vec<u8>>) -> (r: Vec<u8>)
    ensures
        r@ == frame_bytes(frame.time, tick_bytes(frame.tick)),
{
    let mut out: Vec<u8> = Vec::new();
    push_u64(&mut out, frame.time);
    match &frame.tick {
        None => {
            out.push(TAG_NONE);
        },
        Some(p) => {
            out.push(TAG_SOME);
            push_all(&mut out, p.as_slice());
        },
    }
    proof {
        let e: Seq<u8> = Seq::empty();
        assert(e + crate::codec::u64_bytes(frame.time) =~= crate::codec::u64_bytes(frame.time));
    }
    out
}

/// Reads a stored frame back; `None` when the bytes are not one.
pub fn decode_frame(b: &[u8]) -> (r: Option<Frame<Vec<u8>>>)
    ensures
        r is None <==> parse_frame(b@) is None,
        r is Some ==> parse_frame(b@) == Some((r->Some_0.time, tick_bytes(r->Some_0.tick))),
{
    let len = b.len();
    if len < 9 {
        return None;
    }
    let time = read_u64(b, 0);
    let tag = b[8];
    if tag == TAG_NONE && len == 9 {
        Some(Frame { time, tick: None })
    } else if tag == TAG_SOME {
        let mut payload: Vec<u8> = Vec::new();
        let rest = &b[9..len];
        push_all(&mut payload, rest);
        assert(payload@ =~= b@.subrange(9, len as int));
        Some(Frame { time, tick: Some(payload) })
    } else {
        None
    }
}

} // verus!

//! The framed IPC between UI clients and an agent host, in both directions:
//! a one-byte channel, a little-endian sixteen-bit payload length, then the
//! payload. A writer truncates oversized payloads to what the length field
//! can carry; a reader waits for exactly the announced number of bytes, so
//! a frame split across any number of TCP writes is reassembled unchanged.

use vstd::prelude::*;

verus! {

/// The channel tag for PTY output bytes.
pub const CHANNEL_PTY_OUTPUT: u8 = 0x01;

/// The channel tag for PTY input bytes.
pub const CHANNEL_PTY_INPUT: u8 = 0x02;

/// The channel tag for JSON control payloads.
pub const CHANNEL_CONTROL: u8 = 0x03;

/// A payload as the length field can carry it: cut to 65535 bytes.
pub open spec fn trunc_payload(p: Seq<u8>) -> Seq<u8> {
    if p.len() > 0xffff {
        p.take(0xffff)
    } else {
        p
    }
}

/// The bytes of one frame: channel, length (little endian), payload.
pub open spec fn frame_bytes(ch: u8, p: Seq<u8>) -> Seq<u8> {
    let t = trunc_payload(p);
    seq![ch, (t.len() % 256) as u8, ((t.len() / 256) as u8)] + t
}

/// The complete frames at the front of a byte stream, in order; an
/// incomplete trailer yields nothing further.
pub open spec fn frames_of(s: Seq<u8>) -> Seq<(u8, Seq<u8>)>
    decreases s.len(),
{
    if s.len() < 3 {
        Seq::empty()
    } else {
        let len = (s[1] as int) + 256 * (s[2] as int);
        if s.len() < 3 + len {
            Seq::empty()
        } else {
            seq![(s[0], s.subrange(3, 3 + len))] + frames_of(s.skip(3 + len))
        }
    }
}

/// Encode one frame; a payload longer than 65535 bytes is truncated.
pub fn encode_frame(channel: u8, payload: &Vec<u8>) -> (r: Vec<u8>)
    ensures
        r@ == frame_bytes(channel, payload@),
        r@.len() == 3 + trunc_payload(payload@).len(),
{
    let len: usize = if payload.len() > 0xffff {
        0xffff
    } else {
        payload.len()
    };
    let mut r: Vec<u8> = Vec::new();
    r.push(channel);
    r.push((len % 256) as u8);
    r.push((len / 256) as u8);
    let mut i: usize = 0;
    while i < len
        invariant
            i <= len,
            len == trunc_payload(payload@).len(),
            len <= payload@.len(),
            len <= 0xffff,
            r@ == seq![
                channel,
                (len % 256) as u8,
                ((len / 256) as u8),
            ] + payload@.subrange(0, i as int),
        decreases len - i,
    {
        r.push(payload[i]);
        assert(r@ =~= seq![channel, (len % 256) as u8, ((len / 256) as u8)] + payload@.subrange(
            0,
            i + 1,
        ));
        i += 1;
    }
    proof {
        assert(payload@.subrange(0, len as int) =~= trunc_payload(payload@));
        assert(r@ =~= frame_bytes(channel, payload@));
    }
    r
}

/// Reassembles frames from a byte stream delivered in arbitrary pieces.
pub struct FrameReader {
    buf: Vec<u8>,
    pos: usize,
}

impl FrameReader {
    /// The bytes received and not yet consumed.
    pub closed spec fn pending(&self) -> Seq<u8> {
        self.buf@.skip(self.pos as int)
    }

    /// The consumed prefix stays in front of the buffer.
    pub closed spec fn wf(&self) -> bool {
        self.pos <= self.buf@.len()
    }

    /// A reader with nothing pending.
    pub fn new() -> (r: FrameReader)
        ensures
            r.wf(),
            r.pending() == Seq::<u8>::empty(),
    {
        let r = FrameReader { buf: Vec::new(), pos: 0 };
        proof {
            assert(r.buf@.skip(0) =~= Seq::<u8>::empty());
        }
        r
    }

    /// Take in one piece of the stream. Feeding pieces one at a time leaves
    /// the reader exactly as feeding their concatenation would.
    pub fn feed(&mut self, bytes: &Vec<u8>)
        requires
            old(self).wf(),
        ensures
            final(self).wf(),
            final(self).pending() == old(self).pending() + bytes@,
    {
        let n = bytes.len();
        let mut i: usize = 0;
        while i < n
            invariant
                i <= n,
                n == bytes@.len(),
                self.wf(),
                self.pos == old(self).pos,
                self.buf@ == old(self).buf@ + bytes@.subrange(0, i as int),
            decreases n - i,
        {
            self.buf.push(bytes[i]);
            assert(self.buf@ =~= old(self).buf@ + bytes@.subrange(0, i + 1));
            i += 1;
        }
        proof {
            assert(bytes@.subrange(0, n as int) =~= bytes@);
            assert(self.buf@.skip(self.pos as int) =~= old(self).buf@.skip(old(self).pos as int)
                + bytes@);
        }
    }

    /// Pop the next complete frame, if the pending bytes hold one. The
    /// reader only ever waits for exactly the announced payload length.
    pub fn try_next(&mut self) -> (r: Option<(u8, Vec<u8>)>)
        requires
            old(self).wf(),
        ensures
            final(self).wf(),
            match r {
                Some(f) => frames_of(old(self).pending()) == seq![(f.0, f.1@)] + frames_of(
                    final(self).pending(),
                ),
                None => frames_of(old(self).pending()) == Seq::<(u8, Seq<u8>)>::empty()
                    && final(self).pending() == old(self).pending(),
            },
    {
        let avail = self.buf.len() - self.pos;
        if avail < 3 {
            return None;
        }
        let ch = self.buf[self.pos];
        let b1 = self.buf[self.pos + 1];
        let b2 = self.buf[self.pos + 2];
        let len: usize = (b1 as usize) + 256 * (b2 as usize);
        if avail - 3 < len {
            assert(old(self).pending().len() < 3 + len);
            return None;
        }
        let ghost pend = old(self).pending();
        let mut payload: Vec<u8> = Vec::new();
        let start = self.pos + 3;
        let bl = self.buf.len();
        let mut i: usize = 0;
        while i < len
            invariant
                i <= len,
                start == self.pos + 3,
                bl == self.buf@.len(),
                start + len <= bl,
                payload@ == self.buf@.subrange(start as int, start + i),
                self == old(self),
            decreases len - i,
        {
            payload.push(self.buf[start + i]);
            assert(payload@ =~= self.buf@.subrange(start as int, start + (i + 1)));
            i += 1;
        }
        self.pos = start + len;
        proof {
            assert(pend[0] == ch);
            assert(pend[1] == b1);
            assert(pend[2] == b2);
            assert(payload@ =~= pend.subrange(3, 3 + len));
            assert(self.buf@.skip(self.pos as int) =~= pend.skip(3 + len));
        }
        Some((ch, payload))
    }
}

/// One encoded frame at the front of a stream decodes to itself: the frames
/// of `frame_bytes(ch, p)` followed by anything are that frame followed by
/// the frames of the rest. With an oversized payload the frame carries the
/// truncated payload.
pub proof fn lemma_frame_round_trip(ch: u8, p: Seq<u8>, rest: Seq<u8>)
    ensures
        frames_of(frame_bytes(ch, p) + rest) == seq![(ch, trunc_payload(p))] + frames_of(rest),
{
    let t = trunc_payload(p);
    let s = frame_bytes(ch, p) + rest;
    assert(t.len() <= 0xffff);
    assert(s[1] == (t.len() % 256) as u8);
    assert(s[2] == (t.len() / 256) as u8);
    assert((s[1] as int) + 256 * (s[2] as int) == t.len());
    assert(s.subrange(3, 3 + t.len() as int) =~= t);
    assert(s.skip(3 + t.len() as int) =~= rest);
}

/// A stream holding two encoded frames back to back decodes to exactly
/// those two frames in order; with `feed` collapsing any split of the
/// stream into one pending sequence, the reader reconstructs them however
/// the bytes arrived.
pub proof fn lemma_two_frames(ch1: u8, p1: Seq<u8>, ch2: u8, p2: Seq<u8>)
    requires
        p1.len() <= 0xffff,
        p2.len() <= 0xffff,
    ensures
        frames_of(frame_bytes(ch1, p1) + frame_bytes(ch2, p2)) == seq![(ch1, p1), (ch2, p2)],
{
    lemma_frame_round_trip(ch1, p1, frame_bytes(ch2, p2));
    lemma_frame_round_trip(ch2, p2, Seq::empty());
    assert(frame_bytes(ch2, p2) + Seq::<u8>::empty() =~= frame_bytes(ch2, p2));
    assert(frames_of(Seq::<u8>::empty()) == Seq::<(u8, Seq<u8>)>::empty());
    assert(seq![(ch1, p1)] + (seq![(ch2, p2)] + Seq::<(u8, Seq<u8>)>::empty()) =~= seq![
        (ch1, p1),
        (ch2, p2),
    ]);
}

} // verus!

//! Streaming frame decoder: bytes arrive in arbitrary pieces, whole frames
//! leave as samples, and a misaligned buffer slips forward one byte at a time.
use crate::frame::{
    encodable, frame_at, frame_bytes, frame_sample, has_sync, head_word, lemma_frame_prefix,
    lemma_frame_round_trip, le16, pack_head, Sample, FRAME_LEN,
};
use vstd::prelude::*;

verus! {

/// What the decoder reports, in stream order.
#[derive(Clone, Copy, Debug, PartialEq, Eq, Structural)]
pub enum Event {
    /// A synchronized frame was decoded.
    Frame(Sample),
    /// The buffer was out of sync: this byte was dropped.
    OutOfSync(u8),
}

/// The events that decoding `s` from its start yields, and the bytes left
/// over (fewer than a frame). While six bytes are there: with the sync bit
/// set one frame is consumed, otherwise one byte is dropped.
pub open spec fn decode_stream(s: Seq<u8>) -> (Seq<Event>, Seq<u8>)
    decreases s.len(),
{
    if s.len() < FRAME_LEN {
        (Seq::empty(), s)
    } else if !has_sync(head_word(s)) {
        let d = decode_stream(s.drop_first());
        (seq![Event::OutOfSync(s[0])] + d.0, d.1)
    } else {
        let d = decode_stream(s.subrange(FRAME_LEN as int, s.len() as int));
        (seq![Event::Frame(frame_sample(s))] + d.0, d.1)
    }
}

/// The events and leftover bytes of handing `chunks` to a decoder, one push
/// each, that starts with `pending` buffered.
pub open spec fn feed_chunks(pending: Seq<u8>, chunks: Seq<Seq<u8>>) -> (Seq<Event>, Seq<u8>)
    decreases chunks.len(),
{
    if chunks.len() == 0 {
        (Seq::empty(), pending)
    } else {
        let d = decode_stream(pending + chunks[0]);
        let rest = feed_chunks(d.1, chunks.drop_first());
        (d.0 + rest.0, rest.1)
    }
}

/// Decoding leaves fewer bytes than a frame.
pub proof fn lemma_leftover_short(s: Seq<u8>)
    ensures
        decode_stream(s).1.len() < FRAME_LEN,
    decreases s.len(),
{
    if s.len() >= FRAME_LEN {
        if !has_sync(head_word(s)) {
            lemma_leftover_short(s.drop_first());
        } else {
            lemma_leftover_short(s.subrange(FRAME_LEN as int, s.len() as int));
        }
    }
}

/// Decoding `a + b` is decoding `a`, then decoding what `a` left over
/// followed by `b`: the only state between two pushes is the leftover bytes.
pub proof fn lemma_decode_split(a: Seq<u8>, b: Seq<u8>)
    ensures
        decode_stream(a + b) == ({
            let d = decode_stream(a);
            let e = decode_stream(d.1 + b);
            (d.0 + e.0, e.1)
        }),
    decreases a.len(),
{
    let d = decode_stream(a);
    if a.len() < FRAME_LEN {
        assert(d.0 + decode_stream(a + b).0 =~= decode_stream(a + b).0);
    } else {
        let ab = a + b;
        assert(ab.subrange(0, FRAME_LEN as int) =~= a.subrange(0, FRAME_LEN as int));
        lemma_frame_prefix(ab, a);
        if !has_sync(head_word(a)) {
            assert(ab.drop_first() =~= a.drop_first() + b);
            lemma_decode_split(a.drop_first(), b);
            let d1 = decode_stream(a.drop_first());
            let e = decode_stream(d1.1 + b);
            assert(seq![Event::OutOfSync(a[0])] + (d1.0 + e.0) =~= (seq![Event::OutOfSync(a[0])]
                + d1.0) + e.0);
        } else {
            let tail = a.subrange(FRAME_LEN as int, a.len() as int);
            assert(ab.subrange(FRAME_LEN as int, ab.len() as int) =~= tail + b);
            lemma_decode_split(tail, b);
            let d1 = decode_stream(tail);
            let e = decode_stream(d1.1 + b);
            assert(seq![Event::Frame(frame_sample(a))] + (d1.0 + e.0) =~= (seq![
                Event::Frame(frame_sample(a)),
            ] + d1.0) + e.0);
        }
    }
}

/// However a byte stream is cut into pushes (one byte at a time, or all at
/// once), the decoder yields the same events and keeps the same leftover
/// bytes as one push of the whole stream.
pub proof fn lemma_chunking_invariant(pending: Seq<u8>, chunks: Seq<Seq<u8>>)
    requires
        pending.len() < FRAME_LEN,
    ensures
        feed_chunks(pending, chunks) == decode_stream(pending + chunks.flatten()),
    decreases chunks.len(),
{
    if chunks.len() == 0 {
        assert(pending + chunks.flatten() =~= pending);
        lemma_empty_events(pending);
    } else {
        let d = decode_stream(pending + chunks[0]);
        lemma_leftover_short(pending + chunks[0]);
        lemma_chunking_invariant(d.1, chunks.drop_first());
        assert(pending + chunks.flatten() =~= (pending + chunks[0]) + chunks.drop_first().flatten());
        lemma_decode_split(pending + chunks[0], chunks.drop_first().flatten());
    }
}

proof fn lemma_empty_events(s: Seq<u8>)
    requires
        s.len() < FRAME_LEN,
    ensures
        decode_stream(s) == (Seq::<Event>::empty(), s),
{
}

/// One stray byte in front of a frame costs exactly that byte: the decoder
/// drops it, reports it, and then decodes the frame and what follows as if
/// the byte had not been there.
pub proof fn lemma_resync_one_byte(x: u8, s: Sample, rest: Seq<u8>)
    requires
        encodable(s),
    ensures
        decode_stream(seq![x] + frame_bytes(s) + rest) == ({
            let d = decode_stream(rest);
            (seq![Event::OutOfSync(x), Event::Frame(s)] + d.0, d.1)
        }),
{
    let f = frame_bytes(s);
    let w = seq![x] + f + rest;
    lemma_frame_round_trip(s);
    let h = pack_head(s);
    let r = s.reading;
    let flag: u16 = if s.digital {
        0x4000u16
    } else {
        0u16
    };
    assert(h == 0x8000u16 | flag | (((r >> 5u16) & 0x1fu16) << 8u16) | (r & 0x1fu16));
    assert((h % 256) < 32) by (bit_vector)
        requires
            h == 0x8000u16 | flag | (((r >> 5u16) & 0x1fu16) << 8u16) | (r & 0x1fu16),
            flag == 0x4000u16 || flag == 0u16,
    ;
    assert(w[0] == x && w[1] == f[0]);
    let v = head_word(w);
    assert(le16(w, 0) < 32768);
    assert((v >> 15u16) & 1u16 == 0u16) by (bit_vector)
        requires
            v < 32768u16,
    ;
    let fr = f + rest;
    assert(w.drop_first() =~= fr);
    assert(fr.subrange(0, FRAME_LEN as int) =~= f.subrange(0, FRAME_LEN as int));
    lemma_frame_prefix(fr, f);
    assert(fr.subrange(FRAME_LEN as int, fr.len() as int) =~= rest);
    let d = decode_stream(rest);
    assert(w.len() >= FRAME_LEN);
    assert(!has_sync(head_word(w)));
    assert(fr.len() >= FRAME_LEN);
    assert(has_sync(head_word(fr)));
    assert(frame_sample(fr) == s);
    assert(decode_stream(fr) == (seq![Event::Frame(s)] + d.0, d.1));
    assert(seq![Event::OutOfSync(x)] + (seq![Event::Frame(s)] + d.0) =~= seq![
        Event::OutOfSync(x),
        Event::Frame(s),
    ] + d.0);
}

/// Buffers bytes between pushes and turns them into events.
pub struct Decoder {
    buffer: Vec<u8>,
}

impl Decoder {
    /// The bytes buffered since the last complete frame.
    pub closed spec fn pending(&self) -> Seq<u8> {
        self.buffer@
    }

    /// Fewer bytes than a frame wait between pushes.
    pub open spec fn wf(&self) -> bool {
        self.pending().len() < FRAME_LEN
    }

    /// A decoder with nothing buffered.
    pub fn new() -> (d: Decoder)
        ensures
            d.wf(),
            d.pending() == Seq::<u8>::empty(),
    {
        Decoder { buffer: Vec::new() }
    }

    /// Number of bytes buffered.
    pub fn pending_len(&self) -> (n: usize)
        ensures
            n == self.pending().len(),
    {
        self.buffer.len()
    }

    /// Drops whatever is buffered.
    pub fn clear(&mut self)
        ensures
            final(self).wf(),
            final(self).pending() == Seq::<u8>::empty(),
    {
        self.buffer.clear();
    }

    /// Appends `bytes` to the buffer and decodes while a whole frame could be
    /// there; the rest stays buffered for the next push.
    pub fn push_bytes(&mut self, bytes: &[u8]) -> (events: Vec<Event>)
        ensures
            final(self).wf(),
            events@ == decode_stream(old(self).pending() + bytes@).0,
            final(self).pending() == decode_stream(old(self).pending() + bytes@).1,
    {
        let ghost start = self.buffer@;
        let mut i: usize = 0;
        while i < bytes.len()
            invariant
                i <= bytes@.len(),
                self.buffer@ == start + bytes@.subrange(0, i as int),
            decreases bytes@.len() - i,
        {
            self.buffer.push(bytes[i]);
            i = i + 1;
            assert(self.buffer@ =~= start + bytes@.subrange(0, i as int));
        }
        assert(bytes@.subrange(0, bytes@.len() as int) =~= bytes@);
        let ghost all = self.buffer@;
        let mut events: Vec<Event> = Vec::new();
        let mut pos: usize = 0;
        assert(all.subrange(0, all.len() as int) =~= all);
        while self.buffer.len() - pos >= FRAME_LEN
            invariant
                self.buffer@ == all,
                pos <= all.len(),
                decode_stream(all) == ({
                    let d = decode_stream(all.subrange(pos as int, all.len() as int));
                    (events@ + d.0, d.1)
                }),
            decreases all.len() - pos,
        {
            let ghost rest = all.subrange(pos as int, all.len() as int);
            let ghost d0 = decode_stream(rest);
            proof {
                assert(rest.subrange(0, FRAME_LEN as int) =~= all.subrange(
                    pos as int,
                    pos + FRAME_LEN,
                ).subrange(0, FRAME_LEN as int));
                lemma_frame_prefix(rest, all.subrange(pos as int, pos + FRAME_LEN));
            }
            match frame_at(self.buffer.as_slice(), pos) {
                Some(sample) => {
                    proof {
                        assert(rest.subrange(FRAME_LEN as int, rest.len() as int) =~= all.subrange(
                            pos + FRAME_LEN,
                            all.len() as int,
                        ));
                        let d1 = decode_stream(
                            all.subrange(pos + FRAME_LEN, all.len() as int),
                        );
                        assert(events@.push(Event::Frame(sample)) + d1.0 =~= events@ + (seq![
                            Event::Frame(sample),
                        ] + d1.0));
                    }
                    events.push(Event::Frame(sample));
                    pos = pos + FRAME_LEN;
                },
                None => {
                    proof {
                        assert(rest.drop_first() =~= all.subrange(pos + 1, all.len() as int));
                        let d1 = decode_stream(all.subrange(pos + 1, all.len() as int));
                        assert(events@.push(Event::OutOfSync(all[pos as int])) + d1.0 =~= events@
                            + (seq![Event::OutOfSync(all[pos as int])] + d1.0));
                    }
                    events.push(Event::OutOfSync(self.buffer[pos]));
                    pos = pos + 1;
                },
            }
        }
        let ghost rest = all.subrange(pos as int, all.len() as int);
        assert(events@ + Seq::<Event>::empty() =~= events@);
        self.buffer = self.buffer.split_off(pos);
        proof {
            lemma_leftover_short(all);
        }
        events
    }
}

} // verus!

//! One 6-byte wire frame: a 16-bit little-endian word carrying the sync bit,
//! the digital flag and a 10-bit reading, followed by a 32-bit little-endian
//! word carrying a 28-bit timestamp with the top bit of every byte cleared.
use byteorder::{ByteOrder, LittleEndian};
use vstd::prelude::*;

verus! {

/// Bytes in one frame on the wire.
pub const FRAME_LEN: usize = 6;

/// Largest raw reading plus one; the analog value is this minus the reading.
pub const READING_SPAN: u16 = 1024;

/// One decoded frame.
#[derive(Clone, Copy, Debug, PartialEq, Eq, Structural)]
pub struct Sample {
    /// The raw 10-bit reading, `high << 5 | low`.
    pub reading: u16,
    /// The digital flag (bit 14 of the first word).
    pub digital: bool,
    /// The reconstructed timestamp in source time units.
    pub timestamp: u32,
}

impl Sample {
    /// The analog value: the reading flipped to the sensor's polarity.
    pub fn analog(&self) -> (r: i32)
        ensures
            r == READING_SPAN - self.reading,
    {
        READING_SPAN as i32 - self.reading as i32
    }
}

/// The unsigned value of two bytes read little-endian from `b` at `at`.
pub open spec fn le16(b: Seq<u8>, at: int) -> int {
    b[at] as int + 256 * b[at + 1] as int
}

/// The unsigned value of four bytes read little-endian from `b` at `at`.
pub open spec fn le32(b: Seq<u8>, at: int) -> int {
    le16(b, at) + 65536 * le16(b, at + 2)
}

/// The first word of a frame.
pub open spec fn head_word(f: Seq<u8>) -> u16 {
    le16(f, 0) as u16
}

/// The second word of a frame.
pub open spec fn time_word(f: Seq<u8>) -> u32 {
    le32(f, 2) as u32
}

/// Bit 15 of the first word marks the start of a frame.
pub open spec fn has_sync(value: u16) -> bool {
    (value >> 15u16) & 1u16 == 1u16
}

/// Bit 14 of the first word.
pub open spec fn digital_of(value: u16) -> bool {
    (value >> 14u16) & 1u16 == 1u16
}

/// Bits 8..=12 of the first word are the high half, bits 0..=4 the low half.
pub open spec fn reading_of(value: u16) -> u16 {
    (((value >> 8u16) & 0x1fu16) << 5u16) | (value & 0x1fu16)
}

/// Joins the four 7-bit groups of the packed word into 28 bits and restores
/// the four low bits that were dropped for packing.
pub open spec fn unpack_time(p: u32) -> u32 {
    (((p >> 3u32) & 0x0fe0_0000u32) | ((p >> 2u32) & 0x001f_c000u32) | ((p >> 1u32)
        & 0x0000_3f80u32) | (p & 0x0000_007fu32)) << 4u32
}

/// The sample that a synchronized frame `f` holds.
pub open spec fn frame_sample(f: Seq<u8>) -> Sample {
    Sample {
        reading: reading_of(head_word(f)),
        digital: digital_of(head_word(f)),
        timestamp: unpack_time(time_word(f)),
    }
}

/// A sample that a frame can carry: a 10-bit reading and a timestamp whose
/// four low bits are zero.
pub open spec fn encodable(s: Sample) -> bool {
    s.reading < READING_SPAN && s.timestamp % 16 == 0
}

/// The first word that carries `s`.
pub open spec fn pack_head(s: Sample) -> u16 {
    0x8000u16 | (if s.digital {
        0x4000u16
    } else {
        0u16
    }) | (((s.reading >> 5u16) & 0x1fu16) << 8u16) | (s.reading & 0x1fu16)
}

/// The second word that carries `t`: each 7-bit group of `t >> 4` in the low
/// bits of its own byte.
pub open spec fn pack_time(t: u32) -> u32 {
    let q = t >> 4u32;
    (q & 0x7fu32) | (((q >> 7u32) & 0x7fu32) << 8u32) | (((q >> 14u32) & 0x7fu32) << 16u32) | (((q
        >> 21u32) & 0x7fu32) << 24u32)
}

/// The six bytes of the frame that carries `s`.
pub open spec fn frame_bytes(s: Sample) -> Seq<u8> {
    let h = pack_head(s) as int;
    let t = pack_time(s.timestamp) as int;
    seq![
        (h % 256) as u8,
        (h / 256) as u8,
        (t % 256) as u8,
        (t / 256 % 256) as u8,
        (t / 65536 % 256) as u8,
        (t / 16777216) as u8,
    ]
}

/// Relies on byteorder's `LittleEndian::read_u16`: the first two bytes of
/// `buf`, least significant first.
#[verifier::external_body]
fn read_le_u16(buf: &[u8]) -> (r: u16)
    requires
        buf@.len() >= 2,
    ensures
        r as int == le16(buf@, 0),
{
    LittleEndian::read_u16(buf)
}

/// Relies on byteorder's `LittleEndian::read_u32`: the first four bytes of
/// `buf`, least significant first.
#[verifier::external_body]
fn read_le_u32(buf: &[u8]) -> (r: u32)
    requires
        buf@.len() >= 4,
    ensures
        r as int == le32(buf@, 0),
{
    LittleEndian::read_u32(buf)
}

/// Decodes the frame that starts at `at` in `buf`: `None` when its sync bit
/// is clear.
pub(crate) fn frame_at(buf: &[u8], at: usize) -> (r: Option<Sample>)
    requires
        at + FRAME_LEN <= buf@.len(),
    ensures
        r == (if has_sync(head_word(buf@.subrange(at as int, at + FRAME_LEN))) {
            Some(frame_sample(buf@.subrange(at as int, at + FRAME_LEN)))
        } else {
            None
        }),
{
    let ghost f = buf@.subrange(at as int, at + FRAME_LEN);
    let n = buf.len();
    assert(at + FRAME_LEN <= n);
    let value = read_le_u16(&buf[at..at + 2]);
    assert(value == head_word(f));
    if (value >> 15u16) & 1u16 != 1u16 {
        return None;
    }
    let packed = read_le_u32(&buf[at + 2..at + FRAME_LEN]);
    assert(packed == time_word(f));
    let high = (value >> 8u16) & 0x1fu16;
    let low = value & 0x1fu16;
    let time = (((packed >> 3u32) & 0x0fe0_0000u32) | ((packed >> 2u32) & 0x001f_c000u32) | ((packed
        >> 1u32) & 0x0000_3f80u32) | (packed & 0x0000_007fu32)) << 4u32;
    Some(Sample { reading: (high << 5u16) | low, digital: (value >> 14u16) & 1u16 == 1u16, timestamp: time })
}

/// Encodes `s` as one frame, as the sampling device does: only the low ten
/// bits of the reading are sent, and the four low bits of the timestamp are
/// dropped.
pub fn encode_frame(s: &Sample) -> (r: Vec<u8>)
    ensures
        r@ == frame_bytes(*s),
{
    let flag: u16 = if s.digital {
        0x4000
    } else {
        0
    };
    let head: u16 = 0x8000u16 | flag | (((s.reading >> 5u16) & 0x1fu16) << 8u16) | (s.reading
        & 0x1fu16);
    let q = s.timestamp >> 4u32;
    let packed: u32 = (q & 0x7fu32) | (((q >> 7u32) & 0x7fu32) << 8u32) | (((q >> 14u32) & 0x7fu32)
        << 16u32) | (((q >> 21u32) & 0x7fu32) << 24u32);
    let mut r: Vec<u8> = Vec::new();
    r.push((head % 256) as u8);
    r.push((head / 256) as u8);
    r.push((packed % 256) as u8);
    r.push((packed / 256 % 256) as u8);
    r.push((packed / 65536 % 256) as u8);
    r.push((packed / 16777216) as u8);
    assert(r@ =~= frame_bytes(*s));
    r
}

/// Decodes the frame at the start of `bytes`: `None` when fewer than six
/// bytes are given or the sync bit is clear.
pub fn decode_frame(bytes: &[u8]) -> (r: Option<Sample>)
    ensures
        r == (if bytes@.len() >= FRAME_LEN && has_sync(head_word(bytes@)) {
            Some(frame_sample(bytes@))
        } else {
            None
        }),
{
    if bytes.len() < FRAME_LEN {
        return None;
    }
    proof {
        let f = bytes@.subrange(0, FRAME_LEN as int);
        assert(f.subrange(0, FRAME_LEN as int) =~= f);
        lemma_frame_prefix(bytes@, bytes@.subrange(0, FRAME_LEN as int));
    }
    frame_at(bytes, 0)
}

/// Only the first six bytes of a frame take part in decoding it.
pub proof fn lemma_frame_prefix(a: Seq<u8>, b: Seq<u8>)
    requires
        a.len() >= FRAME_LEN,
        b.len() >= FRAME_LEN,
        a.subrange(0, FRAME_LEN as int) == b.subrange(0, FRAME_LEN as int),
    ensures
        head_word(a) == head_word(b),
        frame_sample(a) == frame_sample(b),
{
    assert(forall|i: int| 0 <= i < FRAME_LEN ==> a[i] == a.subrange(0, FRAME_LEN as int)[i]);
    assert(forall|i: int| 0 <= i < FRAME_LEN ==> b[i] == b.subrange(0, FRAME_LEN as int)[i]);
}

proof fn lemma_head_bits(s: Sample)
    requires
        s.reading < READING_SPAN,
    ensures
        has_sync(pack_head(s)),
        digital_of(pack_head(s)) == s.digital,
        reading_of(pack_head(s)) == s.reading,
{
    let r = s.reading;
    if s.digital {
        assert(pack_head(s) == 0x8000u16 | 0x4000u16 | (((r >> 5u16) & 0x1fu16) << 8u16) | (r
            & 0x1fu16));
        assert({
            let h = 0x8000u16 | 0x4000u16 | (((r >> 5u16) & 0x1fu16) << 8u16) | (r & 0x1fu16);
            &&& (h >> 15u16) & 1u16 == 1u16
            &&& (h >> 14u16) & 1u16 == 1u16
            &&& (((h >> 8u16) & 0x1fu16) << 5u16) | (h & 0x1fu16) == r
        }) by (bit_vector)
            requires
                r < 1024u16,
        ;
    } else {
        assert(pack_head(s) == 0x8000u16 | 0u16 | (((r >> 5u16) & 0x1fu16) << 8u16) | (r
            & 0x1fu16));
        assert({
            let h = 0x8000u16 | 0u16 | (((r >> 5u16) & 0x1fu16) << 8u16) | (r & 0x1fu16);
            &&& (h >> 15u16) & 1u16 == 1u16
            &&& (h >> 14u16) & 1u16 == 0u16
            &&& (((h >> 8u16) & 0x1fu16) << 5u16) | (h & 0x1fu16) == r
        }) by (bit_vector)
            requires
                r < 1024u16,
        ;
    }
}

proof fn lemma_time_bits(t: u32)
    requires
        t % 16 == 0,
    ensures
        unpack_time(pack_time(t)) == t,
{
    assert(t & 15u32 == 0u32) by (bit_vector)
        requires
            t % 16u32 == 0u32,
    ;
    assert({
        let q = t >> 4u32;
        let p = (q & 0x7fu32) | (((q >> 7u32) & 0x7fu32) << 8u32) | (((q >> 14u32) & 0x7fu32)
            << 16u32) | (((q >> 21u32) & 0x7fu32) << 24u32);
        (((p >> 3u32) & 0x0fe0_0000u32) | ((p >> 2u32) & 0x001f_c000u32) | ((p >> 1u32)
            & 0x0000_3f80u32) | (p & 0x0000_007fu32)) << 4u32 == t
    }) by (bit_vector)
        requires
            t & 15u32 == 0u32,
    ;
}

/// Decoding the frame that encodes a sample gives that sample back, for a
/// 10-bit reading and a timestamp whose four low bits are zero.
pub proof fn lemma_frame_round_trip(s: Sample)
    requires
        encodable(s),
    ensures
        frame_bytes(s).len() == FRAME_LEN,
        has_sync(head_word(frame_bytes(s))),
        frame_sample(frame_bytes(s)) == s,
{
    let f = frame_bytes(s);
    let h = pack_head(s) as int;
    let t = pack_time(s.timestamp) as int;
    assert(le16(f, 0) == h);
    assert(le32(f, 2) == t);
    lemma_head_bits(s);
    lemma_time_bits(s.timestamp);
}

} // verus!

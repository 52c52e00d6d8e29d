use plotter::decoder::{Decoder, Event};
use plotter::frame::{encode_frame, Sample};

fn samples() -> Vec<Sample> {
    vec![
        Sample { reading: 1, digital: true, timestamp: 16 },
        Sample { reading: 1000, digital: false, timestamp: 0x0fff_fff0 },
        Sample { reading: 512, digital: true, timestamp: 0x1000 },
    ]
}

fn stream() -> Vec<u8> {
    let mut bytes = Vec::new();
    for s in samples() {
        bytes.extend(encode_frame(&s));
    }
    bytes
}

#[test]
fn whole_stream_decodes_every_frame() {
    let mut d = Decoder::new();
    let events = d.push_bytes(&stream());
    let expected: Vec<Event> = samples().into_iter().map(Event::Frame).collect();
    assert_eq!(events, expected);
    assert_eq!(d.pending_len(), 0);
}

#[test]
fn byte_at_a_time_matches_all_at_once() {
    let mut bytes = vec![0x00u8, 0x81];
    bytes.extend(stream());
    bytes.extend([0x33u8, 0x01, 0x02]);

    let mut whole = Decoder::new();
    let at_once = whole.push_bytes(&bytes);

    let mut single = Decoder::new();
    let mut one_by_one = Vec::new();
    for b in &bytes {
        one_by_one.extend(single.push_bytes(&[*b]));
    }
    assert_eq!(one_by_one, at_once);
    assert_eq!(single.pending_len(), whole.pending_len());

    let mut pieces = Decoder::new();
    let mut in_pieces = Vec::new();
    for chunk in bytes.chunks(4) {
        in_pieces.extend(pieces.push_bytes(chunk));
    }
    assert_eq!(in_pieces, at_once);
}

#[test]
fn one_injected_byte_costs_one_slip() {
    let mut bytes = vec![0xeeu8];
    bytes.extend(stream());
    let mut d = Decoder::new();
    let events = d.push_bytes(&bytes);
    let mut expected = vec![Event::OutOfSync(0xee)];
    expected.extend(samples().into_iter().map(Event::Frame));
    assert_eq!(events, expected);
}

#[test]
fn partial_frame_waits_for_the_rest() {
    let frame = encode_frame(&samples()[0]);
    let mut d = Decoder::new();
    assert!(d.push_bytes(&frame[..5]).is_empty());
    assert_eq!(d.pending_len(), 5);
    assert_eq!(d.push_bytes(&frame[5..]), vec![Event::Frame(samples()[0])]);
    assert_eq!(d.pending_len(), 0);
}

#[test]
fn garbage_slips_until_fewer_than_six_bytes_remain() {
    let mut d = Decoder::new();
    let events = d.push_bytes(&[1, 2, 3, 4, 5, 6, 7]);
    assert_eq!(events, vec![Event::OutOfSync(1), Event::OutOfSync(2)]);
    assert_eq!(d.pending_len(), 5);
    d.clear();
    assert_eq!(d.pending_len(), 0);
}

#[test]
fn empty_push_yields_nothing() {
    let mut d = Decoder::new();
    assert!(d.push_bytes(&[]).is_empty());
    assert_eq!(d.pending_len(), 0);
}

#[test]
fn any_injected_byte_is_dropped_alone() {
    for x in 0..=255u8 {
        let mut bytes = vec![x];
        bytes.extend(stream());
        let mut d = Decoder::new();
        let events = d.push_bytes(&bytes);
        assert_eq!(events.len(), 4);
        assert_eq!(events[0], Event::OutOfSync(x));
        assert_eq!(events[1], Event::Frame(samples()[0]));
    }
}

use camstream::h264::{H264NalUnit, H264Stream};

fn units_of(chunks: &[&[u8]]) -> Vec<H264NalUnit> {
    let mut stream = H264Stream::new();
    let mut out = Vec::new();
    for chunk in chunks {
        out.extend(stream.feed(chunk));
    }
    out
}

#[test]
fn unit_code_is_low_five_bits_of_fourth_byte() {
    let u = H264NalUnit::new(vec![0, 0, 1, 0x65]);
    assert_eq!(u.unit_code, 5);
    assert_eq!(u.raw_bytes, vec![0, 0, 1, 0x65]);

    let sps = H264NalUnit::new(vec![0, 0, 1, 0x67, 0xAA]);
    assert_eq!(sps.unit_code, 7);
    let pps = H264NalUnit::new(vec![0, 0, 1, 0x68, 0xBB]);
    assert_eq!(pps.unit_code, 8);
    let frame = H264NalUnit::new(vec![0, 0, 1, 0xE1, 1, 2, 3]);
    assert_eq!(frame.unit_code, 0xE1 & 0x1f);
}

#[test]
fn splits_stream_at_start_codes() {
    let units = units_of(&[&[
        0, 0, 1, 0x67, 0xAA, 0, 0, 1, 0x68, 0xBB, 0, 0, 1, 0x65, 0xCC, 0, 0, 1,
    ]]);
    assert_eq!(units.len(), 3);
    assert_eq!(units[0].raw_bytes, vec![0, 0, 1, 0x67, 0xAA]);
    assert_eq!(units[0].unit_code, 7);
    assert_eq!(units[1].raw_bytes, vec![0, 0, 1, 0x68, 0xBB]);
    assert_eq!(units[1].unit_code, 8);
    assert_eq!(units[2].raw_bytes, vec![0, 0, 1, 0x65, 0xCC]);
    assert_eq!(units[2].unit_code, 5);
}

#[test]
fn payload_concatenation_rebuilds_the_stream_without_markers() {
    // The emitted payloads, joined, are the stream minus its start
    // codes; here the whole stream ends on a start code, so nothing is
    // left over.
    let stream: Vec<u8> = vec![0, 0, 1, 9, 8, 7, 0, 0, 1, 6, 5, 0, 0, 1];
    let units = units_of(&[&stream]);
    let mut rebuilt: Vec<u8> = Vec::new();
    for u in &units {
        rebuilt.extend(&u.raw_bytes[3..]);
    }
    assert_eq!(rebuilt, vec![9, 8, 7, 6, 5]);
}

#[test]
fn drops_bytes_before_the_first_start_code() {
    let units = units_of(&[&[9, 9, 9, 0, 0, 1, 0x41, 0x42, 0, 0, 1]]);
    assert_eq!(units.len(), 1);
    assert_eq!(units[0].raw_bytes, vec![0, 0, 1, 0x41, 0x42]);
}

#[test]
fn long_zero_runs_are_start_code_padding() {
    let units = units_of(&[&[
        0, 0, 0, 1, 0x41, 0x42, 0, 0, 0, 0, 1, 0x43, 0x44, 0, 0, 1,
    ]]);
    assert_eq!(units.len(), 2);
    assert_eq!(units[0].raw_bytes, vec![0, 0, 1, 0x41, 0x42]);
    assert_eq!(units[1].raw_bytes, vec![0, 0, 1, 0x43, 0x44]);
}

#[test]
fn zeros_inside_a_payload_are_kept() {
    let units = units_of(&[&[0, 0, 1, 0x41, 0, 0x42, 0, 1, 0x43, 0, 0, 1]]);
    // A lone zero, with or without a following 0x01, is payload.
    assert_eq!(units.len(), 1);
    assert_eq!(units[0].raw_bytes, vec![0, 0, 1, 0x41, 0, 0x42, 0, 1, 0x43]);
}

#[test]
fn empty_units_between_adjacent_start_codes_are_not_emitted() {
    let units = units_of(&[&[0, 0, 1, 0, 0, 1, 0x41, 0x42, 0, 0, 1]]);
    assert_eq!(units.len(), 1);
    assert_eq!(units[0].raw_bytes, vec![0, 0, 1, 0x41, 0x42]);
}

#[test]
fn chunk_boundaries_do_not_matter() {
    let whole = units_of(&[&[0, 0, 1, 0x41, 0x42, 0, 0, 1, 0x43, 0, 0, 1]]);
    let pieces = units_of(&[&[0, 0], &[1, 0x41], &[], &[0x42, 0], &[0, 1, 0x43, 0], &[0, 1]]);
    assert_eq!(whole.len(), 2);
    assert_eq!(pieces.len(), 2);
    assert_eq!(whole[0].raw_bytes, pieces[0].raw_bytes);
    assert_eq!(whole[1].raw_bytes, pieces[1].raw_bytes);
}

#[test]
fn incomplete_tail_is_held_back() {
    let mut stream = H264Stream::new();
    assert_eq!(stream.feed(&[0, 0, 1, 0x41, 0x42, 0x43]).len(), 0);
    // The unit is only complete once the next start code arrives.
    let units = stream.feed(&[0, 0, 1]);
    assert_eq!(units.len(), 1);
    assert_eq!(units[0].raw_bytes, vec![0, 0, 1, 0x41, 0x42, 0x43]);
}

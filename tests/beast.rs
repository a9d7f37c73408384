use mlat_client::beast::{read_beast_buffer, read_single_frame, FrameError};
use mlat_client::message::{ModesMessage, DF_MODEAC};

fn hex_bytes(s: &str) -> Vec<u8> {
    (0..s.len())
        .step_by(2)
        .map(|i| u8::from_str_radix(&s[i..i + 2], 16).unwrap())
        .collect()
}

fn mode_ac_frame(timestamp: u8, signal: u8, a: u8, b: u8) -> Vec<u8> {
    vec![0x1A, 0x31, 0, 0, 0, 0, 0, timestamp, signal, a, b]
}

fn short_frame(payload: &[u8]) -> Vec<u8> {
    let mut v = vec![0x1A, 0x32, 0, 0, 0, 0, 0, 7, 9];
    for &b in payload {
        v.push(b);
        if b == 0x1A {
            v.push(b);
        }
    }
    v
}

#[test]
fn it_works() {
    // Two Mode-A/C frames and two short Mode-S frames, closed by a fifth start.
    let mut buffer = Vec::new();
    buffer.extend(mode_ac_frame(1, 2, 0x12, 0x34));
    buffer.extend(mode_ac_frame(2, 2, 0x56, 0x78));
    buffer.extend(short_frame(&hex_bytes("5d4840d6f8740a")));
    buffer.extend(short_frame(&hex_bytes("280018381a5025")));
    buffer.extend(vec![0x1A, 0x31]);
    let result = read_beast_buffer(buffer).frames.frames.len();
    assert_eq!(result, 4);
}

#[test]
fn single_mode_ac_frame_decodes() {
    let buffer = vec![0x1A, 0x31, 0x00, 0x00, 0x00, 0x00, 0x00, 0x01, 0x05, 0x12, 0x34];
    let frame = read_single_frame(buffer).unwrap();
    assert_eq!(frame.message_type, 0x31);
    assert_eq!(frame.timestamp, 1);
    assert_eq!(frame.signal, 0x05);
    assert_eq!(frame.payload, vec![0x12, 0x34]);
    assert!(frame.data.is_none());
    assert_eq!(frame.hex, "1A31000000000001051234");
    let msg = ModesMessage::from_buffer(frame.timestamp, frame.signal as u32, frame.payload).unwrap();
    assert_eq!(msg.address, 0x1234);
    assert_eq!(msg.df, DF_MODEAC);
    assert!(msg.valid);
}

#[test]
fn single_frame_timestamp_is_big_endian_48_bits() {
    let buffer = vec![0x1A, 0x31, 0x01, 0x02, 0x03, 0x04, 0x05, 0x06, 0xFF, 0x00, 0x01];
    let frame = read_single_frame(buffer).unwrap();
    assert_eq!(frame.timestamp, 0x0102_0304_0506);
    assert_eq!(frame.signal, 0xFF);
}

#[test]
fn single_frame_errors() {
    assert_eq!(read_single_frame(vec![]).unwrap_err(), FrameError::Empty);
    assert_eq!(read_single_frame(vec![0x40, 0x41]).unwrap_err(), FrameError::UnknownType(0x40));
    assert_eq!(
        read_single_frame(vec![0x1A, 0x31, 0x00]).unwrap_err(),
        FrameError::BadLength { kind: 0x31, len: 2 }
    );
}

#[test]
fn single_frame_reads_the_last_frame() {
    let mut buffer = mode_ac_frame(1, 2, 0x12, 0x34);
    buffer.extend(mode_ac_frame(3, 4, 0x56, 0x78));
    let frame = read_single_frame(buffer).unwrap();
    assert_eq!(frame.timestamp, 3);
    assert_eq!(frame.payload, vec![0x56, 0x78]);
}

#[test]
fn single_frame_aborts_on_bad_last_frame() {
    let mut buffer = mode_ac_frame(1, 2, 0x12, 0x34);
    buffer.extend(vec![0x1A, 0x32, 0x00, 0x01]);
    assert_eq!(
        read_single_frame(buffer).unwrap_err(),
        FrameError::BadLength { kind: 0x32, len: 3 }
    );
}

#[test]
fn buffer_without_escape_reads_nothing() {
    let r = read_beast_buffer(vec![0x01, 0x02, 0x03]);
    assert!(r.frames.frames.is_empty());
    assert!(r.errors.is_empty());
    assert_eq!(r.remainder, vec![0x1A, 0x01, 0x02, 0x03]);
    let r = read_beast_buffer(vec![]);
    assert!(r.frames.frames.is_empty());
    assert!(r.remainder.is_empty());
}

#[test]
fn stuffed_escape_reads_back_single() {
    let payload = hex_bytes("1a1a1a00010203");
    let mut buffer = short_frame(&payload);
    buffer.extend(vec![0x1A, 0x33]);
    let r = read_beast_buffer(buffer);
    assert!(r.errors.is_empty());
    assert_eq!(r.frames.frames.len(), 1);
    assert_eq!(r.frames.frames[0].payload, payload);
    assert_eq!(r.remainder, vec![0x1A, 0x33]);
}

#[test]
fn remainder_carries_into_next_read() {
    let mut whole = mode_ac_frame(1, 2, 0x12, 0x1A);
    whole.push(0x1A);
    whole.extend(short_frame(&hex_bytes("5d4840d6f8740a")));
    whole.extend(vec![0x1A, 0x31]);
    let cut = 16;
    let first = read_beast_buffer(whole[..cut].to_vec());
    let mut next = first.remainder.clone();
    next.extend_from_slice(&whole[cut..]);
    let second = read_beast_buffer(next);
    let all = read_beast_buffer(whole.clone());
    let mut pieces: Vec<Vec<u8>> = first.frames.frames.iter().map(|f| f.payload.clone()).collect();
    pieces.extend(second.frames.frames.iter().map(|f| f.payload.clone()));
    let whole_frames: Vec<Vec<u8>> = all.frames.frames.iter().map(|f| f.payload.clone()).collect();
    assert_eq!(pieces, whole_frames);
    assert_eq!(whole_frames.len(), 2);
    assert_eq!(whole_frames[0], vec![0x12, 0x1A]);
    assert_eq!(second.remainder, all.remainder);
}

#[test]
fn open_frame_is_returned_as_remainder() {
    let buffer = vec![0x1A, 0x32, 0x00, 0x1A, 0x1A, 0x05];
    let r = read_beast_buffer(buffer.clone());
    assert!(r.frames.frames.is_empty());
    assert_eq!(r.remainder, buffer);
}

#[test]
fn trailing_escape_stays_single_in_remainder() {
    let r = read_beast_buffer(vec![0x1A, 0x31, 0x00, 0x1A]);
    assert_eq!(r.remainder, vec![0x1A, 0x31, 0x00, 0x1A]);
}

#[test]
fn bad_frames_are_skipped_and_reported() {
    let mut buffer = vec![0x1A, 0x32, 0x00, 0x01];
    buffer.extend(mode_ac_frame(1, 2, 0x12, 0x34));
    buffer.extend(vec![0x1A, 0x33]);
    let r = read_beast_buffer(buffer);
    assert_eq!(r.errors, vec![FrameError::BadLength { kind: 0x32, len: 3 }]);
    assert_eq!(r.frames.frames.len(), 1);
    assert_eq!(r.frames.frames[0].payload, vec![0x12, 0x34]);
}

#[test]
fn leading_garbage_is_an_unknown_type() {
    let mut buffer = vec![0x07, 0x08];
    buffer.extend(mode_ac_frame(1, 2, 0x12, 0x34));
    buffer.extend(vec![0x1A, 0x31]);
    let r = read_beast_buffer(buffer);
    assert_eq!(r.errors, vec![FrameError::UnknownType(0x07)]);
    assert_eq!(r.frames.frames.len(), 1);
}

#[test]
fn frames_render_with_and_without_decoded_contents() {
    let mut buffer = mode_ac_frame(1, 5, 0x12, 0x34);
    buffer.extend(vec![0x1A, 0x31]);
    let r = read_beast_buffer(buffer);
    assert_eq!(
        r.frames.to_string(),
        "Frames:\n Message Type: 31,\n Timestamp: 1,\n Signal: 05,\n Data: \n ---\n"
    );
}

#[test]
fn adsb_payload_is_decoded() {
    let mut buffer = vec![0x1A, 0x33, 0, 0, 0, 0, 0x01, 0x00, 0x0A];
    buffer.extend(hex_bytes("8d4840d6202cc371c32ce0576098"));
    buffer.extend(vec![0x1A, 0x31]);
    let r = read_beast_buffer(buffer);
    assert_eq!(r.frames.frames.len(), 1);
    let frame = &r.frames.frames[0];
    assert_eq!(frame.timestamp, 256);
    assert!(frame.data.is_some());
    let text = r.frames.to_string();
    assert!(text.starts_with("Frames:\n Message Type: 33,\n Timestamp: 256,\n Signal: 0A,\n Data: \n ---\n"));
    assert!(text.contains("KLM1023"));
}

#[test]
fn stuffed_escape_at_end_of_open_frame_is_carried_stuffed() {
    let buffer = vec![0x1A, 0x31, 0x1A, 0x1A];
    let r = read_beast_buffer(buffer.clone());
    assert!(r.frames.frames.is_empty());
    assert_eq!(r.remainder, buffer);
}

#[test]
fn stuffed_escape_at_cut_keeps_the_next_frame_start() {
    let whole = vec![0x1A, 0x31, 0x1A, 0x1A, 0x1A, 0x31];
    let all = read_beast_buffer(whole.clone());
    assert_eq!(all.remainder, vec![0x1A, 0x31]);
    assert_eq!(all.errors, vec![FrameError::BadLength { kind: 0x31, len: 2 }]);
    let first = read_beast_buffer(whole[..4].to_vec());
    let mut next = first.remainder.clone();
    next.extend_from_slice(&whole[4..]);
    let second = read_beast_buffer(next);
    assert_eq!(second.remainder, all.remainder);
    assert_eq!(second.errors, all.errors);
}

#[test]
fn escape_pair_split_across_reads_joins_up() {
    // The frame's literal 0x1A arrives as 1A | 1A over two reads.
    let mut whole = vec![0x1A, 0x31, 0, 0, 0, 0, 0, 1, 2, 0x12, 0x1A, 0x1A];
    whole.extend(vec![0x1A, 0x32]);
    let all = read_beast_buffer(whole.clone());
    assert_eq!(all.frames.frames.len(), 1);
    assert_eq!(all.frames.frames[0].payload, vec![0x12, 0x1A]);
    let cut = 11;
    let first = read_beast_buffer(whole[..cut].to_vec());
    assert_eq!(first.remainder, whole[..cut].to_vec());
    let mut next = first.remainder.clone();
    next.extend_from_slice(&whole[cut..]);
    let second = read_beast_buffer(next);
    assert_eq!(second.frames.frames.len(), 1);
    assert_eq!(second.frames.frames[0].payload, vec![0x12, 0x1A]);
    assert_eq!(second.remainder, all.remainder);
}

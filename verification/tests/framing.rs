use rusty_embers::s101::{
    decode_single_frame, encode_ember_frame, encode_keep_alive_request,
    encode_keep_alive_response, CommandType, DtdType, Frame, FrameDecoder, FrameFlags,
    MessageType, BOF, CE, CRC_TABLE, EOF,
};
use rusty_embers::Error;

/// Bit-by-bit CRC-16-CCITT (reflected polynomial 0x8408, initial 0xFFFF).
fn reference_crc(data: &[u8]) -> u16 {
    let mut crc: u16 = 0xFFFF;
    for &b in data {
        crc ^= b as u16;
        for _ in 0..8 {
            if crc & 1 == 1 {
                crc = (crc >> 1) ^ 0x8408;
            } else {
                crc >>= 1;
            }
        }
    }
    crc
}

fn reference_escape(data: &[u8], out: &mut Vec<u8>) {
    for &b in data {
        if b >= 0xF8 {
            out.push(0xFD);
            out.push(b ^ 0x20);
        } else {
            out.push(b);
        }
    }
}

fn reference_frame(content: &[u8]) -> Vec<u8> {
    let crc = !reference_crc(content);
    let mut out = vec![0xFE];
    reference_escape(content, &mut out);
    reference_escape(&crc.to_le_bytes(), &mut out);
    out.push(0xFF);
    out
}

fn s101_message(e: Error) -> String {
    match e {
        Error::S101(m) => m,
        other => panic!("expected an S101 error, got {:?}", other),
    }
}

#[test]
fn roundtrip_ember_frame() {
    let payload = b"\x01\x02\x03\xFE\xFD";
    let encoded = encode_ember_frame(payload);
    let decoded = decode_single_frame(&encoded).unwrap();
    assert_eq!(decoded.message_type, MessageType::Ember.to_u8());
    assert_eq!(decoded.command, CommandType::EmberPacket.to_u8());
    assert_eq!(decoded.flags, FrameFlags::SINGLE);
    assert_eq!(decoded.dtd, DtdType::Glow.to_u8());
    assert_eq!(decoded.app_bytes, [0x05, 0x02]);
    assert_eq!(decoded.payload, payload);
}

#[test]
fn keep_alive_request_roundtrip() {
    let encoded = encode_keep_alive_request();
    let decoded = decode_single_frame(&encoded).unwrap();
    assert!(decoded.is_keep_alive_request());
}

#[test]
fn decoder_streaming() {
    let mut decoder = FrameDecoder::new();
    let frame = encode_ember_frame(b"hello");
    decoder.feed(&frame[..5]);
    assert!(decoder.decode_next().unwrap().is_none());
    decoder.feed(&frame[5..]);
    let decoded = decoder.decode_next().unwrap().unwrap();
    assert_eq!(decoded.payload, b"hello");
}

#[test]
fn crc_residual() {
    // The spec says the CRC residual should be 0xF0B8.
    let payload = b"test";
    let encoded = encode_ember_frame(payload);
    let decoded = decode_single_frame(&encoded).unwrap();
    assert_eq!(decoded.payload, payload);
}

fn reference_unescape(frame: &[u8]) -> Vec<u8> {
    let mut out = Vec::new();
    let mut escaped = false;
    for &b in &frame[1..frame.len() - 1] {
        if escaped {
            out.push(b ^ 0x20);
            escaped = false;
        } else if b == 0xFD {
            escaped = true;
        } else {
            out.push(b);
        }
    }
    out
}

#[test]
fn crc_residual_of_encoded_frames_is_f0b8() {
    for payload in [&b"test"[..], b"", b"\xFF\xFE\xFD\x00"] {
        let body = reference_unescape(&encode_ember_frame(payload));
        assert_eq!(reference_crc(&body), 0xF0B8);
    }
    let body = reference_unescape(&encode_keep_alive_request());
    assert_eq!(reference_crc(&body), 0xF0B8);
}

#[test]
fn ember_frame_bytes_match_the_wire_format() {
    let payload = [0x01, 0xF7, 0xF8, 0xFD, 0xFE, 0xFF, 0x20];
    let content = [&[0x00, 0x0E, 0x00, 0x01, 0xC0, 0x01, 0x02, 0x05, 0x02][..], &payload[..]].concat();
    assert_eq!(encode_ember_frame(&payload), reference_frame(&content));
}

#[test]
fn keep_alive_frames_have_exact_bytes() {
    assert_eq!(
        encode_keep_alive_request(),
        reference_frame(&[0x00, 0x0E, 0x01, 0x01, 0xC0, 0x00, 0x00])
    );
    assert_eq!(
        encode_keep_alive_response(),
        reference_frame(&[0x00, 0x0E, 0x02, 0x01, 0xC0, 0x00, 0x00])
    );
    let decoded = decode_single_frame(&encode_keep_alive_response()).unwrap();
    assert!(decoded.is_keep_alive_response());
    assert!(!decoded.is_keep_alive_request());
    assert!(decoded.app_bytes.is_empty());
    assert!(decoded.payload.is_empty());
}

#[test]
fn escaped_bytes_never_show_frame_marks() {
    let payload: Vec<u8> = (0..=255u8).collect();
    let encoded = encode_ember_frame(&payload);
    assert_eq!(encoded[0], BOF);
    assert_eq!(*encoded.last().unwrap(), EOF);
    for &b in &encoded[1..encoded.len() - 1] {
        assert!(b != BOF && b != EOF);
    }
    assert_eq!(decode_single_frame(&encoded).unwrap().payload, payload);
}

#[test]
fn decode_rejects_short_frames() {
    let e = decode_single_frame(&[0xFE, 0x00, 0xFF]).unwrap_err();
    assert_eq!(s101_message(e), "frame too short");
}

#[test]
fn decode_rejects_missing_marks() {
    let e = decode_single_frame(&[0x00, 0x00, 0x00, 0x00, 0xFF]).unwrap_err();
    assert_eq!(s101_message(e), "frame missing BOF/EOF");
    let e = decode_single_frame(&[0xFE, 0x00, 0x00, 0x00, 0x00]).unwrap_err();
    assert_eq!(s101_message(e), "frame missing BOF/EOF");
}

#[test]
fn decode_rejects_dangling_escape() {
    let e = decode_single_frame(&[0xFE, 0x01, 0x02, CE, 0xFF]).unwrap_err();
    assert_eq!(s101_message(e), "dangling escape byte");
}

#[test]
fn decode_rejects_short_unescaped_content() {
    let e = decode_single_frame(&[0xFE, CE, 0xDE, 0x01, 0x02, 0xFF]).unwrap_err();
    assert_eq!(s101_message(e), "decoded frame too short");
}

#[test]
fn decode_reports_crc_mismatch_in_hex() {
    let mut encoded = encode_ember_frame(b"hi");
    let n = encoded.len();
    // Corrupt the last payload byte ('i' -> 'j').
    assert_eq!(encoded[n - 4], b'i');
    encoded[n - 4] = b'j';
    let content = [0x00, 0x0E, 0x00, 0x01, 0xC0, 0x01, 0x02, 0x05, 0x02, b'h', b'j'];
    let expected = !reference_crc(&content);
    let got = !reference_crc(&[0x00, 0x0E, 0x00, 0x01, 0xC0, 0x01, 0x02, 0x05, 0x02, b'h', b'i']);
    let e = decode_single_frame(&encoded).unwrap_err();
    assert_eq!(
        s101_message(e),
        format!("CRC mismatch: expected {:04X}, got {:04X}", expected, got)
    );
}

#[test]
fn decode_crc_mismatch_message_is_upper_hex_with_four_digits() {
    // Content [0, 0, 0, 0] with a zero CRC: the expected CRC is computed.
    let content = [0x00u8, 0x00, 0x00, 0x00];
    let expected = !reference_crc(&content);
    let e = decode_single_frame(&[0xFE, 0x00, 0x00, 0x00, 0x00, 0x00, 0x00, 0xFF]).unwrap_err();
    let msg = s101_message(e);
    assert_eq!(msg, format!("CRC mismatch: expected {:04X}, got 0000", expected));
    assert!(msg.ends_with("got 0000"));
    assert_eq!(msg.len(), "CRC mismatch: expected XXXX, got 0000".len());
}

#[test]
fn decode_rejects_truncated_header_and_app_bytes() {
    let e = decode_single_frame(&reference_frame(&[0x00, 0x0E, 0x00])).unwrap_err();
    assert_eq!(s101_message(e), "content too short for header");
    let e = decode_single_frame(&reference_frame(&[0x00, 0x0E, 0x00, 0x01, 0xC0, 0x01, 0x03, 0x05]))
        .unwrap_err();
    assert_eq!(s101_message(e), "app bytes truncated");
}

#[test]
fn decode_parses_header_fields() {
    let frame = decode_single_frame(&reference_frame(&[7, 9, 3, 4, 0x40, 6, 1, 0xAA, 0xBB, 0xCC]))
        .unwrap();
    assert_eq!(
        frame,
        Frame {
            slot: 7,
            message_type: 9,
            command: 3,
            version: 4,
            flags: 0x40,
            dtd: 6,
            app_bytes: vec![0xAA],
            payload: vec![0xBB, 0xCC],
        }
    );
    assert!(frame.is_last());
    assert!(!frame.is_first() && !frame.is_middle() && !frame.is_single());
}

#[test]
fn frame_flag_predicates() {
    let mut frame = decode_single_frame(&encode_ember_frame(b"x")).unwrap();
    assert!(frame.is_single() && !frame.is_last() && frame.is_ember_packet());
    frame.flags = FrameFlags::FIRST | 0x05;
    assert!(frame.is_first() && !frame.is_single());
    frame.flags = FrameFlags::LAST | 0x01;
    assert!(frame.is_last() && !frame.is_single() && !frame.is_first() && !frame.is_middle());
    frame.flags = 0x00;
    assert!(frame.is_middle() && !frame.is_first() && !frame.is_last() && !frame.is_single());
    frame.command = 0x01;
    assert!(!frame.is_ember_packet());
    assert!(frame.is_keep_alive_request() && !frame.is_keep_alive_response());
    frame.command = 0x02;
    assert!(frame.is_keep_alive_response() && !frame.is_keep_alive_request());
    frame.message_type = 0x01;
    assert!(!frame.is_keep_alive_response() && !frame.is_keep_alive_request());
}

#[test]
fn decoder_skips_garbage_and_reads_several_frames() {
    let mut decoder = FrameDecoder::new();
    let mut bytes = vec![0x01, 0x02, 0x03];
    bytes.extend(encode_ember_frame(b"one"));
    bytes.extend(encode_keep_alive_request());
    decoder.feed(&bytes);
    assert_eq!(decoder.decode_next().unwrap().unwrap().payload, b"one");
    assert!(decoder.decode_next().unwrap().unwrap().is_keep_alive_request());
    assert!(decoder.decode_next().unwrap().is_none());
}

#[test]
fn decoder_drops_bytes_without_frame_start() {
    let mut decoder = FrameDecoder::default();
    decoder.feed(&[0x10, 0x20, 0xFF]);
    assert!(decoder.decode_next().unwrap().is_none());
    // The dropped bytes do not disturb the next frame.
    decoder.feed(&encode_ember_frame(b"ok"));
    assert_eq!(decoder.decode_next().unwrap().unwrap().payload, b"ok");
}

#[test]
fn decoder_reports_invalid_frame_then_recovers() {
    let mut decoder = FrameDecoder::new();
    decoder.feed(&[0xFE, 0x01, 0xFF]);
    let e = decoder.decode_next().unwrap_err();
    assert_eq!(s101_message(e), "frame too short");
    decoder.feed(&encode_ember_frame(b"again"));
    assert_eq!(decoder.decode_next().unwrap().unwrap().payload, b"again");
}

#[test]
fn decoder_byte_by_byte() {
    let frame = encode_ember_frame(&[0xFE, 0xFF, 0xFD, 0x42]);
    let mut decoder = FrameDecoder::new();
    for (i, b) in frame.iter().enumerate() {
        decoder.feed(&[*b]);
        let out = decoder.decode_next().unwrap();
        if i + 1 < frame.len() {
            assert!(out.is_none());
        } else {
            assert_eq!(out.unwrap().payload, [0xFE, 0xFF, 0xFD, 0x42]);
        }
    }
}

#[test]
fn crc_table_is_the_reflected_ccitt_table() {
    for i in 0..256u16 {
        let mut r = i;
        for _ in 0..8 {
            r = if r & 1 == 1 { (r >> 1) ^ 0x8408 } else { r >> 1 };
        }
        assert_eq!(CRC_TABLE[i as usize], r, "entry {}", i);
    }
}

fn framed_body(body: &[u8]) -> Vec<u8> {
    let mut out = vec![0xFE];
    reference_escape(body, &mut out);
    out.push(0xFF);
    out
}

#[test]
fn every_single_byte_change_is_caught() {
    let content = [0x00, 0x0E, 0x00, 0x01, 0xC0, 0x01, 0x02, 0x05, 0x02, 0x10, 0xFE, 0x33];
    let crc = !reference_crc(&content);
    let body = [&content[..], &crc.to_le_bytes()[..]].concat();
    assert!(decode_single_frame(&framed_body(&body)).is_ok());
    for i in 0..body.len() {
        for x in [0x00u8, 0x01, 0x7F, 0x80, 0xF8, 0xFE, 0xFF] {
            if x == body[i] {
                continue;
            }
            let mut changed = body.clone();
            changed[i] = x;
            let e = decode_single_frame(&framed_body(&changed)).unwrap_err();
            assert!(s101_message(e).starts_with("CRC mismatch"), "byte {} to {:#04x}", i, x);
        }
    }
}

fn drain(decoder: &mut FrameDecoder, out: &mut Vec<Result<Frame, String>>) {
    loop {
        match decoder.decode_next() {
            Ok(Some(f)) => out.push(Ok(f)),
            Ok(None) => return,
            Err(e) => out.push(Err(s101_message(e))),
        }
    }
}

#[test]
fn how_a_stream_is_split_does_not_change_what_is_decoded() {
    let mut bad = encode_ember_frame(b"abc");
    bad[12] ^= 0x01;
    let stream = [
        &b"\x01\x02"[..],
        &encode_ember_frame(b"one"),
        &bad,
        b"\xFF\x00",
        &encode_ember_frame(b"\xFE\xFFtwo"),
        &encode_keep_alive_request(),
        &[0xFE, 0x00],
    ]
    .concat();
    let mut whole = Vec::new();
    let mut decoder = FrameDecoder::new();
    decoder.feed(&stream);
    drain(&mut decoder, &mut whole);
    let payloads: Vec<Option<Vec<u8>>> =
        whole.iter().map(|r| r.as_ref().ok().map(|f| f.payload.clone())).collect();
    assert_eq!(
        payloads,
        [Some(b"one".to_vec()), None, Some(b"\xFE\xFFtwo".to_vec()), Some(vec![])]
    );
    let held = decoder.buffered_len();
    assert_eq!(held, 2);
    for k in 0..=stream.len() {
        let mut parts = Vec::new();
        let mut d = FrameDecoder::new();
        d.feed(&stream[..k]);
        drain(&mut d, &mut parts);
        d.feed(&stream[k..]);
        drain(&mut d, &mut parts);
        assert_eq!(parts, whole, "split at {}", k);
        assert_eq!(d.buffered_len(), held);
    }
}

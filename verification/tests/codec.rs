use nomad::codec::{encode_frame, Error, FrameDecoder, HEADER_LEN, MAX_FRAME_LEN};

fn samples() -> Vec<Vec<u8>> {
    vec![
        b"hello".to_vec(),
        Vec::new(),
        "h\u{e9}llo \u{1F30D}".as_bytes().to_vec(),
        (0u8..=255).collect(),
        vec![7u8],
    ]
}

#[test]
fn frame_roundtrip() {
    for payload in samples() {
        let frame = encode_frame(&payload).unwrap();
        assert_eq!(frame.len(), HEADER_LEN + payload.len());
        assert_eq!(&frame[HEADER_LEN..], &payload[..]);
    }
}

#[test]
fn streaming_decoder_handles_split_and_coalesced_frames() {
    let payloads = samples();
    let mut stream = Vec::new();
    for p in &payloads {
        stream.extend(encode_frame(p).unwrap());
    }

    // Byte by byte: no frame may come out early.
    let mut dec = FrameDecoder::new();
    let mut out = Vec::new();
    for b in &stream {
        dec.push(&[*b]);
        while let Some(p) = dec.next_frame().unwrap() {
            out.push(p);
        }
    }
    assert_eq!(out, payloads);

    // All at once.
    let mut dec = FrameDecoder::new();
    dec.push(&stream);
    let mut out = Vec::new();
    while let Some(p) = dec.next_frame().unwrap() {
        out.push(p);
    }
    assert_eq!(out, payloads);
    assert_eq!(dec.buffered(), 0);
}

#[test]
fn incomplete_frame_yields_none() {
    let frame = encode_frame(b"pong").unwrap();
    let mut dec = FrameDecoder::new();
    dec.push(&frame[..2]);
    assert!(dec.next_frame().unwrap().is_none());
    assert_eq!(dec.buffered(), 2);
}

#[test]
fn header_is_big_endian_length() {
    let frame = encode_frame(&[1u8, 2, 3]).unwrap();
    assert_eq!(frame, vec![0, 0, 0, 3, 1, 2, 3]);
    let big = vec![0u8; 0x0102];
    let frame = encode_frame(&big).unwrap();
    assert_eq!(&frame[..4], &[0, 0, 1, 2]);
}

#[test]
fn oversized_header_is_refused_and_kept() {
    let mut dec = FrameDecoder::new();
    let len = (MAX_FRAME_LEN + 1) as u32;
    dec.push(&len.to_be_bytes());
    assert_eq!(dec.next_frame(), Err(Error::FrameTooLarge(MAX_FRAME_LEN + 1)));
    assert_eq!(dec.buffered(), 4);
}

#[test]
fn oversized_payload_is_not_framed() {
    let payload = vec![0u8; MAX_FRAME_LEN + 1];
    assert_eq!(encode_frame(&payload), Err(Error::FrameTooLarge(MAX_FRAME_LEN + 1)));
}

#[test]
fn peek_then_consume_equals_next() {
    let mut dec = FrameDecoder::new();
    dec.push(&encode_frame(b"ab").unwrap());
    dec.push(&encode_frame(b"c").unwrap());
    assert_eq!(dec.peek_frame(), Ok(Some(b"ab".to_vec())));
    assert_eq!(dec.buffered(), 11);
    dec.consume_frame();
    assert_eq!(dec.next_frame(), Ok(Some(b"c".to_vec())));
    assert_eq!(dec.next_frame(), Ok(None));
}

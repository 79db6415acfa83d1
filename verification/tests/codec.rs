//! The wire codecs: big-endian fields, length-delimited frames, and the
//! negotiation handshake.

use nitrogen::framed::{decode_frame, encode_frame, FrameDecode, FrameReader, ReadFrame, MAX_FRAME_LEN};
use nitrogen::model::Negotiate;
use nitrogen::negotiator::{NegotiateDecode, Negotiator};
use nitrogen::wire::{push_u16_be, push_u32_be, read_u16_be, read_u32_be};

#[test]
fn be_fields_round_trip() {
    let mut buf: Vec<u8> = Vec::new();
    push_u16_be(&mut buf, 0xBEEF);
    assert_eq!(buf, vec![0xBE, 0xEF]);
    assert_eq!(read_u16_be(buf[0], buf[1]), 0xBEEF);

    let mut buf: Vec<u8> = Vec::new();
    push_u32_be(&mut buf, 0x01020304);
    assert_eq!(buf, vec![0x01, 0x02, 0x03, 0x04]);
    assert_eq!(read_u32_be(buf[0], buf[1], buf[2], buf[3]), 0x01020304);
}

#[test]
fn frame_round_trip() {
    let payload = vec![1u8, 2, 3];
    let framed = encode_frame(&payload).unwrap();
    assert_eq!(framed, vec![0, 0, 0, 3, 1, 2, 3]);
    match decode_frame(&framed, 0) {
        FrameDecode::Frame { payload: p, next } => {
            assert_eq!(p, payload);
            assert_eq!(next, 7);
        }
        _ => panic!("expected a whole frame"),
    }
}

#[test]
fn frame_round_trip_empty_payload() {
    let payload: Vec<u8> = Vec::new();
    let framed = encode_frame(&payload).unwrap();
    assert_eq!(framed, vec![0, 0, 0, 0]);
    match decode_frame(&framed, 0) {
        FrameDecode::Frame { payload: p, next } => {
            assert!(p.is_empty());
            assert_eq!(next, 4);
        }
        _ => panic!("expected a whole frame"),
    }
}

#[test]
fn two_frames_in_sequence() {
    let first = encode_frame(&vec![9u8]).unwrap();
    let second = encode_frame(&vec![7u8, 8]).unwrap();
    let mut buf = first;
    buf.extend(second);
    let next = match decode_frame(&buf, 0) {
        FrameDecode::Frame { payload, next } => {
            assert_eq!(payload, vec![9u8]);
            next
        }
        _ => panic!("expected the first frame"),
    };
    match decode_frame(&buf, next) {
        FrameDecode::Frame { payload, next } => {
            assert_eq!(payload, vec![7u8, 8]);
            assert_eq!(next, buf.len());
        }
        _ => panic!("expected the second frame"),
    }
}

#[test]
fn oversize_payload_refused_on_encode() {
    let payload = vec![0u8; MAX_FRAME_LEN + 1];
    let err = encode_frame(&payload).unwrap_err();
    assert_eq!(err.0, "frame exceeds maximum length");
}

#[test]
fn payload_at_cap_accepted() {
    let payload = vec![0u8; MAX_FRAME_LEN];
    assert!(encode_frame(&payload).is_ok());
}

#[test]
fn oversize_prefix_refused_on_decode() {
    // 16 MiB + 1, big-endian.
    let buf = vec![0x01u8, 0x00, 0x00, 0x01];
    assert!(matches!(decode_frame(&buf, 0), FrameDecode::Oversize));
    let buf = vec![0xFFu8, 0xFF, 0xFF, 0xFF];
    assert!(matches!(decode_frame(&buf, 0), FrameDecode::Oversize));
}

#[test]
fn short_buffer_is_incomplete() {
    assert!(matches!(decode_frame(&vec![0, 0], 0), FrameDecode::Incomplete));
    // Announces 3 payload bytes but carries only 2.
    let buf = vec![0u8, 0, 0, 3, 1, 2];
    assert!(matches!(decode_frame(&buf, 0), FrameDecode::Incomplete));
}

#[test]
fn handshake_wire_shape() {
    let negotiator = Negotiator::new();
    let frame = negotiator
        .encode(&Negotiate { name: "Echo".to_string() })
        .unwrap();
    // 2-byte big-endian length, then the MessagePack record: a one-element
    // array holding the four-character name.
    let record = vec![0x91u8, 0xA4, b'E', b'c', b'h', b'o'];
    let mut expected = vec![0u8, record.len() as u8];
    expected.extend(record.iter().copied());
    assert_eq!(frame, expected);
    // The record bytes are exactly what MessagePack makes of the name.
    let reencoded = rmp_serde::to_vec(&("Echo".to_string(),)).unwrap();
    assert_eq!(&frame[2..], &reencoded[..]);
}

#[test]
fn handshake_round_trip() {
    let negotiator = Negotiator::new();
    let frame = negotiator
        .encode(&Negotiate { name: "my_service".to_string() })
        .unwrap();
    match negotiator.decode(&frame, 0) {
        NegotiateDecode::Record { negotiate, next } => {
            assert_eq!(negotiate.name, "my_service");
            assert_eq!(next, frame.len());
        }
        _ => panic!("expected the record"),
    }
}

#[test]
fn handshake_followed_by_frames() {
    let negotiator = Negotiator::new();
    let mut buf = negotiator
        .encode(&Negotiate { name: "Echo".to_string() })
        .unwrap();
    let frame = encode_frame(&vec![5u8, 6]).unwrap();
    buf.extend(frame);
    let next = match negotiator.decode(&buf, 0) {
        NegotiateDecode::Record { negotiate, next } => {
            assert_eq!(negotiate.name, "Echo");
            next
        }
        _ => panic!("expected the record"),
    };
    match decode_frame(&buf, next) {
        FrameDecode::Frame { payload, next } => {
            assert_eq!(payload, vec![5u8, 6]);
            assert_eq!(next, buf.len());
        }
        _ => panic!("expected the steady-state frame"),
    }
}

#[test]
fn handshake_incomplete_and_malformed() {
    let negotiator = Negotiator::new();
    assert!(matches!(negotiator.decode(&vec![0u8], 0), NegotiateDecode::Incomplete));
    // Announces 4 record bytes but carries 1.
    assert!(matches!(
        negotiator.decode(&vec![0u8, 4, 0x91], 0),
        NegotiateDecode::Incomplete
    ));
    // A whole frame whose bytes are no negotiation record.
    assert!(matches!(
        negotiator.decode(&vec![0u8, 2, 0xC0, 0xC0], 0),
        NegotiateDecode::Malformed
    ));
}

#[test]
fn reader_assembles_frames_from_chunks() {
    let mut reader = FrameReader::new();
    let framed = encode_frame(&vec![1u8, 2, 3]).unwrap();
    // The stream delivers the frame split mid-payload.
    reader.feed(&framed[..5].to_vec());
    assert!(matches!(reader.next(), ReadFrame::Incomplete));
    reader.feed(&framed[5..].to_vec());
    match reader.next() {
        ReadFrame::Frame(payload) => assert_eq!(payload, vec![1, 2, 3]),
        _ => panic!("expected the assembled frame"),
    }
    assert!(matches!(reader.next(), ReadFrame::Incomplete));
}

#[test]
fn reader_yields_frames_in_order() {
    let mut reader = FrameReader::new();
    let mut bytes = encode_frame(&vec![1u8]).unwrap();
    bytes.extend(encode_frame(&vec![2u8, 2]).unwrap());
    bytes.extend(encode_frame(&vec![]).unwrap());
    reader.feed(&bytes);
    for expected in [vec![1u8], vec![2u8, 2], vec![]] {
        match reader.next() {
            ReadFrame::Frame(payload) => assert_eq!(payload, expected),
            _ => panic!("expected a frame"),
        }
    }
    assert!(matches!(reader.next(), ReadFrame::Incomplete));
}

#[test]
fn reader_refuses_oversize_prefix() {
    let mut reader = FrameReader::new();
    reader.feed(&vec![0xFFu8, 0xFF, 0xFF, 0xFF, 0]);
    assert!(matches!(reader.next(), ReadFrame::Oversize));
    // The poisoned prefix stays; the stream is dead for framing.
    assert!(matches!(reader.next(), ReadFrame::Oversize));
}

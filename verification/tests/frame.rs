use bytes::{Buf, BufMut, Bytes, BytesMut};
use elastic_stream::codec::cursor::Cursor;
use elastic_stream::codec::error::FrameError;
use elastic_stream::codec::frame::{
    Frame, HeaderFormat, OperationCode, StreamIdSequence, MAGIC_CODE, MAX_FRAME_LENGTH,
    MIN_FRAME_LENGTH,
};

fn crc32(data: &[u8]) -> u32 {
    crc::Crc::<u32>::new(&crc::CRC_32_ISO_HDLC).checksum(data)
}

#[test]
fn test_num_enum() {
    let res = HeaderFormat::try_from(1u8);
    assert_eq!(Ok(HeaderFormat::FlatBuffer), res);

    let num: u8 = HeaderFormat::JSON.into();
    assert_eq!(3, num);

    let res = OperationCode::try_from(0u16);
    assert_eq!(Ok(OperationCode::Unknown), res);
    let num: u16 = OperationCode::GoAway.into();
    assert_eq!(2, num);
}

#[test]
fn test_check() {
    let raw = [1u8];
    let mut rdr = Cursor::new(&raw[..]);
    let res = Frame::check(&mut rdr);
    assert_eq!(Err(FrameError::Incomplete), res);

    // On read failure, the cursor should be intact.
    assert_eq!(1, rdr.remaining());
}

#[test]
fn test_check_min_frame_length() {
    let mut buffer = BytesMut::new();
    buffer.put_u32(10);

    let mut cursor = Cursor::new(&buffer[..]);
    match Frame::check(&mut cursor) {
        Ok(_) => {
            panic!("Should have detected the frame length issue");
        }
        Err(e) => {
            assert_eq!(
                FrameError::BadFrame(
                    "Length of the incoming frame is: 10, less than the minimum possible: 16"
                        .to_owned()
                ),
                e
            );
        }
    }
}

#[test]
fn test_check_max_frame_length() {
    let mut buffer = BytesMut::new();
    buffer.put_u32(MAX_FRAME_LENGTH + 1);

    let mut cursor = Cursor::new(&buffer[..]);
    match Frame::check(&mut cursor) {
        Ok(_) => {
            panic!("Should have detected the frame length issue");
        }
        Err(e) => {
            assert_eq!(
                FrameError::TooLongFrame {
                    found: MAX_FRAME_LENGTH + 1,
                    max: MAX_FRAME_LENGTH
                },
                e
            );
        }
    }
}

#[test]
fn test_check_magic_code() {
    let mut buffer = BytesMut::new();
    buffer.put_u32(MIN_FRAME_LENGTH);
    // magic code
    buffer.put_u8(16u8);
    // operation code
    buffer.put_u16(OperationCode::Ping.into());
    // flag
    buffer.put_u8(0u8);
    // stream identifier
    buffer.put_u32(2);
    // header format + header length
    buffer.put_u32(0);
    // payload checksum
    buffer.put_u32(0);

    let mut cursor = Cursor::new(&buffer[..]);
    match Frame::check(&mut cursor) {
        Ok(_) => {
            panic!("Should have detected the frame magic code mismatch issue");
        }
        Err(e) => {
            assert_eq!(
                FrameError::MagicCodeMismatch {
                    found: 16u8,
                    expect: MAGIC_CODE
                },
                e
            );
        }
    }
}

#[test]
fn test_encode_header() {
    let mut header = BytesMut::with_capacity(16);
    header.put(&b"abc"[..]);

    let frame = Frame {
        operation_code: OperationCode::Ping,
        flag: 1,
        stream_id: 2,
        header_format: HeaderFormat::FlatBuffer,
        header: Some(header.to_vec()),
        payload: None,
    };

    let mut out = Vec::new();
    assert_eq!(Ok(()), frame.encode(&mut out));
    let mut buf = Bytes::from(out);

    let frame_length = buf.get_u32();
    assert_eq!(19, frame_length);
    assert_eq!(MAGIC_CODE, buf.get_u8());
    assert_eq!(1, buf.get_u16());
    assert_eq!(1, buf.get_u8());
    assert_eq!(2, buf.get_u32());
    assert_eq!(1, buf.get_u8());
    // header length
    assert_eq!(0, buf.get_u8());
    assert_eq!(3, buf.get_u16());

    let header = buf.copy_to_bytes(3);
    assert_eq!(b"abc", header.as_ref());

    assert_eq!(0, buf.get_u32());

    assert_eq!(0, buf.remaining());
}

#[test]
fn test_encode_body() {
    let mut body = BytesMut::with_capacity(16);
    body.put(&b"abc"[..]);

    let frame = Frame {
        operation_code: OperationCode::Ping,
        flag: 1,
        stream_id: 2,
        header_format: HeaderFormat::FlatBuffer,
        header: None,
        payload: Some(body.to_vec()),
    };

    let mut out = Vec::new();
    assert_eq!(Ok(()), frame.encode(&mut out));
    let mut buf = Bytes::from(out);

    assert_eq!(19, buf.get_u32());

    assert_eq!(MAGIC_CODE, buf.get_u8());
    assert_eq!(1, buf.get_u16());
    assert_eq!(1, buf.get_u8());
    assert_eq!(2, buf.get_u32());
    assert_eq!(1, buf.get_u8());
    // header length
    assert_eq!(0, buf.get_u8());
    assert_eq!(0, buf.get_u16());

    let body = buf.copy_to_bytes(3);
    assert_eq!(b"abc", body.as_ref());
    // checksum
    assert_eq!(crc32(b"abc"), buf.get_u32());
    assert_eq!(0, buf.remaining());
    assert_eq!(0, buf.len());
}

#[test]
fn test_too_long_header_length() {
    let mut raw_frame = BytesMut::with_capacity(16);
    // frame length
    raw_frame.put_u32(19);
    // magic code
    raw_frame.put_u8(MAGIC_CODE);
    // operation code
    raw_frame.put_u16(OperationCode::Ping.into());
    // flag
    raw_frame.put_u8(1);
    // stream identifier
    raw_frame.put_u32(2);
    // header format + header length
    raw_frame.put_u8(HeaderFormat::FlatBuffer.into());
    // Set a header length that is too long
    raw_frame.extend_from_slice((1024_i32).to_be_bytes()[1..].as_ref());
    // header
    raw_frame.put(&b"abc"[..]);
    // empty payload
    // payload checksum
    raw_frame.put_u32(0);

    let mut cursor = Cursor::new(&raw_frame[..]);

    match Frame::check(&mut cursor) {
        Ok(_) => {
            panic!("Should have detected the frame header length issue");
        }
        Err(e) => {
            assert!(matches!(e, FrameError::BadFrame { .. }));
        }
    }
}

#[test]
fn test_bad_frame_no_checksum() {
    let mut raw_frame = BytesMut::with_capacity(16);
    // frame length
    raw_frame.put_u32(25);
    // magic code
    raw_frame.put_u8(MAGIC_CODE);
    // operation code
    raw_frame.put_u16(OperationCode::Ping.into());
    // flag
    raw_frame.put_u8(1);
    // stream identifier
    raw_frame.put_u32(2);
    // header format + header length
    raw_frame.put_u8(HeaderFormat::FlatBuffer.into());
    // header length
    raw_frame.extend_from_slice((10_i32).to_be_bytes()[1..].as_ref());
    // header
    raw_frame.put(&b"header"[..]);
    // payload
    raw_frame.put(&b"abc"[..]);
    // payload checksum
    raw_frame.put_u32(0);

    let mut cursor = Cursor::new(&raw_frame[..]);

    match Frame::check(&mut cursor) {
        Ok(_) => {
            panic!("Should have detected the frame payload length issue");
        }
        Err(e) => {
            assert!(matches!(e, FrameError::BadFrame { .. }));
        }
    }
}

#[test]
fn test_check_and_parse() {
    let mut header = BytesMut::new();
    header.put(&b"header"[..]);

    let mut body = BytesMut::with_capacity(16);
    body.put(&b"abc"[..]);

    let frame = Frame {
        operation_code: OperationCode::Ping,
        flag: 1,
        stream_id: 2,
        header_format: HeaderFormat::FlatBuffer,
        header: Some(header.to_vec()),
        payload: Some(body.to_vec()),
    };

    let mut buf = Vec::new();
    assert_eq!(Ok(()), frame.encode(&mut buf));
    assert_eq!(29, buf.len());

    let mut cursor = Cursor::new(&buf[..]);

    // Frame::check should pass
    assert_eq!(Ok(()), Frame::check(&mut cursor));

    // Reset cursor
    cursor.set_position(0);

    // Validate parse
    let decoded = Frame::parse(&mut cursor).unwrap();
    assert_eq!(OperationCode::Ping, decoded.operation_code);
    assert_eq!(1, decoded.flag);
    assert_eq!(2, decoded.stream_id);
    assert_eq!(HeaderFormat::FlatBuffer, decoded.header_format);
    assert_eq!(Some(b"header".to_vec()), decoded.header);
    assert_eq!(Some(b"abc".to_vec()), decoded.payload);
}

#[test]
fn check_consumes_the_whole_frame() {
    let frame = Frame {
        operation_code: OperationCode::Append,
        flag: 0,
        stream_id: 7,
        header_format: HeaderFormat::JSON,
        header: Some(b"h".to_vec()),
        payload: Some(b"payload".to_vec()),
    };
    let mut buf = Vec::new();
    frame.encode(&mut buf).unwrap();
    let mut cursor = Cursor::new(&buf[..]);
    assert_eq!(Ok(()), Frame::check(&mut cursor));
    assert_eq!(buf.len() as u64, cursor.position());
    assert_eq!(0, cursor.remaining());
}

#[test]
fn check_detects_payload_checksum_mismatch() {
    let frame = Frame {
        operation_code: OperationCode::Fetch,
        flag: 0,
        stream_id: 3,
        header_format: HeaderFormat::FlatBuffer,
        header: None,
        payload: Some(b"abc".to_vec()),
    };
    let mut buf = Vec::new();
    frame.encode(&mut buf).unwrap();
    let n = buf.len();
    buf[n - 1] ^= 0xff;
    let stored = u32::from_be_bytes([buf[n - 4], buf[n - 3], buf[n - 2], buf[n - 1]]);
    let mut cursor = Cursor::new(&buf[..]);
    assert_eq!(
        Err(FrameError::PayloadChecksumMismatch {
            expected: stored,
            actual: crc32(b"abc"),
        }),
        Frame::check(&mut cursor)
    );
}

#[test]
fn check_reports_header_overrun_text() {
    let mut raw = BytesMut::new();
    raw.put_u32(16);
    raw.put_u8(MAGIC_CODE);
    raw.put_u16(1);
    raw.put_u8(0);
    raw.put_u32(1);
    raw.put_u8(1);
    raw.extend_from_slice(&[0, 0, 9]);
    raw.put_u32(0);
    let mut cursor = Cursor::new(&raw[..]);
    assert_eq!(
        Err(FrameError::BadFrame(
            "Header length is: 9, but only 4 bytes in buffer".to_owned()
        )),
        Frame::check(&mut cursor)
    );
    assert_eq!(16, cursor.position());
}

#[test]
fn check_waits_for_the_rest_of_a_frame() {
    let mut raw = BytesMut::new();
    raw.put_u32(20);
    raw.put_u8(MAGIC_CODE);
    let mut cursor = Cursor::new(&raw[..]);
    assert_eq!(Err(FrameError::Incomplete), Frame::check(&mut cursor));
    assert_eq!(4, cursor.position());
}

#[test]
fn check_rejects_trailing_bytes() {
    let frame = Frame {
        operation_code: OperationCode::Ping,
        flag: 0,
        stream_id: 1,
        header_format: HeaderFormat::FlatBuffer,
        header: None,
        payload: None,
    };
    let mut buf = Vec::new();
    frame.encode(&mut buf).unwrap();
    buf.push(0);
    let mut cursor = Cursor::new(&buf[..]);
    assert_eq!(
        Err(FrameError::BadFrame(
            "The remaining bytes are not checksum".to_owned()
        )),
        Frame::check(&mut cursor)
    );
}

#[test]
fn encode_refuses_oversized_frames() {
    let frame = Frame {
        operation_code: OperationCode::Append,
        flag: 0,
        stream_id: 1,
        header_format: HeaderFormat::FlatBuffer,
        header: None,
        payload: Some(vec![0u8; MAX_FRAME_LENGTH as usize]),
    };
    let mut buf = vec![9u8];
    assert_eq!(
        Err(FrameError::TooLongFrame {
            found: MAX_FRAME_LENGTH + 16,
            max: MAX_FRAME_LENGTH
        }),
        frame.encode(&mut buf)
    );
    assert_eq!(vec![9u8], buf);
}

#[test]
fn encode_then_parse_round_trips() {
    let frame = Frame {
        operation_code: OperationCode::ReportMetrics,
        flag: 7,
        stream_id: 0xdeadbeef,
        header_format: HeaderFormat::ProtoBuffer,
        header: Some(vec![1, 2, 3, 4]),
        payload: Some(vec![5; 300]),
    };
    let mut buf = Vec::new();
    frame.encode(&mut buf).unwrap();
    let mut cursor = Cursor::new(&buf[..]);
    assert_eq!(Ok(()), Frame::check(&mut cursor));
    cursor.set_position(0);
    let decoded = Frame::parse(&mut cursor).unwrap();
    assert_eq!(frame.operation_code, decoded.operation_code);
    assert_eq!(frame.flag, decoded.flag);
    assert_eq!(frame.stream_id, decoded.stream_id);
    assert_eq!(frame.header_format, decoded.header_format);
    assert_eq!(frame.header, decoded.header);
    assert_eq!(frame.payload, decoded.payload);
}

#[test]
fn parse_maps_unknown_codes_to_unknown() {
    let mut raw = BytesMut::new();
    raw.put_u32(16);
    raw.put_u8(MAGIC_CODE);
    raw.put_u16(0x7777);
    raw.put_u8(0);
    raw.put_u32(5);
    raw.put_u8(9);
    raw.extend_from_slice(&[0, 0, 0]);
    raw.put_u32(0);
    let mut cursor = Cursor::new(&raw[..]);
    let f = Frame::parse(&mut cursor).unwrap();
    assert_eq!(OperationCode::Unknown, f.operation_code);
    assert_eq!(HeaderFormat::Unknown, f.header_format);
    assert_eq!(None, f.header);
    assert_eq!(None, f.payload);
}

#[test]
fn flags_and_stream_ids() {
    let mut ids = StreamIdSequence::new();
    let mut f = Frame::new(OperationCode::Heartbeat, &mut ids);
    assert_eq!(1, f.stream_id);
    assert_eq!(2, Frame::new(OperationCode::Ping, &mut ids).stream_id);
    assert_eq!(3, ids.peek());
    f.flag_response();
    assert_eq!(1, f.flag);
    f.flag_end_response();
    assert_eq!(3, f.flag);
    f.flag_system_err();
    assert_eq!(7, f.flag);
    assert_eq!(HeaderFormat::FlatBuffer, f.header_format);
}

#[test]
fn unknown_codes_are_refused() {
    assert!(HeaderFormat::try_from(4u8).is_err());
    assert!(OperationCode::try_from(0x1003u16).is_err());
    assert_eq!(Ok(OperationCode::ReportMetrics), OperationCode::try_from(0x4001u16));
}

#[test]
fn payload_checksum_is_crc32_iso_hdlc() {
    let mut ids = StreamIdSequence::new();
    let mut frame = Frame::new(OperationCode::Ping, &mut ids);
    frame.payload = Some(b"123456789".to_vec());
    let mut buffer = Vec::new();
    frame.encode(&mut buffer).unwrap();
    assert_eq!(&0xCBF4_3926u32.to_be_bytes()[..], &buffer[buffer.len() - 4..]);
}

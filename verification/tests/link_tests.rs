use mecanum_base::codec::DecodeError;
use mecanum_base::{sample, LinkHandler, LinkOutcome, TelemetryCell};

fn cell_with(ne: u32, se: u16, nw: u32, sw: u16) -> TelemetryCell {
    let mut cell = TelemetryCell::new();
    cell.publish(sample(ne, se, nw, sw));
    cell
}

#[test]
fn frame_echoes_payload_then_telemetry_reply() {
    let cell = cell_with(100, 200, 300, 400);
    let mut handler = LinkHandler::new();
    for byte in [0x04u8, 0x01, 0x02, 0x03] {
        match handler.on_byte(byte, &cell) {
            LinkOutcome::Accumulated => {}
            _ => panic!("frame must still be accumulating"),
        }
    }
    match handler.on_byte(0x00, &cell) {
        LinkOutcome::Frame(resp) => {
            // echoed payload, then NE count big-endian, then terminator 59
            assert_eq!(resp, vec![0x01, 0x02, 0x03, 0, 0, 0, 100, 59]);
        }
        _ => panic!("the delimiter must complete the frame"),
    }
}

#[test]
fn reply_ends_with_terminator() {
    let cell = cell_with(0xdead_beef, 7, 9, 11);
    let mut handler = LinkHandler::new();
    handler.on_byte(0x02, &cell);
    handler.on_byte(0x55, &cell);
    match handler.on_byte(0x00, &cell) {
        LinkOutcome::Frame(resp) => {
            assert_eq!(resp, vec![0x55, 0xde, 0xad, 0xbe, 0xef, 59]);
            assert_eq!(*resp.last().unwrap(), 59);
        }
        _ => panic!("the delimiter must complete the frame"),
    }
}

#[test]
fn malformed_frame_sends_nothing() {
    let cell = cell_with(1, 2, 3, 4);
    let mut handler = LinkHandler::new();
    // block-length byte 0x06 points past the end of the buffered frame
    for byte in [0x06u8, 0x01, 0x02, 0x03] {
        handler.on_byte(byte, &cell);
    }
    match handler.on_byte(0x00, &cell) {
        LinkOutcome::Malformed(er) => assert_eq!(er, DecodeError::OffsetOutOfRange),
        _ => panic!("a malformed frame must be reported, not answered"),
    }
    // the handler is idle again: a good frame goes through afterwards
    for byte in [0x02u8, 0x42] {
        handler.on_byte(byte, &cell);
    }
    match handler.on_byte(0x00, &cell) {
        LinkOutcome::Frame(resp) => assert_eq!(resp, vec![0x42, 0, 0, 0, 1, 59]),
        _ => panic!("the handler must have resynchronized"),
    }
}

#[test]
fn overflow_discards_partial_frame() {
    let cell = cell_with(5, 6, 7, 8);
    let mut handler = LinkHandler::new();
    // 1024 bytes without a delimiter fill the buffer exactly
    for i in 0..1024u32 {
        match handler.on_byte((i % 255 + 1) as u8, &cell) {
            LinkOutcome::Accumulated => {}
            _ => panic!("byte {} must be accepted", i),
        }
    }
    // the 1025th byte overflows: the partial frame is discarded, nothing sent
    match handler.on_byte(0x7f, &cell) {
        LinkOutcome::Overflow => {}
        _ => panic!("the 1025th byte must overflow"),
    }
    // back at idle: a fresh frame decodes normally
    for byte in [0x02u8, 0x33] {
        handler.on_byte(byte, &cell);
    }
    match handler.on_byte(0x00, &cell) {
        LinkOutcome::Frame(resp) => assert_eq!(resp, vec![0x33, 0, 0, 0, 5, 59]),
        _ => panic!("the handler must be idle after an overflow"),
    }
}

#[test]
fn delimiter_on_full_buffer_overflows() {
    let cell = cell_with(5, 6, 7, 8);
    let mut handler = LinkHandler::new();
    for _ in 0..1024 {
        handler.on_byte(0x01, &cell);
    }
    // even the delimiter cannot be fitted once the buffer is full
    match handler.on_byte(0x00, &cell) {
        LinkOutcome::Overflow => {}
        _ => panic!("a full buffer must overflow on any further byte"),
    }
}

#[test]
fn largest_frame_fits_exactly() {
    let cell = cell_with(9, 9, 9, 9);
    let mut handler = LinkHandler::new();
    // an all-zero 1022-byte payload stuffs to 1023 bytes; with the
    // delimiter it fills the 1024-byte buffer exactly
    let payload: Vec<u8> = vec![0u8; 1022];
    let frame = mecanum_base::encode(&payload);
    assert_eq!(frame.len(), 1023);
    for &byte in &frame {
        match handler.on_byte(byte, &cell) {
            LinkOutcome::Accumulated => {}
            _ => panic!("the largest frame must be accepted"),
        }
    }
    match handler.on_byte(0x00, &cell) {
        LinkOutcome::Frame(resp) => {
            assert_eq!(&resp[..1022], &payload[..]);
            assert_eq!(&resp[1022..], &[0, 0, 0, 9, 59]);
        }
        _ => panic!("the largest frame must decode"),
    }
}

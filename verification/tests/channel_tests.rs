use netidx::channel::{frame_bytes, frame_step, take_payload, FrameStep, WriteBuffer};
use netidx::value::Value;

#[test]
fn frame_header_round_trip() {
    let payload = vec![1u8, 2, 3];
    let mut buf = frame_bytes(&payload, false);
    buf.extend_from_slice(&[9, 9]);
    assert_eq!(frame_step(&buf, false), FrameStep::Plain { len: 3 });
    let got = take_payload(&mut buf, 3);
    assert_eq!(got, payload);
    assert_eq!(buf, vec![9, 9]);
}

#[test]
fn encrypted_bit_is_the_top_bit() {
    let payload = vec![7u8; 5];
    let framed = frame_bytes(&payload, true);
    assert_eq!(framed[0] & 0x80, 0x80);
    assert_eq!(frame_step(&framed, true), FrameStep::Encrypted { len: 5 });
}

#[test]
fn plaintext_after_context_is_refused() {
    // once a security context is installed, an unencrypted frame fails
    // the connection
    let framed = frame_bytes(&vec![1u8, 2], false);
    assert_eq!(frame_step(&framed, false), FrameStep::Plain { len: 2 });
    assert_eq!(frame_step(&framed, true), FrameStep::RejectPlain);
}

#[test]
fn incomplete_frames_wait_for_bytes() {
    assert_eq!(frame_step(&vec![0, 0], false), FrameStep::NeedBytes);
    // header promises four bytes, only two arrived
    assert_eq!(frame_step(&vec![0, 0, 0, 4, 1, 2], false), FrameStep::NeedBytes);
}

#[test]
fn write_buffer_queues_and_drains() {
    let mut wb = WriteBuffer::new();
    wb.queue_send(&Value::U32(7)).unwrap();
    wb.queue_send(&Value::True).unwrap();
    assert_eq!(wb.bytes_queued(), 6);
    let seg = wb.take_segment().expect("segment");
    let mut expect: Vec<u8> = Vec::new();
    Value::U32(7).encode(&mut expect);
    Value::True.encode(&mut expect);
    assert_eq!(seg, expect);
    assert!(wb.take_segment().is_none());
}

#[test]
fn write_buffer_clear_drops_everything() {
    let mut wb = WriteBuffer::new();
    wb.queue_send(&Value::U32(7)).unwrap();
    wb.clear();
    assert_eq!(wb.bytes_queued(), 0);
    assert!(wb.take_segment().is_none());
}

#[test]
fn oversize_messages_leave_the_buffer_alone() {
    let mut wb = WriteBuffer::new();
    wb.queue_send(&Value::U32(1)).unwrap();
    let big = Value::Bytes(vec![0u8; 0x3FFF_FFFF]);
    assert!(wb.queue_send(&big).is_err());
    assert_eq!(wb.bytes_queued(), 5);
}

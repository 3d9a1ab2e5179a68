//! A publisher's update stream walked end to end through the verified
//! pieces: values are framed, the frames are read back, the batch is
//! decoded, and the connection state machine delivers everything in
//! order.

use netidx::channel::{frame_bytes, frame_step, take_payload, FrameStep, WriteBuffer};
use netidx::subscriber::{ConState, ControlOutcome, FromPublisher, ValOutcome};
use netidx::value::Value;

#[test]
fn updates_survive_the_whole_pipeline() {
    // the publisher queues fifty updates and flushes them as one segment
    let mut wb = WriteBuffer::new();
    for k in 1..=50u64 {
        wb.queue_send(&Value::V64(k)).unwrap();
    }
    let segment = wb.take_segment().expect("one segment");

    // the segment travels as one frame over the wire
    let mut wire = frame_bytes(&segment, false);
    wire.extend_from_slice(&[0xEE]);
    let len = match frame_step(&wire, false) {
        FrameStep::Plain { len } => len,
        s => panic!("expected a plain frame, got {:?}", s),
    };
    let payload = take_payload(&mut wire, len);
    assert_eq!(wire, vec![0xEE]);

    // the reader decodes the batch back into the same values
    let values = netidx::channel::decode_batch(&payload).expect("batch");
    let expect: Vec<Value> = (1..=50).map(Value::V64).collect();
    assert_eq!(values, expect);

    // the connection fans each update out in order on one subscription
    let mut con = ConState::new();
    con.add_pending(&String::from("/bench/0/0"), 1);
    assert_eq!(
        con.handle_control(&FromPublisher::Subscribed(String::from("/bench/0/0"), 8)),
        Ok(ControlOutcome::Nothing)
    );
    let mut initial: Vec<u8> = Vec::new();
    Value::V64(0).encode(&mut initial);
    assert_eq!(con.handle_val(&initial), ValOutcome::Started { id: 8, req: 1 });
    let mut delivered: Vec<Value> = Vec::new();
    for v in &values {
        con.handle_control(&FromPublisher::Message(8)).unwrap();
        let mut bytes: Vec<u8> = Vec::new();
        v.encode(&mut bytes);
        match con.handle_val(&bytes) {
            ValOutcome::Delivered { id } => {
                assert_eq!(id, 8);
                let (w, _) = Value::decode(&bytes, 0).unwrap();
                delivered.push(w);
            }
            o => panic!("expected a delivery, got {:?}", o),
        }
    }
    assert_eq!(delivered, expect);

    // the subscription's last value is the final update
    let mut last_bytes: Vec<u8> = Vec::new();
    Value::V64(50).encode(&mut last_bytes);
    assert_eq!(con.last_value(8), Some(last_bytes));
    assert_eq!(con.last_value(9), None);
}

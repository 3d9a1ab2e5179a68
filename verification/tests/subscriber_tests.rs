use netidx::resolver::Addr;
use netidx::subscriber::{
    pick_publisher, plan_path, unsubscribe_path, ConState, ControlOutcome,
    FromPublisher, SubMap, SubPlan, SubStatus, ValOutcome,
};

fn addr(port: u16) -> Addr {
    Addr { ip: 0x7F00_0001, port }
}

#[test]
fn concurrent_subscribes_share_one_request() {
    // a hundred callers arrive for one path: exactly one is told to start
    // the resolution, everyone else waits on its outcome
    let mut map = SubMap::new();
    let p = String::from("/app/v0");
    let mut starts = 0;
    for _ in 0..100 {
        match plan_path(&mut map, &p, false) {
            SubPlan::StartResolve => starts += 1,
            SubPlan::Wait => (),
            SubPlan::Reuse { .. } => panic!("nothing to reuse yet"),
        }
    }
    assert_eq!(starts, 1);
    assert_eq!(map.status(&p), Some(SubStatus::Pending { waiters: 99 }));
}

#[test]
fn subscribe_lifecycle() {
    let mut map = SubMap::new();
    let p = String::from("/app/v0");
    assert_eq!(plan_path(&mut map, &p, false), SubPlan::StartResolve);
    assert_eq!(plan_path(&mut map, &p, false), SubPlan::Wait);
    let w = netidx::subscriber::complete_ok(&mut map, &p, 5, addr(1));
    assert_eq!(w, 1);
    // a live subscription is shared while its handle is alive
    assert_eq!(plan_path(&mut map, &p, true), SubPlan::Reuse { id: 5, addr: addr(1) });
    // a dead handle starts a fresh attempt
    assert_eq!(plan_path(&mut map, &p, false), SubPlan::StartResolve);
    let w2 = netidx::subscriber::complete_err(&mut map, &p);
    assert_eq!(w2, 0);
    assert_eq!(map.status(&p), None);
}

#[test]
fn unsubscribe_only_drops_the_matching_entry() {
    let mut map = SubMap::new();
    let p = String::from("/app/v0");
    netidx::subscriber::complete_ok(&mut map, &p, 5, addr(1));
    // a different id keeps the entry
    unsubscribe_path(&mut map, &p, 6, addr(1), true);
    assert!(map.status(&p).is_some());
    unsubscribe_path(&mut map, &p, 5, addr(1), true);
    assert_eq!(map.status(&p), None);
}

#[test]
fn publisher_pick() {
    assert_eq!(pick_publisher(&vec![]), None);
    assert_eq!(pick_publisher(&vec![addr(1)]), Some(addr(1)));
    let many = vec![addr(1), addr(2), addr(3)];
    let got = pick_publisher(&many).unwrap();
    assert!(many.contains(&got));
}

#[test]
fn ordered_lossless_stream() {
    // a subscription accepted, then values v1..v50 in order: the
    // deliveries are exactly those values in order, and last is the final
    let mut con = ConState::new();
    con.add_pending(&String::from("/app/v0"), 77);
    assert_eq!(
        con.handle_control(&FromPublisher::Subscribed(String::from("/app/v0"), 4)),
        Ok(ControlOutcome::Nothing)
    );
    // the initial value creates the subscription
    assert_eq!(con.handle_val(&vec![0]), ValOutcome::Started { id: 4, req: 77 });
    let mut seen: Vec<u8> = Vec::new();
    for k in 1..=50u8 {
        assert_eq!(
            con.handle_control(&FromPublisher::Message(4)),
            Ok(ControlOutcome::Nothing)
        );
        match con.handle_val(&vec![k]) {
            ValOutcome::Delivered { id } => {
                assert_eq!(id, 4);
                seen.push(k);
            }
            o => panic!("expected a delivery, got {:?}", o),
        }
    }
    let expect: Vec<u8> = (1..=50).collect();
    assert_eq!(seen, expect);
}

#[test]
fn control_messages() {
    let mut con = ConState::new();
    con.add_pending(&String::from("/a"), 1);
    assert_eq!(
        con.handle_control(&FromPublisher::NoSuchValue(String::from("/a"))),
        Ok(ControlOutcome::NoSuch { req: 1 })
    );
    // an acceptance for a path never requested fails the connection
    assert_eq!(
        con.handle_control(&FromPublisher::Subscribed(String::from("/b"), 9)),
        Err(())
    );
    // build a live subscription, then let the publisher end it
    con.add_pending(&String::from("/c"), 2);
    con.handle_control(&FromPublisher::Subscribed(String::from("/c"), 9)).unwrap();
    assert_eq!(con.handle_val(&vec![7]), ValOutcome::Started { id: 9, req: 2 });
    assert_eq!(
        con.handle_control(&FromPublisher::Unsubscribed(9)),
        Ok(ControlOutcome::Dropped { id: 9, path: String::from("/c") })
    );
    assert_eq!(
        con.handle_control(&FromPublisher::Unsubscribed(9)),
        Ok(ControlOutcome::Nothing)
    );
    // a data frame with no preceding header is dropped
    assert_eq!(con.handle_val(&vec![1]), ValOutcome::Ignored);
}

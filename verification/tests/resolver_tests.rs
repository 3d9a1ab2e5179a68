use netidx::resolver::{
    auth, handle_write_batch, is_heartbeat_singleton, ownership_challenge,
    ownership_token_valid, plan_hello_read, plan_hello_write, run, ttl_cleanup, Addr,
    Auth, CTracker, CfgAuth, ClientAuthRead, ClientAuthWrite, Clinfos, CmdReply,
    FromWrite, HelloReadPlan, HelloWritePlan, ResolverCmd, SecStore, Store, ToWrite,
    WriterGreeting,
};

fn addr(port: u16) -> Addr {
    Addr { ip: 0x7F00_0001, port }
}

#[test]
fn clear_splits_batches() {
    // publish a and b, clear, publish c: four acks in order, and only c
    // stays registered afterwards
    let mut store = Store::new();
    let a = addr(9000);
    let batch = vec![
        ToWrite::Publish(String::from("/app/a")),
        ToWrite::Publish(String::from("/app/b")),
        ToWrite::Clear,
        ToWrite::Publish(String::from("/app/c")),
    ];
    let (acks, cuts) = handle_write_batch(&mut store, a, &batch);
    assert_eq!(
        acks,
        vec![
            FromWrite::Published,
            FromWrite::Published,
            FromWrite::Unpublished,
            FromWrite::Published,
        ]
    );
    // the clear forces one flush, after its own ack
    assert_eq!(cuts, vec![3]);
    assert_eq!(store.resolve(&String::from("/app/a")), vec![]);
    assert_eq!(store.resolve(&String::from("/app/b")), vec![]);
    assert_eq!(store.resolve(&String::from("/app/c")), vec![a]);
}

#[test]
fn heartbeats_earn_no_ack() {
    let mut store = Store::new();
    let batch = vec![ToWrite::Heartbeat];
    assert!(is_heartbeat_singleton(&batch));
    let (acks, cuts) = handle_write_batch(&mut store, addr(1), &batch);
    assert_eq!(acks, vec![]);
    assert_eq!(cuts, vec![]);
    let batch2 = vec![ToWrite::Heartbeat, ToWrite::Clear];
    assert!(!is_heartbeat_singleton(&batch2));
}

#[test]
fn unpublish_removes_only_the_pair() {
    let mut store = Store::new();
    let a = addr(1);
    let b = addr(2);
    let p = String::from("/x");
    store.publish(&p, a);
    store.publish(&p, b);
    store.unpublish(&p, a);
    assert_eq!(store.resolve(&p), vec![b]);
}

#[test]
fn writer_ttl_cleanup() {
    // after the TTL fires, the store holds no path of the writer and its
    // security record is gone
    let mut clinfos = Clinfos::new();
    let mut store = Store::new();
    let mut secstore = SecStore::new();
    let w = addr(9001);
    let other = addr(9002);
    store.publish(&String::from("/x"), w);
    store.publish(&String::from("/y"), other);
    secstore.store(w, &String::from("writer@REALM"), 42);
    clinfos.register_writer(w, 7).unwrap();
    clinfos.register_writer(other, 8).unwrap();
    ttl_cleanup(&mut clinfos, &mut store, &mut secstore, w);
    assert_eq!(store.resolve(&String::from("/x")), vec![]);
    assert_eq!(store.resolve(&String::from("/y")), vec![other]);
    assert!(secstore.get(w).is_none());
    assert_eq!(clinfos.greet_writer(w), WriterGreeting::Fresh);
    assert_eq!(clinfos.greet_writer(other), WriterGreeting::Current { prev_session: 8 });
}

#[test]
fn writer_registration_states() {
    let mut clinfos = Clinfos::new();
    let w = addr(9001);
    assert_eq!(clinfos.greet_writer(w), WriterGreeting::Fresh);
    assert_eq!(clinfos.register_writer(w, 1), Ok(None));
    assert_eq!(clinfos.greet_writer(w), WriterGreeting::Current { prev_session: 1 });
    // a new session for the same address cancels the previous one
    assert_eq!(clinfos.register_writer(w, 2), Ok(Some(1)));
    clinfos.begin_cleanup(w);
    assert_eq!(clinfos.greet_writer(w), WriterGreeting::MustWait);
    assert!(clinfos.register_writer(w, 3).is_err());
    clinfos.remove(w);
    assert_eq!(clinfos.greet_writer(w), WriterGreeting::Fresh);
}

#[test]
fn connection_tracker_counts() {
    let mut t = CTracker::new();
    let a = t.open();
    let b = t.open();
    assert_ne!(a, b);
    assert_eq!(t.num_open(), 2);
    t.close(a);
    assert_eq!(t.num_open(), 1);
    t.close(a);
    assert_eq!(t.num_open(), 1);
}

#[test]
fn hello_plans() {
    assert_eq!(
        plan_hello_write(&ClientAuthWrite::Anonymous, false, false),
        HelloWritePlan::Anonymous
    );
    assert_eq!(
        plan_hello_write(&ClientAuthWrite::Reuse, true, true),
        HelloWritePlan::Reused
    );
    assert_eq!(
        plan_hello_write(&ClientAuthWrite::Reuse, true, false),
        HelloWritePlan::Deny
    );
    assert_eq!(
        plan_hello_write(&ClientAuthWrite::Reuse, false, false),
        HelloWritePlan::Deny
    );
    let init = ClientAuthWrite::Initiate { spn: None, token: vec![] };
    assert_eq!(plan_hello_write(&init, true, false), HelloWritePlan::Initiate);
    assert_eq!(plan_hello_write(&init, false, false), HelloWritePlan::Deny);
    assert_eq!(plan_hello_read(&ClientAuthRead::Anonymous, false), HelloReadPlan::Anonymous);
    // read-side reuse is deprecated and always refused
    assert_eq!(plan_hello_read(&ClientAuthRead::Reuse(3), true), HelloReadPlan::Deny);
    assert_eq!(
        plan_hello_read(&ClientAuthRead::Initiate(vec![1]), true),
        HelloReadPlan::Initiate
    );
}

#[test]
fn ownership_check() {
    // token: 8 challenge bytes then the digest tail
    let tok: Vec<u8> = vec![0, 0, 0, 0, 0, 0, 0, 9, 0xAA, 0xBB];
    let good: Vec<u8> = vec![1, 1, 1, 1, 1, 1, 1, 1, 0xAA, 0xBB];
    let bad: Vec<u8> = vec![1, 1, 1, 1, 1, 1, 1, 1, 0xAA, 0xCC];
    assert_eq!(ownership_challenge(&tok), Some(9));
    assert_eq!(ownership_challenge(&tok[..4]), None);
    assert!(ownership_token_valid(&tok, &good));
    assert!(!ownership_token_valid(&tok, &bad));
    assert!(!ownership_token_valid(&tok[..4], &good));
}

#[test]
fn auth_choice() {
    assert_eq!(auth(true, &CfgAuth::Krb5(vec![]), None, None), Auth::Anonymous);
    assert_eq!(auth(false, &CfgAuth::Anonymous, None, None), Auth::Anonymous);
    assert_eq!(
        auth(false, &CfgAuth::Krb5(vec![]), Some(String::from("u")), None),
        Auth::Krb5 { upn: Some(String::from("u")), spn: None }
    );
}

#[test]
fn run_list_prints_each_path_once() {
    let cmd = ResolverCmd::List { watch: true, no_structure: false, path: None };
    let mut seen: Vec<String> = Vec::new();
    let first = CmdReply::Listed {
        paths: vec![String::from("/a"), String::from("/b"), String::from("/a")],
    };
    let (out, again) = run(&cmd, &first, &mut seen);
    assert_eq!(out, vec![String::from("/a"), String::from("/b")]);
    assert!(again);
    let second = CmdReply::Listed { paths: vec![String::from("/b"), String::from("/c")] };
    let (out2, again2) = run(&cmd, &second, &mut seen);
    assert_eq!(out2, vec![String::from("/c")]);
    assert!(again2);
    let once = ResolverCmd::Resolve { path: String::from("/a") };
    let reply = CmdReply::Resolved {
        krb5_spns: vec![String::from("host/r1@REALM")],
        addrs: vec![String::from("127.0.0.1:4564")],
    };
    let (out3, again3) = run(&once, &reply, &mut seen);
    assert_eq!(out3, vec![String::from("host/r1@REALM"), String::from("127.0.0.1:4564")]);
    assert!(!again3);
}

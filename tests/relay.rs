use room_relay::channel::CHANNEL_CAPACITY;
use room_relay::registry::{Delivery, RoomRegistry};

fn names(v: &[&str]) -> Vec<String> {
    v.iter().map(|s| s.to_string()).collect()
}

fn delivered_to(report: &[Delivery], user: &str) -> Vec<u64> {
    report.iter().filter(|d| d.user == user).map(|d| d.channel).collect()
}

#[test]
fn absent_member_gets_message_queued_and_drained_on_connect() {
    let mut reg = RoomRegistry::new();
    let members = names(&["A", "B"]);
    let a = reg.register("r1", "A").unwrap();
    let report = reg.fan_out("r1", &members, "A", &"{\"content\":\"hi\"}".to_string());
    assert!(report.is_empty());
    let b = reg.register("r1", "B").unwrap();
    let backlog = reg.drain_pending("r1", "B");
    assert_eq!(backlog, vec!["{\"content\":\"hi\"}".to_string()]);
    assert!(reg.drain_pending("r1", "B").is_empty());
    let report = reg.fan_out("r1", &members, "A", &"newer".to_string());
    assert_eq!(delivered_to(&report, "B"), vec![b.channel]);
    let mut rx = b.receiver;
    assert_eq!(rx.try_recv().unwrap(), "newer");
    drop(a);
}

#[test]
fn connected_member_receives_exactly_one_frame_and_sender_none() {
    let mut reg = RoomRegistry::new();
    let members = names(&["A", "B"]);
    let mut a = reg.register("r1", "A").unwrap();
    let mut b = reg.register("r1", "B").unwrap();
    let report = reg.fan_out("r1", &members, "A", &"hello".to_string());
    assert_eq!(report.len(), 1);
    assert_eq!(report[0].user, "B");
    assert_eq!(report[0].channel, b.channel);
    assert!(report[0].delivered);
    assert_eq!(b.receiver.try_recv().unwrap(), "hello");
    assert!(b.receiver.try_recv().is_err());
    assert!(a.receiver.try_recv().is_err());
    assert!(reg.drain_pending("r1", "B").is_empty());
}

#[test]
fn two_connections_of_one_member_both_receive() {
    let mut reg = RoomRegistry::new();
    let members = names(&["A", "B"]);
    let mut b1 = reg.register("r1", "B").unwrap();
    let mut b2 = reg.register("r1", "B").unwrap();
    assert_ne!(b1.channel, b2.channel);
    let report = reg.fan_out("r1", &members, "A", &"m1".to_string());
    let mut chans = delivered_to(&report, "B");
    chans.sort();
    assert_eq!(chans, vec![b1.channel, b2.channel]);
    assert_eq!(b1.receiver.try_recv().unwrap(), "m1");
    assert_eq!(b2.receiver.try_recv().unwrap(), "m1");
    let report = reg.fan_out("r1", &members, "A", &"m2".to_string());
    assert_eq!(report.len(), 2);
    assert_eq!(b1.receiver.try_recv().unwrap(), "m2");
    assert_eq!(b2.receiver.try_recv().unwrap(), "m2");
}

#[test]
fn pending_messages_drain_in_send_order() {
    let mut reg = RoomRegistry::new();
    let members = names(&["A", "B", "C"]);
    reg.fan_out("r1", &members, "A", &"1".to_string());
    reg.fan_out("r1", &members, "C", &"2".to_string());
    reg.fan_out("r1", &members, "A", &"3".to_string());
    let _b = reg.register("r1", "B").unwrap();
    assert_eq!(reg.drain_pending("r1", "B"), names(&["1", "2", "3"]));
    assert_eq!(reg.drain_pending("r1", "A"), names(&["2"]));
    assert_eq!(reg.drain_pending("r1", "C"), names(&["1", "3"]));
}

#[test]
fn failed_sends_fall_back_to_the_queue() {
    let mut reg = RoomRegistry::new();
    let members = names(&["A", "B"]);
    let b = reg.register("r1", "B").unwrap();
    drop(b.receiver);
    let report = reg.fan_out("r1", &members, "A", &"lost?".to_string());
    assert_eq!(report.len(), 1);
    assert!(!report[0].delivered);
    assert_eq!(reg.drain_pending("r1", "B"), names(&["lost?"]));
}

#[test]
fn deliver_or_queue_reports_each_channel() {
    let mut reg = RoomRegistry::new();
    let mut b1 = reg.register("r1", "B").unwrap();
    let b2 = reg.register("r1", "B").unwrap();
    drop(b2.receiver);
    let report = reg.deliver_or_queue("r1", "B", &"x".to_string());
    assert_eq!(report.len(), 2);
    assert_eq!(report[0].channel, b1.channel);
    assert!(report[0].delivered);
    assert_eq!(report[1].channel, b2.channel);
    assert!(!report[1].delivered);
    assert_eq!(b1.receiver.try_recv().unwrap(), "x");
    assert!(reg.drain_pending("r1", "B").is_empty());
    let report = reg.deliver_or_queue("r1", "Z", &"y".to_string());
    assert!(report.is_empty());
    assert_eq!(reg.drain_pending("r1", "Z"), names(&["y"]));
}

#[test]
fn room_entry_lives_while_a_channel_or_queue_remains() {
    let mut reg = RoomRegistry::new();
    assert!(!reg.contains_room("r1"));
    let a = reg.register("r1", "A").unwrap();
    assert!(reg.contains_room("r1"));
    assert!(!reg.contains_room("r2"));
    reg.unregister("r1", "A", a.channel);
    assert!(!reg.contains_room("r1"));

    let a = reg.register("r1", "A").unwrap();
    reg.fan_out("r1", &names(&["A", "B"]), "A", &"for B".to_string());
    reg.unregister("r1", "A", a.channel);
    assert!(reg.contains_room("r1"));
    assert_eq!(reg.drain_pending("r1", "B"), names(&["for B"]));
    assert!(!reg.contains_room("r1"));
}

#[test]
fn unregister_removes_only_the_given_channel() {
    let mut reg = RoomRegistry::new();
    let b1 = reg.register("r1", "B").unwrap();
    let mut b2 = reg.register("r1", "B").unwrap();
    reg.unregister("r1", "B", b1.channel);
    let report = reg.fan_out("r1", &names(&["A", "B"]), "A", &"after".to_string());
    assert_eq!(delivered_to(&report, "B"), vec![b2.channel]);
    assert_eq!(b2.receiver.try_recv().unwrap(), "after");
    reg.unregister("r1", "B", 999);
    assert!(reg.contains_room("r1"));
    reg.unregister("r1", "B", b2.channel);
    assert!(!reg.contains_room("r1"));
}

#[test]
fn rooms_are_kept_apart() {
    let mut reg = RoomRegistry::new();
    let mut b_r2 = reg.register("r2", "B").unwrap();
    reg.fan_out("r1", &names(&["A", "B"]), "A", &"only r1".to_string());
    assert!(b_r2.receiver.try_recv().is_err());
    assert!(reg.drain_pending("r2", "B").is_empty());
    assert_eq!(reg.drain_pending("r1", "B"), names(&["only r1"]));
}

#[test]
fn overflow_of_a_full_channel_goes_to_the_queue() {
    let mut reg = RoomRegistry::new();
    let members = names(&["A", "B"]);
    let mut b = reg.register("r1", "B").unwrap();
    for i in 0..CHANNEL_CAPACITY {
        let report = reg.fan_out("r1", &members, "A", &format!("m{}", i));
        assert!(report[0].delivered);
    }
    let report = reg.fan_out("r1", &members, "A", &"spill".to_string());
    assert!(!report[0].delivered);
    assert_eq!(b.receiver.try_recv().unwrap(), "m0");
    assert_eq!(reg.drain_pending("r1", "B"), names(&["spill"]));
}

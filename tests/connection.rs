use room_relay::connection::{
    authorize, connect, distinct_members, is_listed, on_client_event, AuthError, Claims, ClientEvent,
    ConnectError, InboundFrame, StreamAction,
};
use room_relay::registry::RoomRegistry;

fn names(v: &[&str]) -> Vec<String> {
    v.iter().map(|s| s.to_string()).collect()
}

fn claims(user: &str) -> Result<Claims, AuthError> {
    Ok(Claims { exp: 4_000_000_000, sub: user.to_string() })
}

#[test]
fn expired_token_is_rejected_without_touching_the_registry() {
    let mut reg = RoomRegistry::new();
    let r = connect(&mut reg, "r1", &Err(AuthError::Expired), &names(&["A", "B"]));
    assert!(matches!(r, Err(ConnectError::Unauthorized)));
    assert!(!reg.contains_room("r1"));
    let r = connect(&mut reg, "r1", &Err(AuthError::Invalid), &names(&["A"]));
    assert!(matches!(r, Err(ConnectError::Unauthorized)));
    assert!(!reg.contains_room("r1"));
}

#[test]
fn non_member_is_rejected_before_registration() {
    let mut reg = RoomRegistry::new();
    let r = connect(&mut reg, "r1", &claims("C"), &names(&["A", "B"]));
    assert!(matches!(r, Err(ConnectError::Forbidden)));
    assert!(!reg.contains_room("r1"));
    assert!(reg.drain_pending("r1", "C").is_empty());
}

#[test]
fn connect_hands_over_the_backlog_first() {
    let mut reg = RoomRegistry::new();
    let members = names(&["A", "B"]);
    let a = connect(&mut reg, "r1", &claims("A"), &members).unwrap();
    assert!(a.backlog.is_empty());
    assert_eq!(a.user, "A");
    assert_eq!(a.room, "r1");
    reg.fan_out("r1", &members, "A", &"hi".to_string());
    let mut b = connect(&mut reg, "r1", &claims("B"), &members).unwrap();
    assert_eq!(b.backlog, names(&["hi"]));
    assert!(b.receiver.try_recv().is_err());
    reg.fan_out("r1", &members, "A", &"next".to_string());
    assert_eq!(b.receiver.try_recv().unwrap(), "next");
    assert!(reg.drain_pending("r1", "B").is_empty());
}

#[test]
fn authorize_sorts_out_the_outcomes() {
    let members = names(&["A", "B"]);
    assert_eq!(authorize(&claims("B"), &members).unwrap(), "B");
    assert!(matches!(authorize(&claims("X"), &members), Err(ConnectError::Forbidden)));
    assert!(matches!(authorize(&Err(AuthError::Expired), &members), Err(ConnectError::Unauthorized)));
}

fn frame(content: &str, room: &str, sender: &str) -> ClientEvent {
    ClientEvent::Text(Some(InboundFrame {
        content: content.to_string(),
        room_id: room.to_string(),
        sender_id: sender.to_string(),
    }))
}

#[test]
fn text_frame_from_the_authenticated_user_is_persisted() {
    match on_client_event("r1", "A", frame("hello", "r1", "A")) {
        StreamAction::Persist(m) => {
            assert_eq!(m.room, "r1");
            assert_eq!(m.sender, "A");
            assert_eq!(m.content, "hello");
        }
        _ => panic!("expected a message to persist"),
    }
}

#[test]
fn frame_persists_to_the_connection_room() {
    match on_client_event("r1", "A", frame("x", "other", "A")) {
        StreamAction::Persist(m) => assert_eq!(m.room, "r1"),
        _ => panic!("expected a message to persist"),
    }
}

#[test]
fn frame_claiming_another_sender_is_rejected() {
    assert!(matches!(on_client_event("r1", "A", frame("x", "r1", "B")), StreamAction::Reject));
}

#[test]
fn malformed_and_control_frames() {
    assert!(matches!(on_client_event("r1", "A", ClientEvent::Text(None)), StreamAction::Drop));
    assert!(matches!(on_client_event("r1", "A", ClientEvent::Control), StreamAction::Ignore));
    assert!(matches!(on_client_event("r1", "A", ClientEvent::Close), StreamAction::Close));
    assert!(matches!(on_client_event("r1", "A", ClientEvent::Failure), StreamAction::Close));
    assert!(matches!(on_client_event("r1", "A", ClientEvent::Ended), StreamAction::Close));
}

#[test]
fn member_lists() {
    let members = names(&["A", "B", "A", "C", "B"]);
    assert_eq!(distinct_members(&members), names(&["A", "B", "C"]));
    assert!(distinct_members(&Vec::new()).is_empty());
    assert!(is_listed(&members, &"C".to_string()));
    assert!(!is_listed(&members, &"D".to_string()));
}

use room_relay::presence::{presence_step, status_update, Presence, PresenceAction, PresenceEvent, HEARTBEAT_INTERVAL_SECS};

#[test]
fn heartbeat_interval_is_thirty_seconds() {
    assert_eq!(HEARTBEAT_INTERVAL_SECS, 30);
}

#[test]
fn opening_marks_online_and_ticks_ping() {
    assert_eq!(presence_step(Presence::Waiting, PresenceEvent::Opened), (Presence::Online, PresenceAction::MarkOnline));
    assert_eq!(presence_step(Presence::Online, PresenceEvent::Tick), (Presence::Online, PresenceAction::Ping));
    assert_eq!(presence_step(Presence::Online, PresenceEvent::Frame), (Presence::Online, PresenceAction::Wait));
    assert_eq!(presence_step(Presence::Waiting, PresenceEvent::Tick), (Presence::Waiting, PresenceAction::Wait));
}

#[test]
fn failures_mark_offline_and_stop() {
    for e in [PresenceEvent::PingFailed, PresenceEvent::Closed, PresenceEvent::Failed, PresenceEvent::Ended] {
        assert_eq!(presence_step(Presence::Online, e), (Presence::Stopped, PresenceAction::MarkOffline));
        assert_eq!(presence_step(Presence::Waiting, e), (Presence::Stopped, PresenceAction::Wait));
        assert_eq!(presence_step(Presence::Stopped, e), (Presence::Stopped, PresenceAction::Wait));
    }
    assert_eq!(presence_step(Presence::Stopped, PresenceEvent::Opened), (Presence::Stopped, PresenceAction::Wait));
}

#[test]
fn status_records() {
    let on = status_update("u1", PresenceAction::MarkOnline).unwrap();
    assert_eq!(on.user_id, "u1");
    assert!(on.online);
    let off = status_update("u1", PresenceAction::MarkOffline).unwrap();
    assert!(!off.online);
    assert!(status_update("u1", PresenceAction::Ping).is_none());
    assert!(status_update("u1", PresenceAction::Wait).is_none());
}

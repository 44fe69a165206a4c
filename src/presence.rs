//! The presence tracker: a heartbeat loop bound to one connection that marks
//! its user online when the connection opens and offline when the heartbeat
//! fails or the connection ends. It does not consult the room registry.

use vstd::prelude::*;

verus! {

/// Seconds between two heartbeat pings.
pub const HEARTBEAT_INTERVAL_SECS: u64 = 30;

/// A user's online flag as the status store records it.
pub struct UserOnline {
    pub user_id: String,
    pub online: bool,
}

/// Where a tracker stands.
#[derive(PartialEq, Eq, Structural, Clone, Copy, Debug)]
pub enum Presence {
    /// The connection has not started streaming yet.
    Waiting,
    /// The user was marked online and the heartbeat runs.
    Online,
    /// The loop has ended.
    Stopped,
}

/// What happened on the connection.
#[derive(PartialEq, Eq, Structural, Clone, Copy, Debug)]
pub enum PresenceEvent {
    /// The connection started streaming.
    Opened,
    /// The heartbeat interval elapsed.
    Tick,
    /// A ping could not be sent.
    PingFailed,
    /// The client sent a frame that carries no close.
    Frame,
    /// The client sent a close frame.
    Closed,
    /// The stream failed.
    Failed,
    /// The stream ended.
    Ended,
}

/// What the loop does next.
#[derive(PartialEq, Eq, Structural, Clone, Copy, Debug)]
pub enum PresenceAction {
    /// Record the user as online.
    MarkOnline,
    /// Send a ping to the client.
    Ping,
    /// Record the user as offline and end the loop.
    MarkOffline,
    /// Nothing.
    Wait,
}

/// Whether `e` ends the connection's heartbeat.
pub open spec fn ends_heartbeat(e: PresenceEvent) -> bool {
    e == PresenceEvent::PingFailed || e == PresenceEvent::Closed || e == PresenceEvent::Failed
        || e == PresenceEvent::Ended
}

/// One step of the tracker. Opening marks the user online; while online
/// each tick sends a ping, and a failed ping, a close, a failure or the end
/// of the stream marks the user offline and stops the loop. A stopped loop
/// does nothing more.
pub fn presence_step(state: Presence, event: PresenceEvent) -> (r: (Presence, PresenceAction))
    ensures
        state == Presence::Waiting ==> r == if event == PresenceEvent::Opened {
            (Presence::Online, PresenceAction::MarkOnline)
        } else if ends_heartbeat(event) {
            (Presence::Stopped, PresenceAction::Wait)
        } else {
            (Presence::Waiting, PresenceAction::Wait)
        },
        state == Presence::Online ==> r == if ends_heartbeat(event) {
            (Presence::Stopped, PresenceAction::MarkOffline)
        } else if event == PresenceEvent::Tick {
            (Presence::Online, PresenceAction::Ping)
        } else {
            (Presence::Online, PresenceAction::Wait)
        },
        state == Presence::Stopped ==> r == (Presence::Stopped, PresenceAction::Wait),
{
    let ends = match event {
        PresenceEvent::PingFailed | PresenceEvent::Closed | PresenceEvent::Failed | PresenceEvent::Ended => true,
        _ => false,
    };
    match state {
        Presence::Waiting => {
            if event == PresenceEvent::Opened {
                (Presence::Online, PresenceAction::MarkOnline)
            } else if ends {
                (Presence::Stopped, PresenceAction::Wait)
            } else {
                (Presence::Waiting, PresenceAction::Wait)
            }
        },
        Presence::Online => {
            if ends {
                (Presence::Stopped, PresenceAction::MarkOffline)
            } else if event == PresenceEvent::Tick {
                (Presence::Online, PresenceAction::Ping)
            } else {
                (Presence::Online, PresenceAction::Wait)
            }
        },
        Presence::Stopped => (Presence::Stopped, PresenceAction::Wait),
    }
}

/// The status record that an action writes for `user`, if it writes one.
pub fn status_update(user: &str, action: PresenceAction) -> (r: Option<UserOnline>)
    ensures
        match action {
            PresenceAction::MarkOnline => r is Some && r->Some_0.user_id@ == user@ && r->Some_0.online,
            PresenceAction::MarkOffline => r is Some && r->Some_0.user_id@ == user@ && !r->Some_0.online,
            _ => r is None,
        },
{
    match action {
        PresenceAction::MarkOnline => Some(UserOnline { user_id: user.to_owned(), online: true }),
        PresenceAction::MarkOffline => Some(UserOnline { user_id: user.to_owned(), online: false }),
        _ => None,
    }
}

} // verus!

//! The decisions of a connection handler: who may join a room, what to do
//! with each frame the client sends, and what a new connection finds waiting.
//!
//! The handler itself (the upgrade, the socket, the database) lives outside
//! the library; it hands the outcome of each outside step to these functions
//! and does what they return.

use vstd::prelude::*;
use crate::registry::{member, names, RoomRegistry, Subscription};

verus! {

/// The claims carried by a bearer token once its signature and expiry have
/// been checked.
pub struct Claims {
    pub exp: usize,
    pub sub: String,
}

/// Why a bearer token was refused.
#[derive(PartialEq, Eq, Structural, Clone, Copy, Debug)]
pub enum AuthError {
    Expired,
    Invalid,
}

/// Why a connection attempt was turned away before it joined its room.
#[derive(PartialEq, Eq, Structural, Clone, Copy, Debug)]
pub enum ConnectError {
    /// The token was invalid or expired.
    Unauthorized,
    /// The token's holder is not a member of the room.
    Forbidden,
    /// No channel identifier is left to give out.
    Exhausted,
}

/// A connection that joined its room: its channel, and the messages that
/// were queued for its user, oldest first, to be sent before anything the
/// channel brings.
pub struct Session {
    pub room: String,
    pub user: String,
    pub channel: u64,
    pub receiver: tokio::sync::mpsc::Receiver<String>,
    pub backlog: Vec<String>,
}

/// A text frame from a client: `{content, roomId, senderId}`.
pub struct InboundFrame {
    pub content: String,
    pub room_id: String,
    pub sender_id: String,
}

/// What a client sent.
pub enum ClientEvent {
    /// A text frame, or `None` where it did not parse as an inbound frame.
    Text(Option<InboundFrame>),
    /// A ping, pong, binary or other frame that carries no message.
    Control,
    /// A close frame.
    Close,
    /// The stream failed.
    Failure,
    /// The stream ended.
    Ended,
}

/// A message to hand to the message store.
pub struct Outgoing {
    pub room: String,
    pub sender: String,
    pub content: String,
}

/// What the handler does with a client event.
pub enum StreamAction {
    /// Persist the message, then fan the stored copy out to the room.
    Persist(Outgoing),
    /// Drop a frame that did not parse; the connection goes on.
    Drop,
    /// Refuse a frame that claims another sender; the connection goes on.
    Reject,
    /// Nothing to do.
    Ignore,
    /// Leave the room and close.
    Close,
}

/// Whether `user` is one of `members`.
pub fn is_listed(members: &Vec<String>, user: &String) -> (r: bool)
    ensures
        r == names(members@).contains(user@),
{
    let mut i: usize = 0;
    while i < members.len()
        invariant
            i <= members.len(),
            forall|j: int| 0 <= j < i ==> (#[trigger] members@[j])@ != user@,
        decreases members.len() - i,
    {
        if members[i] == *user {
            proof {
                assert(names(members@)[i as int] == user@);
            }
            return true;
        }
        i += 1;
    }
    proof {
        if names(members@).contains(user@) {
            let j = choose|j: int| 0 <= j < names(members@).len() && names(members@)[j] == user@;
            assert(members@[j]@ == user@);
        }
    }
    false
}

/// The members once each, in the order of their first appearance.
pub fn distinct_members(members: &Vec<String>) -> (r: Vec<String>)
    ensures
        names(r@).no_duplicates(),
        forall|u: Seq<char>| names(r@).contains(u) <==> names(members@).contains(u),
{
    let mut r: Vec<String> = Vec::new();
    let mut i: usize = 0;
    while i < members.len()
        invariant
            i <= members.len(),
            names(r@).no_duplicates(),
            forall|u: Seq<char>| names(r@).contains(u) <==> names(members@.subrange(0, i as int)).contains(u),
        decreases members.len() - i,
    {
        let ghost before = names(r@);
        let ghost seen = names(members@.subrange(0, i as int));
        let ghost now = names(members@.subrange(0, i + 1));
        proof {
            assert(now =~= seen.push(members@[i as int]@));
            assert forall|u: Seq<char>| now.contains(u) <==> (seen.contains(u) || u == members@[i as int]@) by {
                if now.contains(u) && u != members@[i as int]@ {
                    let q = choose|q: int| 0 <= q < now.len() && now[q] == u;
                    assert(seen[q] == u);
                }
                if seen.contains(u) {
                    let q = choose|q: int| 0 <= q < seen.len() && seen[q] == u;
                    assert(now[q] == u);
                }
                if u == members@[i as int]@ {
                    assert(now[i as int] == u);
                }
            }
        }
        let listed = is_listed(&r, &members[i]);
        if listed {
            proof {
                assert forall|u: Seq<char>| names(r@).contains(u) <==> now.contains(u) by {
                    if u == members@[i as int]@ {
                        assert(names(r@).contains(u));
                    }
                }
            }
        } else {
            r.push(members[i].clone());
            proof {
                assert(names(r@) =~= before.push(members@[i as int]@));
                assert forall|u: Seq<char>| names(r@).contains(u) <==> (before.contains(u) || u == members@[i as int]@) by {
                    if names(r@).contains(u) && u != members@[i as int]@ {
                        let q = choose|q: int| 0 <= q < names(r@).len() && names(r@)[q] == u;
                        assert(before[q] == u);
                    }
                    if before.contains(u) {
                        let q = choose|q: int| 0 <= q < before.len() && before[q] == u;
                        assert(names(r@)[q] == u);
                    }
                    if u == members@[i as int]@ {
                        assert(names(r@)[before.len() as int] == u);
                    }
                }
            }
        }
        proof {
            assert forall|u: Seq<char>| names(r@).contains(u) <==> now.contains(u) by {
                assert(before.contains(u) <==> seen.contains(u));
                assert(now.contains(u) <==> (seen.contains(u) || u == members@[i as int]@));
            }
        }
        i += 1;
    }
    proof {
        assert(members@.subrange(0, members.len() as int) =~= members@);
    }
    r
}

/// Decides whether the holder of a checked token may join a room with the
/// given members: `Ok` with the user's identifier, `Unauthorized` for a
/// refused token, `Forbidden` for a user who is not a member.
pub fn authorize(auth: &Result<Claims, AuthError>, members: &Vec<String>) -> (r: Result<String, ConnectError>)
    ensures
        match auth {
            Err(_) => r == Err::<String, ConnectError>(ConnectError::Unauthorized),
            Ok(c) => if names(members@).contains(c.sub@) {
                r is Ok && r->Ok_0@ == c.sub@
            } else {
                r == Err::<String, ConnectError>(ConnectError::Forbidden)
            },
        },
{
    match auth {
        Err(_) => Err(ConnectError::Unauthorized),
        Ok(c) => {
            if is_listed(members, &c.sub) {
                Ok(c.sub.clone())
            } else {
                Err(ConnectError::Forbidden)
            }
        },
    }
}

/// Joins a connection to `room`: checks the token's outcome and the room's
/// members, registers a channel for the user and takes the user's queued
/// messages, all in one step so that they come before any newer traffic. A
/// refused attempt leaves the registry as it was.
pub fn connect(
    reg: &mut RoomRegistry,
    room: &str,
    auth: &Result<Claims, AuthError>,
    members: &Vec<String>,
) -> (r: Result<Session, ConnectError>)
    requires
        old(reg).wf(),
    ensures
        final(reg).wf(),
        match auth {
            Err(_) => r is Err && r->Err_0 == ConnectError::Unauthorized,
            Ok(c) => if !names(members@).contains(c.sub@) {
                r is Err && r->Err_0 == ConnectError::Forbidden
            } else if !old(reg).can_register() {
                r is Err && r->Err_0 == ConnectError::Exhausted
            } else {
                r is Ok
            },
        },
        r is Err ==> *final(reg) == *old(reg),
        r is Ok ==> {
            let s = r->Ok_0;
            &&& auth is Ok && s.user@ == auth->Ok_0.sub@
            &&& s.room@ == room@
            &&& !old(reg).is_live(s.channel)
            &&& names(s.backlog@) == old(reg).pending_of(room@, s.user@)
            &&& final(reg)@ == old(reg)@.insert(
                (room@, s.user@),
                member(old(reg).channels_of(room@, s.user@).push(s.channel), Seq::empty()),
            )
        },
{
    let user = match authorize(auth, members) {
        Ok(u) => u,
        Err(e) => {
            return Err(e);
        },
    };
    let ghost pre = *reg;
    let sub: Subscription = match reg.register(room, &user) {
        Some(s) => s,
        None => {
            return Err(ConnectError::Exhausted);
        },
    };
    let ghost mid = *reg;
    let backlog = reg.drain_pending(room, &user);
    proof {
        assert(mid.channels_of(room@, user@).len() > 0);
    }
    Ok(Session { room: room.to_owned(), user, channel: sub.channel, receiver: sub.receiver, backlog })
}

/// Decides what to do with a client event on a connection of `user` in
/// `room`. A message is persisted for the connection's room under the
/// identity the connection authenticated, never under the one the frame
/// claims; a frame that claims another sender is refused.
pub fn on_client_event(room: &str, user: &str, event: ClientEvent) -> (r: StreamAction)
    ensures
        match event {
            ClientEvent::Text(None) => r is Drop,
            ClientEvent::Text(Some(f)) => if f.sender_id@ == user@ {
                r is Persist && r->Persist_0.room@ == room@ && r->Persist_0.sender@ == user@
                    && r->Persist_0.content@ == f.content@
            } else {
                r is Reject
            },
            ClientEvent::Control => r is Ignore,
            _ => r is Close,
        },
{
    match event {
        ClientEvent::Text(None) => StreamAction::Drop,
        ClientEvent::Text(Some(f)) => {
            let me = user.to_owned();
            if f.sender_id == me {
                StreamAction::Persist(Outgoing { room: room.to_owned(), sender: me, content: f.content })
            } else {
                StreamAction::Reject
            }
        },
        ClientEvent::Control => StreamAction::Ignore,
        ClientEvent::Close => StreamAction::Close,
        ClientEvent::Failure => StreamAction::Close,
        ClientEvent::Ended => StreamAction::Close,
    }
}

} // verus!

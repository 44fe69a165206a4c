//! Laws of the relay that span several registry operations.

use vstd::prelude::*;
use crate::registry::{Delivery, RoomRegistry};

verus! {

/// A message that `sender` sends while `other`, another member of the room,
/// holds live channels goes to every live channel of `other`, and to no
/// channel of the sender.
pub proof fn law_fan_out_reaches_every_other_channel(
    pre: RoomRegistry,
    post: RoomRegistry,
    room: Seq<char>,
    members: Seq<Seq<char>>,
    sender: Seq<char>,
    other: Seq<char>,
    payload: Seq<char>,
    report: Seq<Delivery>,
)
    requires
        pre.wf(),
        RoomRegistry::fanned_out(pre, post, room, members, sender, payload, report),
        members.contains(other),
        other != sender,
    ensures
        forall|c: u64| #[trigger] pre.channels_of(room, other).contains(c) ==>
            exists|j: int| 0 <= j < report.len() && #[trigger] report[j].user@ == other && report[j].channel == c,
        forall|j: int| 0 <= j < report.len() ==> !pre.channels_of(room, sender).contains(#[trigger] report[j].channel),
{
    assert forall|j: int| 0 <= j < report.len() implies !pre.channels_of(room, sender).contains(#[trigger] report[j].channel) by {
        pre.lemma_channels_disjoint(room, report[j].user@, room, sender, report[j].channel);
    }
}

/// Two connections that the same member opens in the same room both take
/// part in the next fan-out from another member.
pub proof fn law_every_connection_of_a_member_is_reached(
    r0: RoomRegistry,
    r1: RoomRegistry,
    r2: RoomRegistry,
    r3: RoomRegistry,
    room: Seq<char>,
    user: Seq<char>,
    first: u64,
    second: u64,
    members: Seq<Seq<char>>,
    sender: Seq<char>,
    payload: Seq<char>,
    report: Seq<Delivery>,
)
    requires
        RoomRegistry::registered(r0, r1, room, user, first),
        RoomRegistry::registered(r1, r2, room, user, second),
        RoomRegistry::fanned_out(r2, r3, room, members, sender, payload, report),
        members.contains(user),
        user != sender,
    ensures
        first != second,
        exists|j: int| 0 <= j < report.len() && #[trigger] report[j].user@ == user && report[j].channel == first,
        exists|j: int| 0 <= j < report.len() && #[trigger] report[j].user@ == user && report[j].channel == second,
{
    let c1 = r1.channels_of(room, user);
    assert(c1.last() == first);
    assert(r1@.contains_key((room, user)) && r1@[(room, user)].channels.contains(first));
    let c2 = r2.channels_of(room, user);
    assert(c2 == c1.push(second));
    assert(c2[c1.len() - 1] == first);
    assert(c2.contains(first));
    assert(c2[c1.len() as int] == second);
    assert(c2.contains(second));
}

proof fn lemma_queue_grows(
    states: Seq<RoomRegistry>,
    room: Seq<char>,
    user: Seq<char>,
    members: Seq<Seq<Seq<char>>>,
    senders: Seq<Seq<char>>,
    payloads: Seq<Seq<char>>,
    reports: Seq<Seq<Delivery>>,
    k: int,
)
    requires
        states.len() == payloads.len() + 1,
        members.len() == payloads.len(),
        senders.len() == payloads.len(),
        reports.len() == payloads.len(),
        states[0].channels_of(room, user).len() == 0,
        forall|i: int| 0 <= i < payloads.len() ==> {
            &&& RoomRegistry::fanned_out(states[i], #[trigger] states[i + 1], room, members[i], senders[i], payloads[i], reports[i])
            &&& members[i].contains(user)
            &&& senders[i] != user
        },
        0 <= k <= payloads.len(),
    ensures
        states[k].channels_of(room, user).len() == 0,
        states[k].pending_of(room, user) == states[0].pending_of(room, user) + payloads.subrange(0, k),
    decreases k,
{
    if k == 0 {
        assert(states[0].pending_of(room, user) + payloads.subrange(0, 0) =~= states[0].pending_of(room, user));
    } else {
        lemma_queue_grows(states, room, user, members, senders, payloads, reports, k - 1);
        let i = k - 1;
        let pre = states[i];
        let post = states[i + 1];
        assert(RoomRegistry::fanned_out(pre, post, room, members[i], senders[i], payloads[i], reports[i]));
        assert(post.channels_of(room, user) == pre.channels_of(room, user));
        assert(!RoomRegistry::reached(reports[i], user)) by {
            if RoomRegistry::reached(reports[i], user) {
                let j = choose|j: int| 0 <= j < reports[i].len() && #[trigger] reports[i][j].user@ == user && reports[i][j].delivered;
                assert(pre.channels_of(room, reports[i][j].user@).contains(reports[i][j].channel));
            }
        }
        assert(post.pending_of(room, user) == pre.pending_of(room, user).push(payloads[i]));
        assert(payloads.subrange(0, k) =~= payloads.subrange(0, i).push(payloads[i]));
        assert(states[0].pending_of(room, user) + payloads.subrange(0, k)
            =~= (states[0].pending_of(room, user) + payloads.subrange(0, i)).push(payloads[i]));
    }
}

/// Messages that reach a room while a member holds no live channel there
/// are queued for that member, and when the member connects again, draining
/// the queue yields them in the order they were sent, each exactly once.
pub proof fn law_queued_messages_drain_in_order(
    states: Seq<RoomRegistry>,
    room: Seq<char>,
    user: Seq<char>,
    members: Seq<Seq<Seq<char>>>,
    senders: Seq<Seq<char>>,
    payloads: Seq<Seq<char>>,
    reports: Seq<Seq<Delivery>>,
    joined: RoomRegistry,
    channel: u64,
    left: RoomRegistry,
    drained: Seq<Seq<char>>,
)
    requires
        states.len() == payloads.len() + 1,
        members.len() == payloads.len(),
        senders.len() == payloads.len(),
        reports.len() == payloads.len(),
        states[0].channels_of(room, user).len() == 0,
        forall|i: int| 0 <= i < payloads.len() ==> {
            &&& RoomRegistry::fanned_out(states[i], #[trigger] states[i + 1], room, members[i], senders[i], payloads[i], reports[i])
            &&& members[i].contains(user)
            &&& senders[i] != user
        },
        RoomRegistry::registered(states[payloads.len() as int], joined, room, user, channel),
        RoomRegistry::drained(joined, left, room, user),
        drained == joined.pending_of(room, user),
    ensures
        drained == states[0].pending_of(room, user) + payloads,
        left.pending_of(room, user).len() == 0,
{
    let n = payloads.len() as int;
    lemma_queue_grows(states, room, user, members, senders, payloads, reports, n);
    assert(payloads.subrange(0, n) =~= payloads);
}

} // verus!

//! The room registry: for every room, the live channels of each member and the
//! messages queued for members who have none.
//!
//! Rooms and members are kept as slots, one per (room, member) pair that holds
//! at least one live channel or at least one queued message. A room is present
//! exactly while one of its slots is.

use vstd::prelude::*;
use crate::channel::{open_channel, try_send_text, CHANNEL_CAPACITY};

verus! {

/// What the registry holds for one member of one room: the identifiers of
/// the member's live channels, and the member's queue of undelivered
/// messages, oldest first.
pub struct MemberState {
    pub channels: Seq<u64>,
    pub pending: Seq<Seq<char>>,
}

/// The sending half of one connection's channel, with the identifier the
/// registry gave it.
struct Channel {
    id: u64,
    tx: tokio::sync::mpsc::Sender<String>,
}

/// The live channels and the queued messages of one member of one room.
struct Slot {
    room: String,
    user: String,
    channels: Vec<Channel>,
    pending: Vec<String>,
}

/// What a new connection takes away from `register`: the identifier of its
/// channel, and the receiving half on which payloads for it arrive.
pub struct Subscription {
    pub channel: u64,
    pub receiver: tokio::sync::mpsc::Receiver<String>,
}

/// One attempt to hand a payload to one live channel of a member.
pub struct Delivery {
    pub user: String,
    pub channel: u64,
    pub delivered: bool,
}

/// The process-wide map from room to room state.
pub struct RoomRegistry {
    slots: Vec<Slot>,
    next_id: u64,
    state: Ghost<Map<(Seq<char>, Seq<char>), MemberState>>,
}

spec fn slot_key(s: Slot) -> (Seq<char>, Seq<char>) {
    (s.room@, s.user@)
}

spec fn ids(cs: Seq<Channel>) -> Seq<u64> {
    cs.map_values(|c: Channel| c.id)
}

spec fn texts(ps: Seq<String>) -> Seq<Seq<char>> {
    ps.map_values(|p: String| p@)
}

spec fn slot_state(s: Slot) -> MemberState {
    MemberState { channels: ids(s.channels@), pending: texts(s.pending@) }
}

/// The texts of a sequence of strings.
pub open spec fn names(v: Seq<String>) -> Seq<Seq<char>> {
    v.map_values(|m: String| m@)
}

/// Keeps every channel identifier but `id`.
pub open spec fn other_than(id: u64) -> spec_fn(u64) -> bool {
    |c: u64| c != id
}

/// The member state of a slot with `channels` and `pending` left as given.
pub open spec fn member(channels: Seq<u64>, pending: Seq<Seq<char>>) -> MemberState {
    MemberState { channels, pending }
}

/// Each slot is recorded in `state` under its key, each key of `state` has a
/// slot, and no two slots share a key.
spec fn slots_match(slots: Seq<Slot>, state: Map<(Seq<char>, Seq<char>), MemberState>) -> bool {
    &&& forall|i: int| #![trigger slots[i]] 0 <= i < slots.len() ==> {
        &&& state.contains_key(slot_key(slots[i]))
        &&& state[slot_key(slots[i])] == slot_state(slots[i])
    }
    &&& forall|k: (Seq<char>, Seq<char>)| #[trigger] state.contains_key(k) ==>
        exists|i: int| 0 <= i < slots.len() && slot_key(slots[i]) == k
    &&& forall|i: int, j: int| 0 <= i < j < slots.len() ==>
        slot_key(#[trigger] slots[i]) != slot_key(#[trigger] slots[j])
}

/// Every recorded member has a live channel or a queued message, and its
/// channel identifiers are distinct and below `next_id`.
spec fn states_ok(state: Map<(Seq<char>, Seq<char>), MemberState>, next_id: u64) -> bool {
    forall|k: (Seq<char>, Seq<char>)| #[trigger] state.contains_key(k) ==> {
        &&& state[k].channels.len() > 0 || state[k].pending.len() > 0
        &&& state[k].channels.no_duplicates()
        &&& forall|p: int| 0 <= p < state[k].channels.len() ==>
            #[trigger] state[k].channels[p] < next_id
    }
}

/// No channel identifier is live for two members.
spec fn ids_disjoint(state: Map<(Seq<char>, Seq<char>), MemberState>) -> bool {
    forall|k1: (Seq<char>, Seq<char>), k2: (Seq<char>, Seq<char>), c: u64|
        state.contains_key(k1) && state.contains_key(k2) && k1 != k2
            && #[trigger] state[k1].channels.contains(c) ==> !#[trigger] state[k2].channels.contains(c)
}

proof fn lemma_disjoint_insert(
    state: Map<(Seq<char>, Seq<char>), MemberState>,
    key: (Seq<char>, Seq<char>),
    ms: MemberState,
)
    requires
        ids_disjoint(state),
        forall|c: u64| #[trigger] ms.channels.contains(c) ==> {
            ||| state.contains_key(key) && state[key].channels.contains(c)
            ||| forall|k: (Seq<char>, Seq<char>)| state.contains_key(k) ==> !#[trigger] state[k].channels.contains(c)
        },
    ensures
        ids_disjoint(state.insert(key, ms)),
{
    let st = state.insert(key, ms);
    assert forall|k1: (Seq<char>, Seq<char>), k2: (Seq<char>, Seq<char>), c: u64|
        st.contains_key(k1) && st.contains_key(k2) && k1 != k2
            && #[trigger] st[k1].channels.contains(c) implies !#[trigger] st[k2].channels.contains(c) by {
        if k1 == key {
            assert(state.contains_key(k2));
        } else if k2 == key {
            if st[k2].channels.contains(c) {
                assert(state.contains_key(k1) && state[k1].channels.contains(c));
            }
        } else {
            assert(state.contains_key(k1) && state.contains_key(k2));
        }
    }
}

proof fn lemma_match_update(
    slots: Seq<Slot>,
    state: Map<(Seq<char>, Seq<char>), MemberState>,
    i: int,
    s: Slot,
)
    requires
        slots_match(slots, state),
        0 <= i < slots.len(),
        slot_key(s) == slot_key(slots[i]),
    ensures
        slots_match(slots.update(i, s), state.insert(slot_key(s), slot_state(s))),
{
    let ns = slots.update(i, s);
    let nm = state.insert(slot_key(s), slot_state(s));
    assert forall|k: (Seq<char>, Seq<char>)| #[trigger] nm.contains_key(k) implies
        exists|j: int| 0 <= j < ns.len() && slot_key(ns[j]) == k by {
        if k == slot_key(s) {
            assert(slot_key(ns[i]) == k);
        } else {
            let j = choose|j: int| 0 <= j < slots.len() && slot_key(slots[j]) == k;
            assert(slot_key(ns[j]) == k);
        }
    }
}

proof fn lemma_match_push(
    slots: Seq<Slot>,
    state: Map<(Seq<char>, Seq<char>), MemberState>,
    s: Slot,
)
    requires
        slots_match(slots, state),
        !state.contains_key(slot_key(s)),
    ensures
        slots_match(slots.push(s), state.insert(slot_key(s), slot_state(s))),
{
    let ns = slots.push(s);
    let nm = state.insert(slot_key(s), slot_state(s));
    assert forall|k: (Seq<char>, Seq<char>)| #[trigger] nm.contains_key(k) implies
        exists|j: int| 0 <= j < ns.len() && slot_key(ns[j]) == k by {
        if k == slot_key(s) {
            assert(slot_key(ns[slots.len() as int]) == k);
        } else {
            let j = choose|j: int| 0 <= j < slots.len() && slot_key(slots[j]) == k;
            assert(slot_key(ns[j]) == k);
        }
    }
    assert forall|i: int, j: int| 0 <= i < j < ns.len() implies
        slot_key(#[trigger] ns[i]) != slot_key(#[trigger] ns[j]) by {
        if j == slots.len() {
            assert(state.contains_key(slot_key(slots[i])));
        }
    }
}

proof fn lemma_match_remove(
    slots: Seq<Slot>,
    state: Map<(Seq<char>, Seq<char>), MemberState>,
    i: int,
)
    requires
        slots_match(slots, state),
        0 <= i < slots.len(),
    ensures
        slots_match(slots.remove(i), state.remove(slot_key(slots[i]))),
{
    let ns = slots.remove(i);
    let nm = state.remove(slot_key(slots[i]));
    assert forall|j: int| #![trigger ns[j]] 0 <= j < ns.len() implies {
        &&& nm.contains_key(slot_key(ns[j]))
        &&& nm[slot_key(ns[j])] == slot_state(ns[j])
    } by {
        if j < i {
            assert(ns[j] == slots[j]);
        } else {
            assert(ns[j] == slots[j + 1]);
        }
    }
    assert forall|k: (Seq<char>, Seq<char>)| #[trigger] nm.contains_key(k) implies
        exists|j: int| 0 <= j < ns.len() && slot_key(ns[j]) == k by {
        let j = choose|j: int| 0 <= j < slots.len() && slot_key(slots[j]) == k;
        if j < i {
            assert(slot_key(ns[j]) == k);
        } else {
            assert(slot_key(ns[j - 1]) == k);
        }
    }
    assert forall|a: int, b: int| 0 <= a < b < ns.len() implies
        slot_key(#[trigger] ns[a]) != slot_key(#[trigger] ns[b]) by {
        let oa = if a < i { a } else { a + 1 };
        let ob = if b < i { b } else { b + 1 };
        assert(ns[a] == slots[oa]);
        assert(ns[b] == slots[ob]);
    }
}

impl View for RoomRegistry {
    type V = Map<(Seq<char>, Seq<char>), MemberState>;

    closed spec fn view(&self) -> Self::V {
        self.state@
    }
}

impl RoomRegistry {
    /// The live channels of `user` in `room`, in the order they registered.
    pub open spec fn channels_of(&self, room: Seq<char>, user: Seq<char>) -> Seq<u64> {
        if self@.contains_key((room, user)) {
            self@[(room, user)].channels
        } else {
            Seq::empty()
        }
    }

    /// The messages queued for `user` in `room`, oldest first.
    pub open spec fn pending_of(&self, room: Seq<char>, user: Seq<char>) -> Seq<Seq<char>> {
        if self@.contains_key((room, user)) {
            self@[(room, user)].pending
        } else {
            Seq::empty()
        }
    }

    /// Whether the registry holds an entry for `room`.
    pub open spec fn has_room(&self, room: Seq<char>) -> bool {
        exists|u: Seq<char>| #[trigger] self@.contains_key((room, u))
    }

    /// Whether `id` is the identifier of some live channel.
    pub open spec fn is_live(&self, id: u64) -> bool {
        exists|k: (Seq<char>, Seq<char>)| #[trigger] self@.contains_key(k) && self@[k].channels.contains(id)
    }

    /// Whether fresh channel identifiers are left.
    pub closed spec fn can_register(&self) -> bool {
        self.next_id < u64::MAX
    }

    /// The slots agree with the abstract state, and the abstract state holds
    /// only members with a live channel or a queued message, with distinct
    /// channel identifiers that were given out before.
    pub closed spec fn wf(&self) -> bool {
        &&& slots_match(self.slots@, self.state@)
        &&& states_ok(self.state@, self.next_id)
        &&& ids_disjoint(self.state@)
    }

    /// An empty registry.
    pub fn new() -> (r: Self)
        ensures
            r.wf(),
            r@ == Map::<(Seq<char>, Seq<char>), MemberState>::empty(),
            r.can_register(),
    {
        RoomRegistry { slots: Vec::new(), next_id: 0, state: Ghost(Map::empty()) }
    }

    /// `post` is `pre` with the fresh channel `id` added to the live
    /// channels of `user` in `room`.
    pub open spec fn registered(pre: Self, post: Self, room: Seq<char>, user: Seq<char>, id: u64) -> bool {
        &&& !pre.is_live(id)
        &&& post@ == pre@.insert((room, user), member(pre.channels_of(room, user).push(id), pre.pending_of(room, user)))
    }

    /// Opens a new channel for `user` in `room`, creating the room's entry if
    /// it is absent. Fails only when channel identifiers are exhausted.
    pub fn register(&mut self, room: &str, user: &str) -> (r: Option<Subscription>)
        requires
            old(self).wf(),
        ensures
            final(self).wf(),
            r.is_some() == old(self).can_register(),
            match r {
                Some(sub) => Self::registered(*old(self), *final(self), room@, user@, sub.channel),
                None => *final(self) == *old(self),
            },
    {
        if self.next_id == u64::MAX {
            return None;
        }
        let id = self.next_id;
        let (tx, rx) = open_channel(CHANNEL_CAPACITY);
        let room_s = room.to_owned();
        let user_s = user.to_owned();
        let ghost key = (room@, user@);
        let ghost pre = *self;
        let ghost ms = member(pre.channels_of(room@, user@).push(id), pre.pending_of(room@, user@));
        proof {
            assert forall|k: (Seq<char>, Seq<char>)| #[trigger] pre@.contains_key(k) implies !pre@[k].channels.contains(id) by {
                if pre@[k].channels.contains(id) {
                    let p = choose|p: int| 0 <= p < pre@[k].channels.len() && pre@[k].channels[p] == id;
                    assert(pre@[k].channels[p] < id);
                }
            }
        }
        let ch = Channel { id, tx };
        match self.find(&room_s, &user_s) {
            Some(i) => {
                let mut slot = self.slots.remove(i);
                proof {
                    assert(slot == pre.slots@[i as int]);
                    assert(pre.state@.contains_key(key));
                }
                slot.channels.push(ch);
                proof {
                    assert(ids(slot.channels@) =~= ids(pre.slots@[i as int].channels@).push(id));
                    assert(slot_state(slot) == ms);
                }
                self.slots.insert(i, slot);
                proof {
                    assert(self.slots@ =~= pre.slots@.update(i as int, slot));
                    lemma_match_update(pre.slots@, pre.state@, i as int, slot);
                }
            }
            None => {
                let mut channels: Vec<Channel> = Vec::new();
                channels.push(ch);
                let slot = Slot { room: room_s, user: user_s, channels, pending: Vec::new() };
                proof {
                    assert(ids(slot.channels@) =~= seq![id]);
                    assert(texts(slot.pending@) =~= Seq::<Seq<char>>::empty());
                    assert(slot_state(slot) == ms);
                    lemma_match_push(pre.slots@, pre.state@, slot);
                }
                self.slots.push(slot);
            }
        }
        self.next_id = id + 1;
        self.state = Ghost(pre.state@.insert(key, ms));
        proof {
            assert forall|c: u64| #[trigger] ms.channels.contains(c) implies {
                ||| pre.state@.contains_key(key) && pre.state@[key].channels.contains(c)
                ||| forall|k: (Seq<char>, Seq<char>)| pre.state@.contains_key(k) ==> !#[trigger] pre.state@[k].channels.contains(c)
            } by {
                let q = choose|q: int| 0 <= q < ms.channels.len() && ms.channels[q] == c;
                if q < ms.channels.len() - 1 {
                    assert(pre.state@.contains_key(key));
                    assert(pre.state@[key].channels[q] == c);
                }
            }
            lemma_disjoint_insert(pre.state@, key, ms);
            let st = self.state@;
            assert forall|k: (Seq<char>, Seq<char>)| #[trigger] st.contains_key(k) implies {
                &&& st[k].channels.len() > 0 || st[k].pending.len() > 0
                &&& st[k].channels.no_duplicates()
                &&& forall|p: int| 0 <= p < st[k].channels.len() ==> #[trigger] st[k].channels[p] < self.next_id
            } by {
                if k != key {
                    assert(pre.state@.contains_key(k));
                } else {
                    let old_ch = pre.channels_of(room@, user@);
                    if pre.state@.contains_key(key) {
                        assert(!old_ch.contains(id));
                    }
                    assert forall|a: int, b: int| 0 <= a < b < ms.channels.len() implies ms.channels[a] != ms.channels[b] by {
                        if b == old_ch.len() {
                            assert(old_ch[a] < id);
                        }
                    }
                }
            }
        }
        Some(Subscription { channel: id, receiver: rx })
    }

    /// `post` is `pre` without the channel `id` of `user` in `room`; a member
    /// left with no channel and no queued message is dropped.
    pub open spec fn unregistered(pre: Self, post: Self, room: Seq<char>, user: Seq<char>, id: u64) -> bool {
        let rest = pre.channels_of(room, user).filter(other_than(id));
        post@ == if rest.len() == 0 && pre.pending_of(room, user).len() == 0 {
            pre@.remove((room, user))
        } else {
            pre@.insert((room, user), member(rest, pre.pending_of(room, user)))
        }
    }

    /// Closes the channel `id` of `user` in `room`. The member's entry goes
    /// when it has no live channel and no queued message left, and the room's
    /// entry goes with its last member.
    pub fn unregister(&mut self, room: &str, user: &str, id: u64)
        requires
            old(self).wf(),
        ensures
            final(self).wf(),
            Self::unregistered(*old(self), *final(self), room@, user@, id),
            final(self).can_register() == old(self).can_register(),
    {
        let room_s = room.to_owned();
        let user_s = user.to_owned();
        let ghost key = (room@, user@);
        let ghost pre = *self;
        let ghost pred = other_than(id);
        assert(forall|x: u64| #[trigger] pred(x) == (x != id));
        let i = match self.find(&room_s, &user_s) {
            Some(i) => i,
            None => {
                proof {
                    reveal(Seq::filter);
                    assert(pre@.remove(key) =~= pre@);
                }
                return;
            }
        };
        let slot = self.slots.remove(i);
        proof {
            assert(slot == pre.slots@[i as int]);
            assert(pre.state@.contains_key(key));
        }
        let Slot { room: sroom, user: suser, channels, pending } = slot;
        let ghost orig = ids(channels@);
        let ghost n = channels.len();
        let mut rest = channels;
        let mut kept: Vec<Channel> = Vec::new();
        while rest.len() > 0
            invariant
                forall|x: u64| #[trigger] pred(x) == (x != id),
                n == orig.len(),
                pre.state@.contains_key(key),
                orig == pre.state@[key].channels,
                orig.no_duplicates(),
                forall|p: int| 0 <= p < n ==> #[trigger] orig[p] < pre.next_id,
                rest.len() <= n,
                ids(rest@) == orig.subrange(n - rest.len(), n as int),
                ids(kept@) == orig.subrange(0, n - rest.len()).filter(pred),
                ids(kept@).no_duplicates(),
                forall|q: int| 0 <= q < kept.len() ==>
                    orig.subrange(0, n - rest.len()).contains(#[trigger] ids(kept@)[q]),
            decreases rest.len(),
        {
            let ghost k = n - rest.len();
            let ghost before = ids(kept@);
            let ghost old_rest = rest@;
            let c = rest.remove(0);
            proof {
                assert(ids(old_rest)[0] == orig.subrange(k, n as int)[0]);
                assert(c.id == orig[k]);
                assert forall|j: int| 0 <= j < rest.len() implies #[trigger] ids(rest@)[j] == orig.subrange(k + 1, n as int)[j] by {
                    assert(rest@[j] == old_rest[j + 1]);
                    assert(ids(old_rest)[j + 1] == orig.subrange(k, n as int)[j + 1]);
                }
                assert(ids(rest@) =~= orig.subrange(k + 1, n as int));
                reveal(Seq::filter);
                assert(orig.subrange(0, k + 1).drop_last() =~= orig.subrange(0, k));
                assert(orig.subrange(0, k + 1).last() == orig[k]);
                assert(orig.subrange(0, k + 1).filter(pred) == if pred(orig[k]) {
                    orig.subrange(0, k).filter(pred).push(orig[k])
                } else {
                    orig.subrange(0, k).filter(pred)
                });
            }
            if c.id != id {
                kept.push(c);
                proof {
                    assert(ids(kept@) =~= before.push(orig[k]));
                    assert(pred(orig[k]));
                    assert(ids(kept@) == orig.subrange(0, k + 1).filter(pred));
                    assert forall|a: int, b: int| 0 <= a < b < ids(kept@).len() implies ids(kept@)[a] != ids(kept@)[b] by {
                        if b == before.len() {
                            assert(orig.subrange(0, k).contains(before[a]));
                            let j = choose|j: int| 0 <= j < k && orig.subrange(0, k)[j] == before[a];
                            assert(orig[j] == before[a]);
                        }
                    }
                    assert forall|q: int| 0 <= q < kept.len() implies
                        orig.subrange(0, k + 1).contains(#[trigger] ids(kept@)[q]) by {
                        if q == before.len() {
                            assert(orig.subrange(0, k + 1)[k] == orig[k]);
                        } else {
                            assert(orig.subrange(0, k).contains(before[q]));
                            let j = choose|j: int| 0 <= j < k && orig.subrange(0, k)[j] == before[q];
                            assert(orig.subrange(0, k + 1)[j] == before[q]);
                        }
                    }
                }
            } else {
                proof {
                    assert(!pred(orig[k]));
                    assert(ids(kept@) == orig.subrange(0, k + 1).filter(pred));
                    assert forall|q: int| 0 <= q < kept.len() implies
                        orig.subrange(0, k + 1).contains(#[trigger] ids(kept@)[q]) by {
                        assert(orig.subrange(0, k).contains(before[q]));
                        let j = choose|j: int| 0 <= j < k && orig.subrange(0, k)[j] == before[q];
                        assert(orig.subrange(0, k + 1)[j] == before[q]);
                    }
                }
            }
        }
        proof {
            assert(orig.subrange(0, n as int) =~= orig);
        }
        let ghost restm = orig.filter(pred);
        if kept.len() == 0 && pending.len() == 0 {
            proof {
                assert(texts(pending@) =~= Seq::<Seq<char>>::empty());
                lemma_match_remove(pre.slots@, pre.state@, i as int);
            }
            self.state = Ghost(pre.state@.remove(key));
        } else {
            let slot = Slot { room: sroom, user: suser, channels: kept, pending };
            let ghost ms = member(restm, pre.pending_of(room@, user@));
            proof {
                assert(slot_state(slot) == ms);
            }
            self.slots.insert(i, slot);
            proof {
                assert(self.slots@ =~= pre.slots@.update(i as int, slot));
                lemma_match_update(pre.slots@, pre.state@, i as int, slot);
            }
            self.state = Ghost(pre.state@.insert(key, ms));
            proof {
                let st = self.state@;
                assert forall|k: (Seq<char>, Seq<char>)| #[trigger] st.contains_key(k) implies {
                    &&& st[k].channels.len() > 0 || st[k].pending.len() > 0
                    &&& st[k].channels.no_duplicates()
                    &&& forall|p: int| 0 <= p < st[k].channels.len() ==> #[trigger] st[k].channels[p] < self.next_id
                } by {
                    if k != key {
                        assert(pre.state@.contains_key(k));
                    } else {
                        assert forall|p: int| 0 <= p < restm.len() implies #[trigger] restm[p] < self.next_id by {
                            assert(orig.contains(restm[p]));
                        }
                    }
                }
            }
        }
    }

    /// `post` is `pre` with `payload` appended to the queue of `user` in
    /// `room`, unless `reached` says that a live channel took it.
    pub open spec fn queued_unless(
        pre: Self,
        post: Self,
        room: Seq<char>,
        user: Seq<char>,
        payload: Seq<char>,
        reached: bool,
    ) -> bool {
        post@ == if reached {
            pre@
        } else {
            pre@.insert((room, user), member(pre.channels_of(room, user), pre.pending_of(room, user).push(payload)))
        }
    }

    /// Whether some attempt of `report` handed its payload to a channel of `user`.
    pub open spec fn reached(report: Seq<Delivery>, user: Seq<char>) -> bool {
        exists|j: int| 0 <= j < report.len() && #[trigger] report[j].user@ == user && report[j].delivered
    }

    /// Sends `payload` to every live channel of `recipient` in `room`, in the
    /// order the channels registered, and reports each attempt. When the
    /// recipient has no live channel, or no channel took the payload (each
    /// was full or closed), the payload is queued for the recipient instead.
    pub fn deliver_or_queue(&mut self, room: &str, recipient: &str, payload: &String) -> (r: Vec<Delivery>)
        requires
            old(self).wf(),
        ensures
            final(self).wf(),
            final(self).can_register() == old(self).can_register(),
            r@.len() == old(self).channels_of(room@, recipient@).len(),
            forall|j: int| 0 <= j < r@.len() ==> {
                &&& (#[trigger] r@[j]).user@ == recipient@
                &&& r@[j].channel == old(self).channels_of(room@, recipient@)[j]
            },
            Self::queued_unless(*old(self), *final(self), room@, recipient@, payload@, Self::reached(r@, recipient@)),
    {
        let room_s = room.to_owned();
        let user_s = recipient.to_owned();
        let ghost key = (room@, recipient@);
        let ghost pre = *self;
        let ghost ms = member(pre.channels_of(room@, recipient@), pre.pending_of(room@, recipient@).push(payload@));
        let mut report: Vec<Delivery> = Vec::new();
        match self.find(&room_s, &user_s) {
            None => {
                let mut pending: Vec<String> = Vec::new();
                pending.push(payload.clone());
                let slot = Slot { room: room_s, user: user_s, channels: Vec::new(), pending };
                proof {
                    assert(ids(slot.channels@) =~= Seq::<u64>::empty());
                    assert(texts(slot.pending@) =~= seq![payload@]);
                    assert(slot_state(slot) == ms);
                    lemma_match_push(pre.slots@, pre.state@, slot);
                }
                self.slots.push(slot);
                self.state = Ghost(pre.state@.insert(key, ms));
                proof {
                    let st = self.state@;
                    assert forall|k: (Seq<char>, Seq<char>)| #[trigger] st.contains_key(k) implies {
                        &&& st[k].channels.len() > 0 || st[k].pending.len() > 0
                        &&& st[k].channels.no_duplicates()
                        &&& forall|p: int| 0 <= p < st[k].channels.len() ==> #[trigger] st[k].channels[p] < self.next_id
                    } by {
                        if k != key {
                            assert(pre.state@.contains_key(k));
                        }
                    }
                }
                report
            }
            Some(i) => {
                proof {
                    assert(pre.state@.contains_key(key));
                }
                let mut any = false;
                let mut p: usize = 0;
                while p < self.slots[i].channels.len()
                    invariant
                        *self == pre,
                        user_s@ == recipient@,
                        i < self.slots.len(),
                        slot_key(self.slots@[i as int]) == key,
                        p <= self.slots[i as int].channels.len(),
                        report.len() == p,
                        forall|j: int| 0 <= j < p ==> {
                            &&& (#[trigger] report@[j]).user@ == recipient@
                            &&& report@[j].channel == ids(self.slots@[i as int].channels@)[j]
                        },
                        any == Self::reached(report@, recipient@),
                    decreases self.slots[i as int].channels.len() - p,
                {
                    let delivered = try_send_text(&self.slots[i].channels[p].tx, payload.clone());
                    let ghost before = report@;
                    report.push(Delivery { user: user_s.clone(), channel: self.slots[i].channels[p].id, delivered });
                    proof {
                        if delivered {
                            assert(report@[p as int].user@ == recipient@ && report@[p as int].delivered);
                        } else if Self::reached(report@, recipient@) {
                            let j = choose|j: int| 0 <= j < report.len() && #[trigger] report@[j].user@ == recipient@ && report@[j].delivered;
                            assert(before[j] == report@[j]);
                        }
                        if any {
                            let j = choose|j: int| 0 <= j < before.len() && #[trigger] before[j].user@ == recipient@ && before[j].delivered;
                            assert(report@[j] == before[j]);
                        }
                    }
                    any = any || delivered;
                    p += 1;
                }
                if !any {
                    let mut slot = self.slots.remove(i);
                    proof {
                        assert(slot == pre.slots@[i as int]);
                    }
                    slot.pending.push(payload.clone());
                    proof {
                        assert(texts(slot.pending@) =~= texts(pre.slots@[i as int].pending@).push(payload@));
                        assert(slot_state(slot) == ms);
                    }
                    self.slots.insert(i, slot);
                    proof {
                        assert(self.slots@ =~= pre.slots@.update(i as int, slot));
                        lemma_match_update(pre.slots@, pre.state@, i as int, slot);
                    }
                    self.state = Ghost(pre.state@.insert(key, ms));
                    proof {
                        let st = self.state@;
                        assert forall|k: (Seq<char>, Seq<char>)| #[trigger] st.contains_key(k) implies {
                            &&& st[k].channels.len() > 0 || st[k].pending.len() > 0
                            &&& st[k].channels.no_duplicates()
                            &&& forall|p: int| 0 <= p < st[k].channels.len() ==> #[trigger] st[k].channels[p] < self.next_id
                        } by {
                            assert(pre.state@.contains_key(k));
                        }
                    }
                }
                report
            }
        }
    }

    /// `post` is `pre` with the queue of `user` in `room` emptied; a member
    /// left with no live channel is dropped.
    pub open spec fn drained(pre: Self, post: Self, room: Seq<char>, user: Seq<char>) -> bool {
        post@ == if pre.channels_of(room, user).len() > 0 {
            pre@.insert((room, user), member(pre.channels_of(room, user), Seq::empty()))
        } else {
            pre@.remove((room, user))
        }
    }

    /// Removes and returns the whole queue of `user` in `room`, oldest first.
    pub fn drain_pending(&mut self, room: &str, user: &str) -> (r: Vec<String>)
        requires
            old(self).wf(),
        ensures
            final(self).wf(),
            final(self).can_register() == old(self).can_register(),
            names(r@) == old(self).pending_of(room@, user@),
            Self::drained(*old(self), *final(self), room@, user@),
    {
        let room_s = room.to_owned();
        let user_s = user.to_owned();
        let ghost key = (room@, user@);
        let ghost pre = *self;
        match self.find(&room_s, &user_s) {
            None => {
                proof {
                    assert(pre@.remove(key) =~= pre@);
                }
                let r: Vec<String> = Vec::new();
                proof {
                    assert(names(r@) =~= Seq::<Seq<char>>::empty());
                }
                r
            }
            Some(i) => {
                let slot = self.slots.remove(i);
                proof {
                    assert(slot == pre.slots@[i as int]);
                    assert(pre.state@.contains_key(key));
                }
                let Slot { room: sroom, user: suser, channels, pending } = slot;
                proof {
                    assert(names(pending@) =~= texts(pending@));
                }
                if channels.len() > 0 {
                    let ghost ms = member(pre.channels_of(room@, user@), Seq::empty());
                    let slot = Slot { room: sroom, user: suser, channels, pending: Vec::new() };
                    proof {
                        assert(texts(slot.pending@) =~= Seq::<Seq<char>>::empty());
                        assert(slot_state(slot) == ms);
                    }
                    self.slots.insert(i, slot);
                    proof {
                        assert(self.slots@ =~= pre.slots@.update(i as int, slot));
                        lemma_match_update(pre.slots@, pre.state@, i as int, slot);
                    }
                    self.state = Ghost(pre.state@.insert(key, ms));
                    proof {
                        let st = self.state@;
                        assert forall|k: (Seq<char>, Seq<char>)| #[trigger] st.contains_key(k) implies {
                            &&& st[k].channels.len() > 0 || st[k].pending.len() > 0
                            &&& st[k].channels.no_duplicates()
                            &&& forall|p: int| 0 <= p < st[k].channels.len() ==> #[trigger] st[k].channels[p] < self.next_id
                        } by {
                            assert(pre.state@.contains_key(k));
                        }
                    }
                } else {
                    proof {
                        lemma_match_remove(pre.slots@, pre.state@, i as int);
                    }
                    self.state = Ghost(pre.state@.remove(key));
                }
                pending
            }
        }
    }

    /// Whether the registry holds an entry for `room`.
    pub fn contains_room(&self, room: &str) -> (r: bool)
        requires
            self.wf(),
        ensures
            r == self.has_room(room@),
    {
        let room_s = room.to_owned();
        let mut i: usize = 0;
        while i < self.slots.len()
            invariant
                self.wf(),
                room_s@ == room@,
                i <= self.slots.len(),
                forall|j: int| 0 <= j < i ==> (#[trigger] self.slots@[j]).room@ != room@,
            decreases self.slots.len() - i,
        {
            if self.slots[i].room == room_s {
                proof {
                    assert(self@.contains_key((room@, self.slots@[i as int].user@)));
                }
                return true;
            }
            i += 1;
        }
        proof {
            assert forall|u: Seq<char>| !#[trigger] self@.contains_key((room@, u)) by {
                if self@.contains_key((room@, u)) {
                    let j = choose|j: int| 0 <= j < self.slots.len() && slot_key(self.slots@[j]) == (room@, u);
                    assert(self.slots@[j].room@ == room@);
                }
            }
        }
        false
    }

    /// The live channels of a member are distinct.
    pub proof fn lemma_channels_distinct(&self, room: Seq<char>, user: Seq<char>)
        requires
            self.wf(),
        ensures
            self.channels_of(room, user).no_duplicates(),
    {
        if self@.contains_key((room, user)) {
            assert(self.state@.contains_key((room, user)));
        }
    }

    /// `post` is `pre` after `payload`, sent by `sender`, went out to the
    /// other `members` of `room`. `report` holds one attempt for each live
    /// channel of each recipient and for nothing else: none for the sender.
    /// The payload is queued for each recipient that no live channel took it
    /// for; nothing else changes.
    pub open spec fn fanned_out(
        pre: Self,
        post: Self,
        room: Seq<char>,
        members: Seq<Seq<char>>,
        sender: Seq<char>,
        payload: Seq<char>,
        report: Seq<Delivery>,
    ) -> bool {
        &&& forall|j: int| 0 <= j < report.len() ==> {
            &&& members.contains((#[trigger] report[j]).user@)
            &&& report[j].user@ != sender
            &&& pre.channels_of(room, report[j].user@).contains(report[j].channel)
        }
        &&& forall|u: Seq<char>, c: u64|
            members.contains(u) && u != sender && #[trigger] pre.channels_of(room, u).contains(c) ==>
                exists|j: int| 0 <= j < report.len() && #[trigger] report[j].user@ == u && report[j].channel == c
        &&& forall|a: int, b: int| 0 <= a < b < report.len() ==>
            ((#[trigger] report[a]).user@, report[a].channel) != ((#[trigger] report[b]).user@, report[b].channel)
        &&& forall|r: Seq<char>, u: Seq<char>| #[trigger] post.channels_of(r, u) == pre.channels_of(r, u)
        &&& forall|r: Seq<char>, u: Seq<char>| #[trigger] post.pending_of(r, u) == if r == room && members.contains(u)
            && u != sender && !Self::reached(report, u) {
            pre.pending_of(r, u).push(payload)
        } else {
            pre.pending_of(r, u)
        }
    }

    /// Fans `payload`, a message that `sender` had persisted, out to every
    /// other member of `room`: each live channel of each other member gets
    /// it, and a member that none of its channels took it for gets it queued.
    pub fn fan_out(&mut self, room: &str, members: &Vec<String>, sender: &str, payload: &String) -> (r: Vec<Delivery>)
        requires
            old(self).wf(),
            names(members@).no_duplicates(),
        ensures
            final(self).wf(),
            final(self).can_register() == old(self).can_register(),
            Self::fanned_out(*old(self), *final(self), room@, names(members@), sender@, payload@, r@),
    {
        let ghost pre = *self;
        let ghost all = names(members@);
        let sender_s = sender.to_owned();
        let mut report: Vec<Delivery> = Vec::new();
        let mut m: usize = 0;
        proof {
            assert(all.subrange(0, 0) =~= Seq::<Seq<char>>::empty());
        }
        while m < members.len()
            invariant
                self.wf(),
                self.can_register() == pre.can_register(),
                sender_s@ == sender@,
                all == names(members@),
                all.no_duplicates(),
                m <= members.len(),
                Self::fanned_out(pre, *self, room@, all.subrange(0, m as int), sender@, payload@, report@),
            decreases members.len() - m,
        {
            let ghost prefix = all.subrange(0, m as int);
            let ghost next = all.subrange(0, m + 1);
            let ghost x = all[m as int];
            let ghost mid = *self;
            let ghost before = report@;
            proof {
                assert(next =~= prefix.push(x));
                assert(!prefix.contains(x)) by {
                    if prefix.contains(x) {
                        let q = choose|q: int| 0 <= q < prefix.len() && prefix[q] == x;
                        assert(all[q] == all[m as int]);
                    }
                }
                assert forall|u: Seq<char>| next.contains(u) <==> (prefix.contains(u) || u == x) by {
                    if next.contains(u) && u != x {
                        let q = choose|q: int| 0 <= q < next.len() && next[q] == u;
                        assert(prefix[q] == u);
                    }
                    if prefix.contains(u) {
                        let q = choose|q: int| 0 <= q < prefix.len() && prefix[q] == u;
                        assert(next[q] == u);
                    }
                    if u == x {
                        assert(next[m as int] == x);
                    }
                }
            }
            if members[m] != sender_s {
                let part = self.deliver_or_queue(room, &members[m], payload);
                let ghost pv = part@;
                let mut part = part;
                report.append(&mut part);
                proof {
                    let rep = report@;
                    let l = before.len();
                    assert(rep =~= before + pv);
                    mid.lemma_channels_distinct(room@, x);
                    let chx = pre.channels_of(room@, x);
                    assert(mid.channels_of(room@, x) == chx);
                    assert forall|j: int| 0 <= j < rep.len() implies {
                        &&& next.contains((#[trigger] rep[j]).user@)
                        &&& rep[j].user@ != sender@
                        &&& pre.channels_of(room@, rep[j].user@).contains(rep[j].channel)
                    } by {
                        if j < l {
                            assert(rep[j] == before[j]);
                        } else {
                            assert(rep[j] == pv[j - l]);
                            assert(chx[j - l] == rep[j].channel);
                        }
                    }
                    assert forall|u: Seq<char>, c: u64|
                        next.contains(u) && u != sender@ && #[trigger] pre.channels_of(room@, u).contains(c) implies
                            exists|j: int| 0 <= j < rep.len() && #[trigger] rep[j].user@ == u && rep[j].channel == c by {
                        if u == x {
                            let q = choose|q: int| 0 <= q < chx.len() && chx[q] == c;
                            assert(rep[l + q] == pv[q]);
                        } else {
                            assert(prefix.contains(u));
                            let j = choose|j: int| 0 <= j < before.len() && #[trigger] before[j].user@ == u && before[j].channel == c;
                            assert(rep[j] == before[j]);
                        }
                    }
                    assert forall|a: int, b: int| 0 <= a < b < rep.len() implies
                        ((#[trigger] rep[a]).user@, rep[a].channel) != ((#[trigger] rep[b]).user@, rep[b].channel) by {
                        if b < l {
                            assert(rep[a] == before[a] && rep[b] == before[b]);
                        } else if a < l {
                            assert(rep[a] == before[a]);
                            assert(prefix.contains(before[a].user@));
                            assert(rep[b] == pv[b - l]);
                        } else {
                            assert(rep[a] == pv[a - l] && rep[b] == pv[b - l]);
                        }
                    }
                    assert forall|u: Seq<char>| u != x implies Self::reached(rep, u) == Self::reached(before, u) by {
                        if Self::reached(rep, u) {
                            let j = choose|j: int| 0 <= j < rep.len() && #[trigger] rep[j].user@ == u && rep[j].delivered;
                            if j >= l {
                                assert(rep[j] == pv[j - l]);
                            }
                            assert(before[j] == rep[j]);
                        }
                        if Self::reached(before, u) {
                            let j = choose|j: int| 0 <= j < before.len() && #[trigger] before[j].user@ == u && before[j].delivered;
                            assert(rep[j] == before[j]);
                        }
                    }
                    assert(Self::reached(rep, x) == Self::reached(pv, x)) by {
                        if Self::reached(rep, x) {
                            let j = choose|j: int| 0 <= j < rep.len() && #[trigger] rep[j].user@ == x && rep[j].delivered;
                            if j < l {
                                assert(rep[j] == before[j]);
                                assert(prefix.contains(before[j].user@));
                            }
                            assert(pv[j - l] == rep[j]);
                        }
                        if Self::reached(pv, x) {
                            let j = choose|j: int| 0 <= j < pv.len() && #[trigger] pv[j].user@ == x && pv[j].delivered;
                            assert(rep[l + j] == pv[j]);
                        }
                    }
                    assert forall|r: Seq<char>, u: Seq<char>| #[trigger] self.channels_of(r, u) == pre.channels_of(r, u) by {
                        assert(mid.channels_of(r, u) == pre.channels_of(r, u));
                    }
                    assert forall|r: Seq<char>, u: Seq<char>| #[trigger] self.pending_of(r, u) == if r == room@ && next.contains(u)
                        && u != sender@ && !Self::reached(rep, u) {
                        pre.pending_of(r, u).push(payload@)
                    } else {
                        pre.pending_of(r, u)
                    } by {
                        assert(mid.pending_of(r, u) == if r == room@ && prefix.contains(u) && u != sender@ && !Self::reached(before, u) {
                            pre.pending_of(r, u).push(payload@)
                        } else {
                            pre.pending_of(r, u)
                        });
                    }
                }
            } else {
                proof {
                    assert forall|r: Seq<char>, u: Seq<char>| #[trigger] self.pending_of(r, u) == if r == room@ && next.contains(u)
                        && u != sender@ && !Self::reached(report@, u) {
                        pre.pending_of(r, u).push(payload@)
                    } else {
                        pre.pending_of(r, u)
                    } by {
                        assert(mid.pending_of(r, u) == if r == room@ && prefix.contains(u) && u != sender@ && !Self::reached(before, u) {
                            pre.pending_of(r, u).push(payload@)
                        } else {
                            pre.pending_of(r, u)
                        });
                    }
                }
            }
            m += 1;
        }
        proof {
            assert(all.subrange(0, members.len() as int) =~= all);
        }
        report
    }

    /// No channel is live for two members at once.
    pub proof fn lemma_channels_disjoint(&self, room: Seq<char>, user: Seq<char>, other_room: Seq<char>, other: Seq<char>, c: u64)
        requires
            self.wf(),
            (room, user) != (other_room, other),
            self.channels_of(room, user).contains(c),
        ensures
            !self.channels_of(other_room, other).contains(c),
    {
        if self@.contains_key((other_room, other)) {
            assert(self.state@[(room, user)].channels.contains(c));
        }
    }

    /// A room has an entry exactly while one of its members has a live
    /// channel or a queued message.
    pub proof fn law_room_present_iff_occupied(&self, room: Seq<char>)
        requires
            self.wf(),
        ensures
            self.has_room(room) <==> exists|u: Seq<char>|
                #[trigger] self.channels_of(room, u).len() > 0 || self.pending_of(room, u).len() > 0,
    {
        if self.has_room(room) {
            let u = choose|u: Seq<char>| #[trigger] self@.contains_key((room, u));
            assert(self.state@.contains_key((room, u)));
            assert(self.channels_of(room, u).len() > 0 || self.pending_of(room, u).len() > 0);
        }
        if exists|u: Seq<char>| #[trigger] self.channels_of(room, u).len() > 0 || self.pending_of(room, u).len() > 0 {
            let u = choose|u: Seq<char>| #[trigger] self.channels_of(room, u).len() > 0 || self.pending_of(room, u).len() > 0;
            assert(self@.contains_key((room, u)));
        }
    }

    /// The position of the slot of `user` in `room`, if there is one.
    fn find(&self, room: &String, user: &String) -> (r: Option<usize>)
        requires
            self.wf(),
        ensures
            match r {
                Some(i) => i < self.slots.len() && slot_key(self.slots@[i as int]) == (room@, user@),
                None => !self@.contains_key((room@, user@)),
            },
    {
        let mut i: usize = 0;
        while i < self.slots.len()
            invariant
                self.wf(),
                i <= self.slots.len(),
                forall|j: int| 0 <= j < i ==> slot_key(#[trigger] self.slots@[j]) != (room@, user@),
            decreases self.slots.len() - i,
        {
            if self.slots[i].room == *room && self.slots[i].user == *user {
                return Some(i);
            }
            i += 1;
        }
        None
    }
}

} // verus!

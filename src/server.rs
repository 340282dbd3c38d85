use std::collections::HashMap;

use vstd::prelude::*;
use vstd::std_specs::hash::{axiom_spec_keys_iter, spec_keys_iter};
use vstd::std_specs::iter::IteratorSpec;

use crate::protocol::{welcome_payload, welcome_text};

verus! {

/// A text payload for one session.
pub struct Message(pub String);

/// A new session asks to be registered with its outbound handle.
pub struct Connect<H> {
    pub addr: H,
}

/// Session `id` sent `msg`; every other session is to receive it.
pub struct ClientMessage {
    pub id: usize,
    pub msg: String,
}

/// Session `id` has gone away.
pub struct Disconnect {
    pub id: usize,
}

/// One payload to enqueue on the outbound handle of session `to`.
pub struct Delivery {
    pub to: usize,
    pub msg: Message,
}

/// The session a delivery goes to.
pub open spec fn recipient(d: Delivery) -> usize {
    d.to
}

/// The sessions that `out` addresses, in order.
pub open spec fn recipients(out: Seq<Delivery>) -> Seq<usize> {
    out.map_values(|d: Delivery| recipient(d))
}

/// `out` hands `text` exactly once to each member of `members` but `skip`, and to no one else.
pub open spec fn is_fan_out(members: Set<usize>, skip: usize, text: Seq<char>, out: Seq<Delivery>) -> bool {
    &&& recipients(out).no_duplicates()
    &&& recipients(out).to_set() == members.remove(skip)
    &&& forall|i: int| 0 <= i < out.len() ==> (#[trigger] out[i]).msg.0@ == text
}

/// The registry of connected sessions: it hands out ids and fans messages out.
///
/// Ids are allocated as one more than the last id handed out, from 1 on, so no id
/// is handed out twice while the registry lives.
pub struct ChatServer<H> {
    current_id: usize,
    sessions: HashMap<usize, H>,
}

impl<H> ChatServer<H> {
    /// The last id handed out; 0 before the first registration.
    pub closed spec fn last_id(&self) -> nat {
        self.current_id as nat
    }

    /// The registered sessions and their outbound handles.
    pub closed spec fn sessions(&self) -> Map<usize, H> {
        self.sessions@
    }

    /// Every registered id was handed out by this registry.
    pub closed spec fn wf(&self) -> bool {
        forall|id: usize| #[trigger] self.sessions@.contains_key(id) ==> 1 <= id <= self.current_id
    }

    /// An empty registry that has handed out no id.
    pub fn new() -> (r: Self)
        ensures
            r.wf(),
            r.last_id() == 0,
            r.sessions() == Map::<usize, H>::empty(),
    {
        ChatServer { current_id: 0, sessions: HashMap::new() }
    }

    /// Whether another id can be handed out.
    pub fn can_register(&self) -> (r: bool)
        ensures
            r == (self.last_id() < usize::MAX),
    {
        self.current_id < usize::MAX
    }

    /// Whether session `id` is registered.
    pub fn is_registered(&self, id: usize) -> (r: bool)
        ensures
            r == self.sessions().contains_key(id),
    {
        self.sessions.contains_key(&id)
    }

    /// The outbound handle of session `id`, if it is registered.
    pub fn handle_of(&self, id: usize) -> (r: Option<&H>)
        ensures
            r matches Some(h) ==> self.sessions().contains_key(id) && *h == self.sessions()[id],
            r is None ==> !self.sessions().contains_key(id),
    {
        self.sessions.get(&id)
    }

    /// Registers `addr` under a fresh id, and returns that id with the welcome
    /// payload for the new session.
    pub fn register(&mut self, addr: H) -> (r: (usize, Delivery))
        requires
            old(self).wf(),
            old(self).last_id() < usize::MAX,
        ensures
            final(self).wf(),
            r.0 == old(self).last_id() + 1,
            final(self).last_id() == r.0,
            !old(self).sessions().contains_key(r.0),
            final(self).sessions() == old(self).sessions().insert(r.0, addr),
            r.1.to == r.0,
            r.1.msg.0@ == welcome_text(r.0 as nat),
    {
        self.current_id = self.current_id + 1;
        let id = self.current_id;
        let welcome = self.send_message(welcome_payload(id).as_str(), id);
        self.sessions.insert(id, addr);
        (id, welcome)
    }

    /// Removes session `id`; nothing happens if it is not registered.
    pub fn unregister(&mut self, id: usize)
        requires
            old(self).wf(),
        ensures
            final(self).wf(),
            final(self).last_id() == old(self).last_id(),
            final(self).sessions() == old(self).sessions().remove(id),
    {
        self.sessions.remove(&id);
    }

    /// A delivery of `message` to session `to`.
    pub fn send_message(&self, message: &str, to: usize) -> (r: Delivery)
        ensures
            r.to == to,
            r.msg.0@ == message@,
    {
        Delivery { to, msg: Message(message.to_owned()) }
    }

    /// The deliveries of `message` to every registered session but `skip_id`.
    pub fn broadcast_except(&self, skip_id: usize, message: &str) -> (r: Vec<Delivery>)
        ensures
            is_fan_out(self.sessions().dom(), skip_id, message@, r@),
    {
        let mut out: Vec<Delivery> = Vec::new();
        let ghost ks: Seq<usize> = spec_keys_iter(&self.sessions).remaining().unref();
        proof {
            broadcast use axiom_spec_keys_iter;
        }
        for id in it: self.sessions.keys()
            invariant
                it.seq().unref() == ks,
                ks.to_set() == self.sessions@.dom(),
                ks.no_duplicates(),
                forall|i: int| 0 <= i < out.len() ==> (#[trigger] out@[i]).msg.0@ == message@,
                forall|i: int|
                    0 <= i < out.len() ==> (#[trigger] out@[i]).to != skip_id
                        && self.sessions@.dom().contains(out@[i].to),
                forall|i: int, j: int|
                    0 <= i < out.len() && it.index() <= j < ks.len() ==> (#[trigger] out@[i]).to
                        != #[trigger] ks[j],
                forall|j: int|
                    0 <= j < it.index() && ks[j] != skip_id ==> exists|i: int|
                        0 <= i < out.len() && (#[trigger] out@[i]).to == #[trigger] ks[j],
                forall|i1: int, i2: int|
                    0 <= i1 < i2 < out.len() ==> (#[trigger] out@[i1]).to != (#[trigger] out@[i2]).to,
        {
            let ghost j0 = it.index();
            let ghost before = out@;
            assert(ks[j0] == *id);
            if *id != skip_id {
                out.push(self.send_message(message, *id));
                assert(out@[out.len() - 1].to == ks[j0]);
            }
            assert(forall|i: int| 0 <= i < before.len() ==> out@[i] == before[i]);
        }
        proof {
            let rs = recipients(out@);
            assert(rs.to_set() =~= self.sessions@.dom().remove(skip_id)) by {
                assert forall|k: usize| self.sessions@.dom().remove(skip_id).contains(k) implies rs.to_set().contains(k) by {
                    assert(ks.to_set().contains(k));
                    let j = choose|j: int| 0 <= j < ks.len() && ks[j] == k;
                    let i = choose|i: int| 0 <= i < out.len() && (#[trigger] out@[i]).to == ks[j];
                    assert(rs[i] == k);
                }
            }
        }
        out
    }

    /// Registers the session of a `Connect` command; see `register`.
    pub fn handle_connect(&mut self, msg: Connect<H>) -> (r: (usize, Delivery))
        requires
            old(self).wf(),
            old(self).last_id() < usize::MAX,
        ensures
            final(self).wf(),
            r.0 == old(self).last_id() + 1,
            final(self).last_id() == r.0,
            !old(self).sessions().contains_key(r.0),
            final(self).sessions() == old(self).sessions().insert(r.0, msg.addr),
            r.1.to == r.0,
            r.1.msg.0@ == welcome_text(r.0 as nat),
    {
        self.register(msg.addr)
    }

    /// Relays a `ClientMessage` to every session but its sender.
    pub fn handle_client_message(&self, msg: ClientMessage) -> (r: Vec<Delivery>)
        ensures
            is_fan_out(self.sessions().dom(), msg.id, msg.msg@, r@),
    {
        self.broadcast_except(msg.id, msg.msg.as_str())
    }

    /// Removes the session of a `Disconnect` command; see `unregister`.
    pub fn handle_disconnect(&mut self, msg: Disconnect)
        requires
            old(self).wf(),
        ensures
            final(self).wf(),
            final(self).last_id() == old(self).last_id(),
            final(self).sessions() == old(self).sessions().remove(msg.id),
    {
        self.unregister(msg.id)
    }
}

impl<H> Default for ChatServer<H> {
    fn default() -> (r: Self)
        ensures
            r.wf(),
            r.last_id() == 0,
            r.sessions() == Map::<usize, H>::empty(),
    {
        Self::new()
    }
}

/// `out` hands session `k` exactly one payload.
pub open spec fn delivered_once(out: Seq<Delivery>, k: usize) -> bool {
    exists|i: int|
        0 <= i < out.len() && (#[trigger] out[i]).to == k && forall|j: int|
            0 <= j < out.len() && (#[trigger] out[j]).to == k ==> j == i
}

/// `out` hands session `k` nothing.
pub open spec fn never_delivered(out: Seq<Delivery>, k: usize) -> bool {
    forall|i: int| 0 <= i < out.len() ==> (#[trigger] out[i]).to != k
}

proof fn lemma_fan_out_members(members: Set<usize>, skip: usize, text: Seq<char>, out: Seq<Delivery>, k: usize)
    requires
        is_fan_out(members, skip, text, out),
    ensures
        members.contains(k) && k != skip ==> delivered_once(out, k),
        !(members.contains(k) && k != skip) ==> never_delivered(out, k),
{
    let rs = recipients(out);
    if members.contains(k) && k != skip {
        assert(rs.to_set().contains(k));
        let i = choose|i: int| 0 <= i < rs.len() && rs[i] == k;
        assert(out[i].to == k);
        assert forall|j: int| 0 <= j < out.len() && (#[trigger] out[j]).to == k implies j == i by {
            assert(rs[j] == rs[i]);
        }
    } else {
        assert forall|i: int| 0 <= i < out.len() implies (#[trigger] out[i]).to != k by {
            assert(rs.to_set().contains(rs[i]));
        }
    }
}

/// Registrations hand out pairwise distinct ids: however they interleave with
/// removals and broadcasts, `n` registrations in a row yield `n` different ids.
///
/// Registration `i` turns `before[i]` into `after[i]` and returns `ids[i]`; between
/// two registrations only removals and broadcasts happen, which keep the last id.
pub proof fn lemma_registered_ids_distinct<H>(
    before: Seq<ChatServer<H>>,
    after: Seq<ChatServer<H>>,
    ids: Seq<usize>,
)
    requires
        before.len() == ids.len(),
        after.len() == ids.len(),
        forall|i: int| 0 <= i < ids.len() ==> #[trigger] ids[i] == before[i].last_id() + 1,
        forall|i: int| 0 <= i < ids.len() ==> (#[trigger] after[i]).last_id() == ids[i],
        forall|i: int| 0 <= i < ids.len() - 1 ==> before[i + 1].last_id() == (#[trigger] after[i]).last_id(),
    ensures
        ids.no_duplicates(),
        ids.to_set().len() == ids.len(),
{
    assert forall|i: int| 0 <= i < ids.len() implies #[trigger] ids[i] == ids[0] + i by {
        lemma_ids_consecutive(before, after, ids, i);
    }
    assert forall|i: int, j: int| 0 <= i < ids.len() && 0 <= j < ids.len() && i != j implies ids[i] != ids[j] by {
        assert(ids[i] == ids[0] + i);
        assert(ids[j] == ids[0] + j);
    }
    ids.unique_seq_to_set();
}

proof fn lemma_ids_consecutive<H>(before: Seq<ChatServer<H>>, after: Seq<ChatServer<H>>, ids: Seq<usize>, i: int)
    requires
        before.len() == ids.len(),
        after.len() == ids.len(),
        forall|i: int| 0 <= i < ids.len() ==> #[trigger] ids[i] == before[i].last_id() + 1,
        forall|i: int| 0 <= i < ids.len() ==> (#[trigger] after[i]).last_id() == ids[i],
        forall|i: int| 0 <= i < ids.len() - 1 ==> before[i + 1].last_id() == (#[trigger] after[i]).last_id(),
        0 <= i < ids.len(),
    ensures
        ids[i] == ids[0] + i,
    decreases i,
{
    if i > 0 {
        lemma_ids_consecutive(before, after, ids, i - 1);
        assert(before[i].last_id() == after[i - 1].last_id());
    }
}

/// After session `id` is unregistered (turning `s` into `t`), a broadcast from any
/// session hands `id` nothing.
pub proof fn lemma_unregistered_not_reached<H>(
    s: ChatServer<H>,
    t: ChatServer<H>,
    id: usize,
    from: usize,
    text: Seq<char>,
    out: Seq<Delivery>,
)
    requires
        t.sessions() == s.sessions().remove(id),
        is_fan_out(t.sessions().dom(), from, text, out),
    ensures
        never_delivered(out, id),
{
    lemma_fan_out_members(t.sessions().dom(), from, text, out, id);
}

/// Unregistering a session twice (`s` to `t` to `u`) leaves the registry as
/// unregistering it once does.
pub proof fn lemma_unregister_idempotent<H>(s: ChatServer<H>, t: ChatServer<H>, u: ChatServer<H>, id: usize)
    requires
        t.last_id() == s.last_id(),
        t.sessions() == s.sessions().remove(id),
        u.last_id() == t.last_id(),
        u.sessions() == t.sessions().remove(id),
    ensures
        u.last_id() == t.last_id(),
        u.sessions() == t.sessions(),
{
    assert(u.sessions() =~= t.sessions());
}

/// A removal of session `x` that races a broadcast from session `y` takes effect
/// either before the broadcast (`out_after`, on `t`) or after it (`out_before`, on
/// `s`). Either way each other registered session gets the message exactly once,
/// the sender gets none, and `x` gets at most one copy; it gets none if the
/// removal came first.
pub proof fn lemma_removal_races_broadcast<H>(
    s: ChatServer<H>,
    t: ChatServer<H>,
    x: usize,
    y: usize,
    text: Seq<char>,
    out_before: Seq<Delivery>,
    out_after: Seq<Delivery>,
)
    requires
        t.sessions() == s.sessions().remove(x),
        is_fan_out(s.sessions().dom(), y, text, out_before),
        is_fan_out(t.sessions().dom(), y, text, out_after),
    ensures
        forall|k: usize|
            k != x && k != y && s.sessions().contains_key(k) ==> delivered_once(out_before, k)
                && delivered_once(out_after, k),
        never_delivered(out_before, y),
        never_delivered(out_after, y),
        never_delivered(out_after, x),
        s.sessions().contains_key(x) && x != y ==> delivered_once(out_before, x),
        !s.sessions().contains_key(x) ==> never_delivered(out_before, x),
{
    assert forall|k: usize|
        k != x && k != y && s.sessions().contains_key(k) implies delivered_once(out_before, k)
            && delivered_once(out_after, k) by {
        lemma_fan_out_members(s.sessions().dom(), y, text, out_before, k);
        lemma_fan_out_members(t.sessions().dom(), y, text, out_after, k);
    }
    lemma_fan_out_members(s.sessions().dom(), y, text, out_before, y);
    lemma_fan_out_members(t.sessions().dom(), y, text, out_after, y);
    lemma_fan_out_members(t.sessions().dom(), y, text, out_after, x);
    lemma_fan_out_members(s.sessions().dom(), y, text, out_before, x);
}

} // verus!

//! One endpoint's connection state: the serial counter, the table of
//! pending calls awaiting their reply, and the live signal subscriptions
//! with their delivery queues. Inbound messages are routed here; the
//! surrounding program owns the transport and hands every inbound message
//! to exactly one of the `accept_*` routines.

use vstd::prelude::*;

use crate::msg::copy_bytes;
use crate::msg::Message;
use crate::msg::MessageKind;
use crate::msg::MessageModel;
use crate::value::str_eq;
use crate::value::Sig;

verus! {

/// Why a call failed.
#[derive(Debug)]
pub enum CallError {
    /// No reply arrived within the caller's bound.
    Timeout,
    /// The transport was lost; every pending call fails this way.
    Disconnected,
    /// The reply body did not decode under the expected signature.
    Decode,
    /// The handler answered with an error message; its text is carried.
    Remote(String),
}

/// Why an outbound fire-and-forget message could not be sent.
#[derive(Clone, Copy, PartialEq, Eq, Structural, Debug)]
pub enum SendError {
    /// The transport was lost.
    Disconnected,
}

/// One live subscription: signals matching `(path, interface, member)` are
/// appended to its queue and pulled in order.
pub struct SubEntry {
    pub id: u64,
    pub path: String,
    pub interface: String,
    pub member: String,
    pub queue: Vec<(Sig, Vec<u8>)>,
    pub closed: bool,
}

/// Mathematical model of a subscription.
#[verifier::ext_equal]
pub struct SubModel {
    pub id: u64,
    pub path: Seq<char>,
    pub interface: Seq<char>,
    pub member: Seq<char>,
    pub queue: Seq<(Sig, Seq<u8>)>,
    pub closed: bool,
}

impl View for SubEntry {
    type V = SubModel;

    open spec fn view(&self) -> SubModel {
        SubModel {
            id: self.id,
            path: self.path@,
            interface: self.interface@,
            member: self.member@,
            queue: self.queue@.map_values(|t: (Sig, Vec<u8>)| (t.0, t.1@)),
            closed: self.closed,
        }
    }
}

/// A client/server endpoint of the bus, over an opaque ordered transport.
pub struct Connection {
    next_serial: u32,
    pending: Vec<u32>,
    subs: Vec<SubEntry>,
    next_sub: u64,
    connected: bool,
}

/// Mathematical model of a connection.
#[verifier::ext_equal]
pub struct ConnModel {
    pub next_serial: u32,
    pub pending: Seq<u32>,
    pub subs: Seq<SubModel>,
    pub next_sub: u64,
    pub connected: bool,
}

impl View for Connection {
    type V = ConnModel;

    closed spec fn view(&self) -> ConnModel {
        ConnModel {
            next_serial: self.next_serial,
            pending: self.pending@,
            subs: self.subs@.map_values(|s: SubEntry| s@),
            next_sub: self.next_sub,
            connected: self.connected,
        }
    }
}

impl ConnModel {
    /// Serials in the pending table are distinct and below the counter;
    /// subscription identifiers are distinct and below theirs. This is
    /// what keeps a reply from ever resolving two calls.
    pub open spec fn wf(self) -> bool {
        &&& forall|i: int, j: int|
            0 <= i < j < self.pending.len() ==> self.pending[i] != self.pending[j]
        &&& forall|i: int| 0 <= i < self.pending.len() ==> #[trigger] self.pending[i] < self.next_serial
        &&& forall|i: int, j: int| 0 <= i < j < self.subs.len() ==> self.subs[i].id != self.subs[j].id
        &&& forall|i: int| 0 <= i < self.subs.len() ==> #[trigger] self.subs[i].id < self.next_sub
    }
}

/// Whether a serial is pending.
pub open spec fn has_serial(pending: Seq<u32>, s: u32) -> bool {
    pending.contains(s)
}

/// The position of a pending serial (meaningful when the table holds it
/// and serials are distinct).
pub open spec fn serial_index(pending: Seq<u32>, s: u32) -> int {
    choose|j: int| 0 <= j < pending.len() && pending[j] == s
}

/// The pending table after the call with serial `s` is resolved, timed
/// out or cancelled: `s` leaves, everything else stays, in order.
pub open spec fn spec_resolve(pending: Seq<u32>, s: u32) -> Seq<u32> {
    if pending.contains(s) {
        pending.remove(serial_index(pending, s))
    } else {
        pending
    }
}

/// Whether a subscription with this identifier is registered.
pub open spec fn has_sub(subs: Seq<SubModel>, id: u64) -> bool {
    exists|j: int| 0 <= j < subs.len() && subs[j].id == id
}

/// The position of the subscription with this identifier.
pub open spec fn sub_index(subs: Seq<SubModel>, id: u64) -> int {
    choose|j: int| 0 <= j < subs.len() && subs[j].id == id
}

/// The subscription list after subscribing: one fresh entry with an empty
/// queue, at the end.
pub open spec fn spec_subscribe(
    subs: Seq<SubModel>,
    id: u64,
    path: Seq<char>,
    interface: Seq<char>,
    member: Seq<char>,
) -> Seq<SubModel> {
    subs.push(SubModel { id, path, interface, member, queue: Seq::empty(), closed: false })
}

/// The subscription list after the subscription with identifier `id` is
/// dropped: its slot is freed, everything else stays, in order.
pub open spec fn spec_drop(subs: Seq<SubModel>, id: u64) -> Seq<SubModel> {
    if has_sub(subs, id) {
        subs.remove(sub_index(subs, id))
    } else {
        subs
    }
}

/// Whether a subscription is addressed by a signal.
pub open spec fn sub_matches(s: SubModel, m: MessageModel) -> bool {
    s.path == m.path && s.interface == m.interface && s.member == m.member
}

/// Every open matching subscription receives its own copy of the signal
/// payload, at the back of its queue; all others are untouched.
pub open spec fn spec_deliver(subs: Seq<SubModel>, m: MessageModel) -> Seq<SubModel> {
    subs.map_values(
        |s: SubModel|
            if sub_matches(s, m) && !s.closed {
                SubModel { queue: s.queue.push((m.sig, m.body)), ..s }
            } else {
                s
            },
    )
}

/// How many subscriptions a signal is delivered to.
pub open spec fn count_receivers(subs: Seq<SubModel>, m: MessageModel) -> nat
    decreases subs.len(),
{
    if subs.len() == 0 {
        0
    } else {
        count_receivers(subs.drop_last(), m) + if sub_matches(subs.last(), m)
            && !subs.last().closed {
            1nat
        } else {
            0nat
        }
    }
}

/// The subscription list after the transport is lost: every sequence is
/// marked exhausted; what was already delivered may still be pulled.
pub open spec fn spec_close_all(subs: Seq<SubModel>) -> Seq<SubModel> {
    subs.map_values(|s: SubModel| SubModel { closed: true, ..s })
}

/// What came of pulling on a subscription.
pub enum Pulled {
    /// The next delivered payload, in arrival order.
    Item(Sig, Vec<u8>),
    /// Nothing delivered yet; the puller suspends until a signal arrives.
    Suspend,
    /// The subscription is exhausted: the connection is gone and the
    /// queue is drained.
    Exhausted,
}

/// Where an inbound reply or error went.
pub enum Routed {
    /// It resolved the pending call with this serial. `error` says
    /// whether the handler answered with an error; the payload is handed
    /// on undecoded.
    Resolved { serial: u32, error: bool, sig: Sig, body: Vec<u8> },
    /// No pending call matches its `reply_to`: a stray reply, dropped
    /// without harm.
    Stray,
}

/// Serial isolation: resolving a reply frees exactly the slot of the call
/// its `reply_to` names — every other pending call stays pending. Together
/// with `accept_reply`'s contract (the payload handed out belongs to the
/// named serial) this is what keeps one caller from ever receiving another
/// call's reply.
pub proof fn lemma_serial_isolation(pending: Seq<u32>, s1: u32, s2: u32)
    requires
        forall|i: int, j: int| 0 <= i < j < pending.len() ==> pending[i] != pending[j],
        pending.contains(s1),
        pending.contains(s2),
        s1 != s2,
    ensures
        !spec_resolve(pending, s1).contains(s1),
        spec_resolve(pending, s1).contains(s2),
        spec_resolve(pending, s1).len() == pending.len() - 1,
{
    let j = serial_index(pending, s1);
    assert(0 <= j < pending.len() && pending[j] == s1);
    pending.remove_ensures(j);
    let r = pending.remove(j);
    assert forall|a: int| 0 <= a < r.len() implies r[a] != s1 by {
        let a0 = if a < j {
            a
        } else {
            a + 1
        };
        assert(r[a] == pending[a0]);
        if a0 < j {
            assert(pending[a0] != pending[j]);
        }
        if j < a0 {
            assert(pending[j] != pending[a0]);
        }
    }
    assert(!r.contains(s1)) by {
        if r.contains(s1) {
            let w = choose|w: int| 0 <= w < r.len() && r[w] == s1;
            assert(r[w] != s1);
        }
    }
    let k = choose|k: int| 0 <= k < pending.len() && pending[k] == s2;
    assert(pending[k] == s2);
    assert(k != j);
    let a = if k < j {
        k
    } else {
        k - 1
    };
    assert(r[a] == pending[k]);
    assert(r.contains(s2));
}

/// Dropping a subscription frees its registry slot: subscribing and then
/// dropping the returned identifier leaves the registry exactly as it was,
/// so subscribe/drop cycles cannot grow it.
pub proof fn lemma_subscribe_drop_restores(
    c: ConnModel,
    path: Seq<char>,
    interface: Seq<char>,
    member: Seq<char>,
)
    requires
        c.wf(),
    ensures
        spec_drop(spec_subscribe(c.subs, c.next_sub, path, interface, member), c.next_sub)
            == c.subs,
{
    let id = c.next_sub;
    let s1 = spec_subscribe(c.subs, id, path, interface, member);
    let n = c.subs.len() as int;
    assert(s1[n].id == id);
    assert(has_sub(s1, id));
    let j = sub_index(s1, id);
    assert(0 <= j < s1.len() && s1[j].id == id);
    if j < n {
        assert(c.subs[j].id < c.next_sub);
    }
    assert(j == n);
    s1.remove_ensures(j);
    assert(s1.remove(j) =~~= c.subs);
}

/// Fan-out is exact: a delivered signal is appended once to the queue of
/// each live matching subscription, every other subscription is left
/// untouched, and delivery never changes the registry's size — so a
/// dropped sequence, whose slot is gone from the registry, receives
/// nothing. With `lemma_subscribe_drop_restores` this gives the
/// subscribe/drop law its delivery half: after any number of cycles the
/// registry, and therefore what a broadcast reaches, is exactly as before.
pub proof fn lemma_deliver_exactly_once(subs: Seq<SubModel>, m: MessageModel)
    ensures
        spec_deliver(subs, m).len() == subs.len(),
        forall|j: int|
            0 <= j < subs.len() && sub_matches(subs[j], m) && !subs[j].closed
                ==> #[trigger] spec_deliver(subs, m)[j].queue == subs[j].queue.push(
                (m.sig, m.body),
            ),
        forall|j: int|
            0 <= j < subs.len() && !(sub_matches(subs[j], m) && !subs[j].closed)
                ==> #[trigger] spec_deliver(subs, m)[j] == subs[j],
{
}

/// A timed-out call frees its slot: opening a call under a fresh serial
/// and then timing that call out returns the pending table to exactly its
/// former state — correlation of every other call is untouched.
pub proof fn lemma_timeout_restores(pending: Seq<u32>, s: u32)
    requires
        forall|i: int| 0 <= i < pending.len() ==> #[trigger] pending[i] < s,
    ensures
        spec_resolve(pending.push(s), s) == pending,
{
    let p1 = pending.push(s);
    let n = pending.len() as int;
    assert(p1[n] == s);
    assert(p1.contains(s));
    let j = serial_index(p1, s);
    assert(0 <= j < p1.len() && p1[j] == s);
    if j < n {
        assert(pending[j] < s);
    }
    assert(j == n);
    p1.remove_ensures(j);
    assert(p1.remove(j) =~= pending);
}

impl Connection {
    /// A fresh, connected endpoint: nothing pending, nothing subscribed.
    pub fn new() -> (c: Connection)
        ensures
            c@.next_serial == 0,
            c@.pending.len() == 0,
            c@.subs.len() == 0,
            c@.next_sub == 0,
            c@.connected,
            c@.wf(),
    {
        let c = Connection {
            next_serial: 0,
            pending: Vec::new(),
            subs: Vec::new(),
            next_sub: 0,
            connected: true,
        };
        proof {
            assert(c@.subs =~= Seq::<SubModel>::empty());
        }
        c
    }

    /// Whether the transport is still up.
    pub fn is_connected(&self) -> (r: bool)
        ensures
            r == self@.connected,
    {
        self.connected
    }

    /// How many calls await their reply.
    pub fn pending_len(&self) -> (r: usize)
        ensures
            r == self@.pending.len(),
    {
        self.pending.len()
    }

    /// How many subscriptions hold a registry slot.
    pub fn subs_len(&self) -> (r: usize)
        ensures
            r == self@.subs.len(),
    {
        self.subs.len()
    }

    /// Open a method call: allocate a fresh serial, enter it into the
    /// pending table, and hand back the call message for the transport.
    /// On a lost connection the call fails at once with `Disconnected`.
    pub fn begin_call(
        &mut self,
        path: &str,
        interface: &str,
        member: &str,
        sig: Sig,
        body: Vec<u8>,
    ) -> (r: Result<Message, CallError>)
        requires
            old(self)@.wf(),
            old(self)@.next_serial < u32::MAX,
        ensures
            final(self)@.wf(),
            r is Ok <==> old(self)@.connected,
            !old(self)@.connected ==> (r matches Err(CallError::Disconnected)) && final(self)@
                == old(self)@,
            r matches Ok(m) ==> {
                &&& m@.kind == MessageKind::Call
                &&& m@.wf()
                &&& m@.path == path@
                &&& m@.interface == interface@
                &&& m@.member == member@
                &&& m@.serial == old(self)@.next_serial
                &&& m@.sig == sig
                &&& m@.body == body@
                &&& final(self)@.pending == old(self)@.pending.push(m@.serial)
                &&& final(self)@.next_serial == old(self)@.next_serial + 1
                &&& final(self)@.subs == old(self)@.subs
                &&& final(self)@.next_sub == old(self)@.next_sub
                &&& final(self)@.connected
            },
    {
        if !self.connected {
            return Err(CallError::Disconnected);
        }
        let serial = self.next_serial;
        self.next_serial = self.next_serial + 1;
        self.pending.push(serial);
        proof {
            assert(self@.subs == old(self)@.subs);
            let p0 = old(self)@.pending;
            let p1 = self@.pending;
            assert(p1 == p0.push(serial));
            assert forall|a: int, b: int| 0 <= a < b < p1.len() implies p1[a] != p1[b] by {
                if b == p1.len() - 1 {
                    assert(p0[a] < old(self)@.next_serial);
                } else {
                    assert(p0[a] != p0[b]);
                }
            }
            assert forall|a: int| 0 <= a < p1.len() implies p1[a] < self@.next_serial by {
                if a < p1.len() - 1 {
                    assert(p0[a] < old(self)@.next_serial);
                }
            }
        }
        Ok(Message::new_call(serial, path, interface, member, sig, body))
    }

    /// Broadcast a signal: fire and forget, never correlated to a reply,
    /// so no pending slot is taken. The message goes to the transport; on
    /// a lost connection nothing is sent.
    pub fn send_signal(
        &mut self,
        path: &str,
        interface: &str,
        member: &str,
        sig: Sig,
        body: Vec<u8>,
    ) -> (r: Result<Message, SendError>)
        requires
            old(self)@.wf(),
            old(self)@.next_serial < u32::MAX,
        ensures
            final(self)@.wf(),
            r is Ok <==> old(self)@.connected,
            !old(self)@.connected ==> (r matches Err(SendError::Disconnected)) && final(self)@
                == old(self)@,
            r matches Ok(m) ==> {
                &&& m@.kind == MessageKind::Signal
                &&& m@.wf()
                &&& m@.path == path@
                &&& m@.interface == interface@
                &&& m@.member == member@
                &&& m@.serial == old(self)@.next_serial
                &&& m@.sig == sig
                &&& m@.body == body@
                &&& final(self)@.next_serial == old(self)@.next_serial + 1
                &&& final(self)@.pending == old(self)@.pending
                &&& final(self)@.subs == old(self)@.subs
                &&& final(self)@.next_sub == old(self)@.next_sub
                &&& final(self)@.connected
            },
    {
        if !self.connected {
            return Err(SendError::Disconnected);
        }
        let serial = self.next_serial;
        self.next_serial = self.next_serial + 1;
        proof {
            assert(self@.subs == old(self)@.subs);
            assert(self@.pending == old(self)@.pending);
            assert forall|a: int| 0 <= a < self@.pending.len() implies self@.pending[a]
                < self@.next_serial by {
                assert(old(self)@.pending[a] < old(self)@.next_serial);
            }
        }
        Ok(Message::new_signal(serial, path, interface, member, sig, body))
    }

    /// Bring a lost connection explicitly back up, as the caller's
    /// decision — never automatically. Former subscriptions stay
    /// exhausted; new ones take fresh slots.
    pub fn reconnect(&mut self)
        requires
            old(self)@.wf(),
        ensures
            final(self)@.wf(),
            final(self)@ == (ConnModel { connected: true, ..old(self)@ }),
    {
        self.connected = true;
    }

    /// Take the pending call with this serial out of the table, if it is
    /// there; say whether it was. Shared by resolution, timeout and
    /// cancellation.
    fn remove_serial(&mut self, serial: u32) -> (found: bool)
        requires
            old(self)@.wf(),
        ensures
            final(self)@.wf(),
            found == has_serial(old(self)@.pending, serial),
            final(self)@.pending == spec_resolve(old(self)@.pending, serial),
            final(self)@.next_serial == old(self)@.next_serial,
            final(self)@.subs == old(self)@.subs,
            final(self)@.next_sub == old(self)@.next_sub,
            final(self)@.connected == old(self)@.connected,
    {
        let n = self.pending.len();
        let mut j: usize = 0;
        while j < n
            invariant
                old(self)@.wf(),
                self == old(self),
                n == self.pending.len(),
                j <= n,
                forall|k: int| 0 <= k < j ==> self.pending@[k] != serial,
            decreases n - j,
        {
            if self.pending[j] == serial {
                proof {
                    let cj = serial_index(self@.pending, serial);
                    assert(self@.pending[j as int] == serial);
                    assert(0 <= cj < self@.pending.len() && self@.pending[cj] == serial);
                    if cj < j as int {
                        assert(self@.pending[cj] != self@.pending[j as int]);
                    }
                    if (j as int) < cj {
                        assert(self@.pending[j as int] != self@.pending[cj]);
                    }
                    assert(cj == j as int);
                }
                self.pending.remove(j);
                proof {
                    assert(self@.subs == old(self)@.subs);
                    let p0 = old(self)@.pending;
                    let p1 = self@.pending;
                    p0.remove_ensures(j as int);
                    assert(p0.contains(serial));
                    assert(p1 == spec_resolve(p0, serial));
                    assert forall|a: int, b: int| 0 <= a < b < p1.len() implies p1[a] != p1[b] by {
                        let a0 = if a < j as int {
                            a
                        } else {
                            a + 1
                        };
                        let b0 = if b < j as int {
                            b
                        } else {
                            b + 1
                        };
                        assert(p1[a] == p0[a0]);
                        assert(p1[b] == p0[b0]);
                        assert(p0[a0] != p0[b0]);
                    }
                    assert forall|a: int| 0 <= a < p1.len() implies p1[a]
                        < self@.next_serial by {
                        let a0 = if a < j as int {
                            a
                        } else {
                            a + 1
                        };
                        assert(p1[a] == p0[a0]);
                        assert(p0[a0] < old(self)@.next_serial);
                    }
                }
                return true;
            }
            j = j + 1;
        }
        proof {
            assert(!self@.pending.contains(serial)) by {
                if self@.pending.contains(serial) {
                    let w = choose|k: int|
                        0 <= k < self@.pending.len() && self@.pending[k] == serial;
                    assert(self@.pending[w] != serial);
                }
            }
        }
        false
    }

    /// Route an inbound reply or error: it resolves the pending call its
    /// `reply_to` names and frees that slot; with no such call it is a
    /// stray and nothing changes.
    pub fn accept_reply(&mut self, m: &Message) -> (r: Routed)
        requires
            old(self)@.wf(),
            m@.kind == MessageKind::Reply || m@.kind == MessageKind::Error,
            m@.wf(),
        ensures
            final(self)@.wf(),
            final(self)@.pending == spec_resolve(old(self)@.pending, m@.reply_to->Some_0),
            final(self)@.next_serial == old(self)@.next_serial,
            final(self)@.subs == old(self)@.subs,
            final(self)@.next_sub == old(self)@.next_sub,
            final(self)@.connected == old(self)@.connected,
            r is Stray <==> !has_serial(old(self)@.pending, m@.reply_to->Some_0),
            r matches Routed::Resolved { serial, error, sig, body } ==> {
                &&& serial == m@.reply_to->Some_0
                &&& error == (m@.kind == MessageKind::Error)
                &&& sig == m@.sig
                &&& body@ == m@.body
            },
    {
        let to = match m.reply_to {
            Some(s) => s,
            None => {
                proof {
                    assert(false);
                }
                0
            },
        };
        if self.remove_serial(to) {
            Routed::Resolved {
                serial: to,
                error: match m.kind {
                    MessageKind::Error => true,
                    _ => false,
                },
                sig: m.sig,
                body: copy_bytes(&m.body),
            }
        } else {
            Routed::Stray
        }
    }

    /// Give up on a pending call after the caller's bound elapsed: its
    /// slot is freed and the caller is owed `Timeout` — exactly when the
    /// call was still pending.
    pub fn fail_call_timeout(&mut self, serial: u32) -> (r: Option<CallError>)
        requires
            old(self)@.wf(),
        ensures
            final(self)@.wf(),
            final(self)@.pending == spec_resolve(old(self)@.pending, serial),
            final(self)@.next_serial == old(self)@.next_serial,
            final(self)@.subs == old(self)@.subs,
            final(self)@.next_sub == old(self)@.next_sub,
            final(self)@.connected == old(self)@.connected,
            r is Some <==> has_serial(old(self)@.pending, serial),
            r matches Some(e) ==> e is Timeout,
    {
        if self.remove_serial(serial) {
            Some(CallError::Timeout)
        } else {
            None
        }
    }

    /// Drop a pending call before its reply arrives: the slot is freed
    /// whether or not the peer ever answers. Idempotent.
    pub fn cancel_call(&mut self, serial: u32)
        requires
            old(self)@.wf(),
        ensures
            final(self)@.wf(),
            final(self)@.pending == spec_resolve(old(self)@.pending, serial),
            final(self)@.next_serial == old(self)@.next_serial,
            final(self)@.subs == old(self)@.subs,
            final(self)@.next_sub == old(self)@.next_sub,
            final(self)@.connected == old(self)@.connected,
    {
        let _ = self.remove_serial(serial);
    }

    /// Register a subscription for signals from `(path, interface,
    /// member)`: a fresh identifier, an empty queue, a registry slot.
    pub fn subscribe(&mut self, path: &str, interface: &str, member: &str) -> (id: u64)
        requires
            old(self)@.wf(),
            old(self)@.next_sub < u64::MAX,
        ensures
            final(self)@.wf(),
            id == old(self)@.next_sub,
            has_sub(final(self)@.subs, id),
            final(self)@.subs == spec_subscribe(
                old(self)@.subs,
                id,
                path@,
                interface@,
                member@,
            ),
            final(self)@.next_sub == old(self)@.next_sub + 1,
            final(self)@.pending == old(self)@.pending,
            final(self)@.next_serial == old(self)@.next_serial,
            final(self)@.connected == old(self)@.connected,
    {
        let id = self.next_sub;
        self.next_sub = self.next_sub + 1;
        self.subs.push(
            SubEntry {
                id,
                path: path.to_owned(),
                interface: interface.to_owned(),
                member: member.to_owned(),
                queue: Vec::new(),
                closed: false,
            },
        );
        proof {
            assert(self@.pending == old(self)@.pending);
            let s0 = old(self)@.subs;
            let s1 = self@.subs;
            assert(s1 =~~= spec_subscribe(s0, id, path@, interface@, member@));
            assert forall|a: int, b: int| 0 <= a < b < s1.len() implies s1[a].id != s1[b].id by {
                if b == s1.len() - 1 {
                    assert(s0[a].id < old(self)@.next_sub);
                } else {
                    assert(s0[a].id != s0[b].id);
                }
            }
            assert forall|a: int| 0 <= a < s1.len() implies s1[a].id < self@.next_sub by {
                if a < s1.len() - 1 {
                    assert(s0[a].id < old(self)@.next_sub);
                }
            }
            assert(s1[s1.len() - 1].id == id);
        }
        id
    }

    /// Free the registry slot of the subscription with this identifier.
    /// Dropping the sequence is what calls this; it is idempotent.
    pub fn drop_subscription(&mut self, id: u64)
        requires
            old(self)@.wf(),
        ensures
            final(self)@.wf(),
            final(self)@.subs == spec_drop(old(self)@.subs, id),
            final(self)@.pending == old(self)@.pending,
            final(self)@.next_serial == old(self)@.next_serial,
            final(self)@.next_sub == old(self)@.next_sub,
            final(self)@.connected == old(self)@.connected,
    {
        let n = self.subs.len();
        let mut j: usize = 0;
        while j < n
            invariant
                old(self)@.wf(),
                self == old(self),
                n == self.subs.len(),
                j <= n,
                forall|k: int| 0 <= k < j ==> self@.subs[k].id != id,
            decreases n - j,
        {
            if self.subs[j].id == id {
                proof {
                    let cj = sub_index(self@.subs, id);
                    assert(self@.subs[j as int].id == id);
                    assert(0 <= cj < self@.subs.len() && self@.subs[cj].id == id);
                    if cj < j as int {
                        assert(self@.subs[cj].id != self@.subs[j as int].id);
                    }
                    if (j as int) < cj {
                        assert(self@.subs[j as int].id != self@.subs[cj].id);
                    }
                    assert(cj == j as int);
                    assert(has_sub(self@.subs, id));
                }
                self.subs.remove(j);
                proof {
                    assert(self@.pending == old(self)@.pending);
                    let s0 = old(self)@.subs;
                    let s1 = self@.subs;
                    old(self).subs@.remove_ensures(j as int);
                    s0.remove_ensures(j as int);
                    assert(s1 =~~= s0.remove(j as int));
                    assert(s1 == spec_drop(s0, id));
                    assert forall|a: int, b: int| 0 <= a < b < s1.len() implies s1[a].id
                        != s1[b].id by {
                        let a0 = if a < j as int {
                            a
                        } else {
                            a + 1
                        };
                        let b0 = if b < j as int {
                            b
                        } else {
                            b + 1
                        };
                        assert(s1[a].id == s0[a0].id);
                        assert(s1[b].id == s0[b0].id);
                        assert(s0[a0].id != s0[b0].id);
                    }
                    assert forall|a: int| 0 <= a < s1.len() implies s1[a].id < self@.next_sub by {
                        let a0 = if a < j as int {
                            a
                        } else {
                            a + 1
                        };
                        assert(s1[a].id == s0[a0].id);
                        assert(s0[a0].id < old(self)@.next_sub);
                    }
                }
                return ;
            }
            j = j + 1;
        }
        proof {
            assert(!has_sub(self@.subs, id)) by {
                if has_sub(self@.subs, id) {
                    let w = sub_index(self@.subs, id);
                    assert(self@.subs[w].id != id);
                }
            }
        }
    }

    /// Route an inbound signal: every open subscription matching its
    /// `(path, interface, member)` receives its own copy of the payload,
    /// appended behind what was delivered before; the count of receivers
    /// comes back.
    pub fn accept_signal(&mut self, m: &Message) -> (delivered: usize)
        requires
            old(self)@.wf(),
            m@.kind == MessageKind::Signal,
        ensures
            final(self)@.wf(),
            final(self)@.subs == spec_deliver(old(self)@.subs, m@),
            delivered == count_receivers(old(self)@.subs, m@),
            final(self)@.pending == old(self)@.pending,
            final(self)@.next_serial == old(self)@.next_serial,
            final(self)@.next_sub == old(self)@.next_sub,
            final(self)@.connected == old(self)@.connected,
    {
        let n = self.subs.len();
        let mut j: usize = 0;
        let mut delivered: usize = 0;
        while j < n
            invariant
                old(self)@.wf(),
                m@.kind == MessageKind::Signal,
                n == self.subs.len(),
                n == old(self)@.subs.len(),
                j <= n,
                delivered <= j,
                self@.pending == old(self)@.pending,
                self@.next_serial == old(self)@.next_serial,
                self@.next_sub == old(self)@.next_sub,
                self@.connected == old(self)@.connected,
                forall|k: int|
                    0 <= k < j ==> self@.subs[k] == spec_deliver(old(self)@.subs, m@)[k],
                forall|k: int| j <= k < n ==> self@.subs[k] == old(self)@.subs[k],
                delivered == count_receivers(old(self)@.subs.take(j as int), m@),
            decreases n - j,
        {
            let ghost pre = old(self)@.subs;
            let ghost snap = self@.subs;
            let ghost snapv = self.subs@;
            let matched = !self.subs[j].closed && str_eq(self.subs[j].path.as_str(), m.path.as_str())
                && str_eq(self.subs[j].interface.as_str(), m.interface.as_str())
                && str_eq(self.subs[j].member.as_str(), m.member.as_str());
            if matched {
                let item = (m.sig, copy_bytes(&m.body));
                let e = &mut self.subs[j];
                e.queue.push(item);
                delivered = delivered + 1;
            }
            proof {
                assert(pre.take(j + 1 as int).drop_last() =~= pre.take(j as int));
                assert(pre.take(j + 1 as int).last() == pre[j as int]);
                assert(snap[j as int] == pre[j as int]);
                assert forall|k: int| 0 <= k < n && k != j as int implies self@.subs[k]
                    == snap[k] by {
                    assert(self.subs@[k] == snapv[k]);
                }
                if matched {
                    assert(self@.subs[j as int].queue =~= spec_deliver(pre, m@)[j as int].queue);
                    assert(self@.subs[j as int] =~~= spec_deliver(pre, m@)[j as int]);
                } else {
                    assert(self@.subs[j as int] == snap[j as int]);
                }
                assert(self@.subs[j as int] == spec_deliver(pre, m@)[j as int]);
                assert forall|k: int| 0 <= k < j + 1 implies self@.subs[k] == spec_deliver(
                    pre,
                    m@,
                )[k] by {
                    if k < j as int {
                        assert(self@.subs[k] == snap[k]);
                        assert(snap[k] == spec_deliver(pre, m@)[k]);
                    }
                }
                assert(self@.pending == old(self)@.pending);
            }
            j = j + 1;
        }
        proof {
            assert(old(self)@.subs.take(n as int) =~= old(self)@.subs);
            assert(self@.subs =~= spec_deliver(old(self)@.subs, m@));
            assert forall|a: int, b: int| 0 <= a < b < self@.subs.len() implies self@.subs[a].id
                != self@.subs[b].id by {
                assert(self@.subs[a].id == old(self)@.subs[a].id);
                assert(self@.subs[b].id == old(self)@.subs[b].id);
                assert(old(self)@.subs[a].id != old(self)@.subs[b].id);
            }
            assert forall|a: int| 0 <= a < self@.subs.len() implies self@.subs[a].id
                < self@.next_sub by {
                assert(self@.subs[a].id == old(self)@.subs[a].id);
                assert(old(self)@.subs[a].id < old(self)@.next_sub);
            }
        }
        delivered
    }

    /// Pull the next item of a subscription's sequence: the front of its
    /// queue in arrival order; with nothing delivered the puller suspends,
    /// unless the connection is gone and the sequence is exhausted.
    pub fn pull(&mut self, id: u64) -> (r: Pulled)
        requires
            old(self)@.wf(),
            has_sub(old(self)@.subs, id),
        ensures
            final(self)@.wf(),
            final(self)@.pending == old(self)@.pending,
            final(self)@.next_serial == old(self)@.next_serial,
            final(self)@.next_sub == old(self)@.next_sub,
            final(self)@.connected == old(self)@.connected,
            ({
                let j = sub_index(old(self)@.subs, id);
                let q = old(self)@.subs[j].queue;
                if q.len() > 0 {
                    &&& r matches Pulled::Item(sig, body) && sig == q[0].0 && body@ == q[0].1
                    &&& final(self)@.subs == old(self)@.subs.update(
                        j,
                        SubModel { queue: q.drop_first(), ..old(self)@.subs[j] },
                    )
                } else if old(self)@.subs[j].closed {
                    r is Exhausted && final(self)@.subs == old(self)@.subs
                } else {
                    r is Suspend && final(self)@.subs == old(self)@.subs
                }
            }),
    {
        let n = self.subs.len();
        let mut j: usize = 0;
        while j < n
            invariant
                old(self)@.wf(),
                self == old(self),
                n == self.subs.len(),
                j <= n,
                forall|k: int| 0 <= k < j ==> self@.subs[k].id != id,
            decreases n - j,
        {
            if self.subs[j].id == id {
                proof {
                    let cj = sub_index(self@.subs, id);
                    assert(self@.subs[j as int].id == id);
                    assert(0 <= cj < self@.subs.len() && self@.subs[cj].id == id);
                    if cj < j as int {
                        assert(self@.subs[cj].id != self@.subs[j as int].id);
                    }
                    if (j as int) < cj {
                        assert(self@.subs[j as int].id != self@.subs[cj].id);
                    }
                    assert(cj == j as int);
                }
                let e = &mut self.subs[j];
                if e.queue.len() > 0 {
                    let (sig, body) = e.queue.remove(0);
                    proof {
                        assert(self@.pending == old(self)@.pending);
                        let s0 = old(self)@.subs;
                        let q0 = s0[j as int].queue;
                        old(self).subs@[j as int].queue@.remove_ensures(0);
                        assert(self@.subs[j as int].queue =~= q0.drop_first());
                        assert(self@.subs =~~= s0.update(
                            j as int,
                            SubModel { queue: q0.drop_first(), ..s0[j as int] },
                        ));
                        assert forall|a: int, b: int| 0 <= a < b < self@.subs.len() implies self@
                            .subs[a].id != self@.subs[b].id by {
                            assert(self@.subs[a].id == s0[a].id);
                            assert(self@.subs[b].id == s0[b].id);
                            assert(s0[a].id != s0[b].id);
                        }
                        assert forall|a: int| 0 <= a < self@.subs.len() implies self@.subs[a].id
                            < self@.next_sub by {
                            assert(self@.subs[a].id == s0[a].id);
                            assert(s0[a].id < old(self)@.next_sub);
                        }
                    }
                    return Pulled::Item(sig, body);
                } else if e.closed {
                    proof {
                        assert(final(self)@.subs =~= old(self)@.subs);
                    }
                    return Pulled::Exhausted;
                } else {
                    proof {
                        assert(final(self)@.subs =~= old(self)@.subs);
                    }
                    return Pulled::Suspend;
                }
            }
            j = j + 1;
        }
        proof {
            let w = sub_index(self@.subs, id);
            assert(self@.subs[w].id != id);
            assert(false);
        }
        Pulled::Suspend
    }

    /// The transport is lost: every pending call fails with
    /// `Disconnected` (their serials come back so the caller can fail
    /// each future), and every subscription sequence is marked exhausted
    /// — already-delivered items may still be pulled.
    pub fn disconnect(&mut self) -> (failed: Vec<u32>)
        requires
            old(self)@.wf(),
        ensures
            final(self)@.wf(),
            failed@ == old(self)@.pending,
            final(self)@.pending.len() == 0,
            !final(self)@.connected,
            final(self)@.subs == spec_close_all(old(self)@.subs),
            final(self)@.next_serial == old(self)@.next_serial,
            final(self)@.next_sub == old(self)@.next_sub,
    {
        self.connected = false;
        let n = self.pending.len();
        let mut failed: Vec<u32> = Vec::new();
        let mut j: usize = 0;
        while j < n
            invariant
                self.pending@ == old(self)@.pending,
                self@.subs == old(self)@.subs,
                self@.next_serial == old(self)@.next_serial,
                self@.next_sub == old(self)@.next_sub,
                n == self.pending.len(),
                j <= n,
                failed@ == self.pending@.take(j as int),
            decreases n - j,
        {
            failed.push(self.pending[j]);
            proof {
                assert(failed@ =~= self.pending@.take(j + 1 as int));
            }
            j = j + 1;
        }
        proof {
            assert(failed@ =~= self.pending@);
        }
        self.pending.clear();
        let sn = self.subs.len();
        let mut k: usize = 0;
        while k < sn
            invariant
                old(self)@.wf(),
                sn == self.subs.len(),
                sn == old(self)@.subs.len(),
                k <= sn,
                self@.pending == Seq::<u32>::empty(),
                failed@ == old(self)@.pending,
                !self@.connected,
                self@.next_serial == old(self)@.next_serial,
                self@.next_sub == old(self)@.next_sub,
                forall|i: int| 0 <= i < k ==> self@.subs[i] == spec_close_all(old(self)@.subs)[i],
                forall|i: int| k <= i < sn ==> self@.subs[i] == old(self)@.subs[i],
            decreases sn - k,
        {
            let ghost snap = self@.subs;
            let ghost snapv = self.subs@;
            let e = &mut self.subs[k];
            e.closed = true;
            proof {
                assert forall|i: int| 0 <= i < sn && i != k as int implies self@.subs[i]
                    == snap[i] by {
                    assert(self.subs@[i] == snapv[i]);
                }
                assert(snap[k as int] == old(self)@.subs[k as int]);
                assert(self@.subs[k as int] =~~= spec_close_all(old(self)@.subs)[k as int]);
                assert forall|i: int| 0 <= i < k + 1 implies self@.subs[i] == spec_close_all(
                    old(self)@.subs,
                )[i] by {
                    if i < k as int {
                        assert(self@.subs[i] == snap[i]);
                        assert(snap[i] == spec_close_all(old(self)@.subs)[i]);
                    }
                }
                assert(self@.pending == Seq::<u32>::empty());
            }
            k = k + 1;
        }
        proof {
            assert(self@.subs =~= spec_close_all(old(self)@.subs));
            assert forall|a: int, b: int| 0 <= a < b < self@.subs.len() implies self@.subs[a].id
                != self@.subs[b].id by {
                assert(self@.subs[a].id == old(self)@.subs[a].id);
                assert(self@.subs[b].id == old(self)@.subs[b].id);
                assert(old(self)@.subs[a].id != old(self)@.subs[b].id);
            }
            assert forall|a: int| 0 <= a < self@.subs.len() implies self@.subs[a].id
                < self@.next_sub by {
                assert(self@.subs[a].id == old(self)@.subs[a].id);
                assert(old(self)@.subs[a].id < old(self)@.next_sub);
            }
        }
        failed
    }
}

} // verus!

//! The client-side stub: bound once to `(service, path, interface)`, it
//! turns method calls into correlated request/reply pairs on a connection,
//! and signal subscriptions into pullable sequences. The service name is
//! carried for the bus's routing; the envelope itself addresses by path
//! and interface.

use vstd::prelude::*;

use crate::connection::CallError;
use crate::connection::Connection;
use crate::connection::Pulled;
use crate::connection::spec_subscribe;
use crate::msg::Message;
use crate::msg::MessageKind;
use crate::value::decode_value;
use crate::value::encode_value;
use crate::value::sig_of;
use crate::value::spec_decode;
use crate::value::spec_encode;
use crate::value::Sig;
use crate::value::Value;
use crate::value::ValueModel;

verus! {

/// What pulling on a decoded subscription sequence produced.
pub enum NextItem {
    /// The next signal payload, decoded under the expected signature.
    Item(Value),
    /// Nothing delivered yet; pull again once the dispatch loop ran.
    Pending,
    /// The sequence is exhausted: the connection is gone and the queue is
    /// drained.
    Closed,
    /// The next payload does not decode under the expected signature; it
    /// is dropped from the queue.
    BadItem,
}

/// A client-side stand-in for one remote interface.
pub struct Proxy {
    pub service: String,
    pub path: String,
    pub interface: String,
}

impl Proxy {
    /// Bind the addressing coordinates once.
    pub fn new(service: &str, path: &str, interface: &str) -> (p: Proxy)
        ensures
            p.service@ == service@,
            p.path@ == path@,
            p.interface@ == interface@,
    {
        Proxy {
            service: service.to_owned(),
            path: path.to_owned(),
            interface: interface.to_owned(),
        }
    }

    /// Encode the argument and open a call on the connection: the message
    /// goes out on the transport, and the reply or error that names its
    /// serial resolves it. On a lost connection the call fails at once.
    pub fn call_method(&self, conn: &mut Connection, member: &str, arg: &Value) -> (r: Result<
        Message,
        CallError,
    >)
        requires
            old(conn)@.wf(),
            old(conn)@.next_serial < u32::MAX,
        ensures
            final(conn)@.wf(),
            r is Ok <==> old(conn)@.connected,
            !old(conn)@.connected ==> final(conn)@ == old(conn)@,
            r matches Ok(m) ==> {
                &&& m@.kind == MessageKind::Call
                &&& m@.wf()
                &&& m@.path == self.path@
                &&& m@.interface == self.interface@
                &&& m@.member == member@
                &&& m@.serial == old(conn)@.next_serial
                &&& m@.sig == sig_of(arg@)
                &&& m@.body == spec_encode(arg@)
                &&& final(conn)@.pending == old(conn)@.pending.push(m@.serial)
                &&& final(conn)@.next_serial == old(conn)@.next_serial + 1
                &&& final(conn)@.subs == old(conn)@.subs
                &&& final(conn)@.next_sub == old(conn)@.next_sub
                &&& final(conn)@.connected
            },
    {
        let sig = arg.sig();
        let body = encode_value(arg);
        conn.begin_call(self.path.as_str(), self.interface.as_str(), member, sig, body)
    }

    /// Decode what a resolved call brought back, expecting a payload of
    /// signature `expected`: a remote error surfaces with its text, and a
    /// payload of the wrong shape fails with `Decode`.
    pub fn decode_reply(expected: Sig, error: bool, sig: Sig, body: &Vec<u8>) -> (r: Result<
        Value,
        CallError,
    >)
        ensures
            r is Ok <==> (!error && sig == expected && spec_decode(sig, body@) is Some),
            r matches Ok(v) ==> spec_decode(sig, body@) == Some(v@),
            error ==> match spec_decode(Sig::Str, body@) {
                Some(ValueModel::Str(t)) => r matches Err(CallError::Remote(msg)) && msg@ == t,
                _ => r matches Err(CallError::Decode),
            },
            !error && !(sig == expected && spec_decode(sig, body@) is Some) ==> (r matches Err(
                CallError::Decode,
            )),
    {
        if error {
            match decode_value(Sig::Str, body) {
                Ok(Value::Str(t)) => Err(CallError::Remote(t)),
                _ => Err(CallError::Decode),
            }
        } else if sig == expected {
            match decode_value(sig, body) {
                Ok(v) => Ok(v),
                Err(_) => Err(CallError::Decode),
            }
        } else {
            Err(CallError::Decode)
        }
    }

    /// Subscribe to the signal `member` of this proxy's object: a fresh
    /// pullable sequence with its own registry slot, seeing only what is
    /// broadcast after this point.
    pub fn receive_signal(&self, conn: &mut Connection, member: &str) -> (id: u64)
        requires
            old(conn)@.wf(),
            old(conn)@.next_sub < u64::MAX,
        ensures
            final(conn)@.wf(),
            id == old(conn)@.next_sub,
            final(conn)@.subs == spec_subscribe(
                old(conn)@.subs,
                id,
                self.path@,
                self.interface@,
                member@,
            ),
            final(conn)@.next_sub == old(conn)@.next_sub + 1,
            final(conn)@.pending == old(conn)@.pending,
            final(conn)@.next_serial == old(conn)@.next_serial,
            final(conn)@.connected == old(conn)@.connected,
    {
        conn.subscribe(self.path.as_str(), self.interface.as_str(), member)
    }

    /// Watch a property: its change signal carries the property's name as
    /// the member, so watching is subscribing to that signal.
    pub fn watch_property(&self, conn: &mut Connection, name: &str) -> (id: u64)
        requires
            old(conn)@.wf(),
            old(conn)@.next_sub < u64::MAX,
        ensures
            final(conn)@.wf(),
            id == old(conn)@.next_sub,
            final(conn)@.subs == spec_subscribe(
                old(conn)@.subs,
                id,
                self.path@,
                self.interface@,
                name@,
            ),
            final(conn)@.next_sub == old(conn)@.next_sub + 1,
            final(conn)@.pending == old(conn)@.pending,
            final(conn)@.next_serial == old(conn)@.next_serial,
            final(conn)@.connected == old(conn)@.connected,
    {
        conn.subscribe(self.path.as_str(), self.interface.as_str(), name)
    }

    /// Pull the next item of a subscription's sequence and decode it under
    /// the expected signature: items come in arrival order; an empty queue
    /// suspends the puller, unless the connection is gone and the sequence
    /// is exhausted.
    pub fn next_item(&self, conn: &mut Connection, id: u64, expected: Sig) -> (r: NextItem)
        requires
            old(conn)@.wf(),
            crate::connection::has_sub(old(conn)@.subs, id),
        ensures
            final(conn)@.wf(),
            final(conn)@.pending == old(conn)@.pending,
            final(conn)@.next_serial == old(conn)@.next_serial,
            final(conn)@.next_sub == old(conn)@.next_sub,
            final(conn)@.connected == old(conn)@.connected,
            ({
                let j = crate::connection::sub_index(old(conn)@.subs, id);
                let q = old(conn)@.subs[j].queue;
                if q.len() > 0 {
                    &&& final(conn)@.subs == old(conn)@.subs.update(
                        j,
                        crate::connection::SubModel {
                            queue: q.drop_first(),
                            ..old(conn)@.subs[j]
                        },
                    )
                    &&& (q[0].0 == expected && spec_decode(q[0].0, q[0].1) is Some) <==> r is Item
                    &&& r matches NextItem::Item(v) ==> spec_decode(expected, q[0].1) == Some(v@)
                    &&& !(q[0].0 == expected && spec_decode(q[0].0, q[0].1) is Some) ==> r
                        is BadItem
                } else if old(conn)@.subs[j].closed {
                    r is Closed && final(conn)@.subs == old(conn)@.subs
                } else {
                    r is Pending && final(conn)@.subs == old(conn)@.subs
                }
            }),
    {
        match conn.pull(id) {
            Pulled::Item(sig, body) => {
                if sig == expected {
                    match decode_value(sig, &body) {
                        Ok(v) => NextItem::Item(v),
                        Err(_) => NextItem::BadItem,
                    }
                } else {
                    NextItem::BadItem
                }
            },
            Pulled::Suspend => NextItem::Pending,
            Pulled::Exhausted => NextItem::Closed,
        }
    }
}

} // verus!

//! The object server: a registry of exposed objects keyed by `(path,
//! interface)`, each with a handler for its methods and a table of
//! properties. Incoming calls are dispatched to the handler — or, when the
//! member names a property, served directly: a read answers with the
//! value, a write stores the new value and broadcasts one change signal
//! before the write's own reply.

use vstd::prelude::*;

use crate::msg::Message;
use crate::msg::MessageKind;
use crate::msg::MessageModel;
use crate::value::decode_value;
use crate::value::encode_value;
use crate::value::sig_of;
use crate::value::spec_decode;
use crate::value::spec_encode;
use crate::value::str_eq;
use crate::value::Sig;
use crate::value::Value;
use crate::value::ValueModel;

verus! {

/// Registration and property-access failures.
#[derive(Clone, Copy, PartialEq, Eq, Structural, Debug)]
pub enum RegError {
    /// The `(path, interface)` pair is already registered.
    DuplicateObject,
    /// No object is registered under the `(path, interface)` pair.
    NoSuchObject,
    /// The property is already declared on the object.
    DuplicateProperty,
    /// The property is not declared on the object.
    NoSuchProperty,
}

/// What one handler invocation produced: the reply (or error text) owed to
/// the caller, and the signals the handler chose to broadcast.
pub struct CallOutcome {
    pub reply: Result<Value, String>,
    pub signals: Vec<(String, Value)>,
}

/// Mathematical model of a handler outcome.
#[verifier::ext_equal]
pub struct OutcomeModel {
    pub reply: Result<ValueModel, Seq<char>>,
    pub signals: Seq<(Seq<char>, ValueModel)>,
}

impl View for CallOutcome {
    type V = OutcomeModel;

    open spec fn view(&self) -> OutcomeModel {
        OutcomeModel {
            reply: match self.reply {
                Ok(v) => Ok(v@),
                Err(t) => Err(t@),
            },
            signals: self.signals@.map_values(|t: (String, Value)| (t.0@, t.1@)),
        }
    }
}

/// One exposed interface: the handler that an object server dispatches
/// method calls to. The implementor fixes in `handled` which outcomes a
/// call may produce; an outcome may depend on more than the arguments (a
/// handler may draw a random number), so `handled` is a relation, not a
/// function.
pub trait Interface: Sized {
    /// Which `(pre-state, call, post-state, outcome)` quadruples the
    /// implementation allows.
    spec fn handled(
        pre: Self,
        member: Seq<char>,
        sig: Sig,
        body: Seq<u8>,
        post: Self,
        out: OutcomeModel,
    ) -> bool;

    /// Handle one method call on this interface.
    fn handle_call(&mut self, member: &str, sig: Sig, body: &Vec<u8>) -> (out: CallOutcome)
        ensures
            Self::handled(*old(self), member@, sig, body@, *final(self), out@),
    ;
}

/// One property: named, readable and writable state with a change counter.
struct Prop {
    name: String,
    value: Value,
    version: u64,
}

/// Mathematical model of a property.
#[verifier::ext_equal]
pub struct PropModel {
    pub name: Seq<char>,
    pub value: ValueModel,
    pub version: u64,
}

impl View for Prop {
    type V = PropModel;

    closed spec fn view(&self) -> PropModel {
        PropModel { name: self.name@, value: self.value@, version: self.version }
    }
}

/// One registered object: a `(path, interface)` key, its handler, and its
/// properties.
struct ObjectEntry<H> {
    path: String,
    interface: String,
    handler: H,
    props: Vec<Prop>,
}

/// Mathematical model of a registered object.
#[verifier::ext_equal]
pub struct EntryModel<H> {
    pub path: Seq<char>,
    pub interface: Seq<char>,
    pub handler: H,
    pub props: Seq<PropModel>,
}

impl<H> View for ObjectEntry<H> {
    type V = EntryModel<H>;

    closed spec fn view(&self) -> EntryModel<H> {
        EntryModel {
            path: self.path@,
            interface: self.interface@,
            handler: self.handler,
            props: self.props@.map_values(|p: Prop| p@),
        }
    }
}

/// The server-side registry and dispatcher.
pub struct ObjectServer<H> {
    objects: Vec<ObjectEntry<H>>,
    next_serial: u32,
}

/// Mathematical model of an object server.
#[verifier::ext_equal]
pub struct ServerModel<H> {
    pub objects: Seq<EntryModel<H>>,
    pub next_serial: u32,
}

impl<H> View for ObjectServer<H> {
    type V = ServerModel<H>;

    closed spec fn view(&self) -> ServerModel<H> {
        ServerModel {
            objects: self.objects@.map_values(|e: ObjectEntry<H>| e@),
            next_serial: self.next_serial,
        }
    }
}

/// Whether an object is registered under `(path, interface)`.
pub open spec fn model_has<H>(objs: Seq<EntryModel<H>>, p: Seq<char>, i: Seq<char>) -> bool {
    exists|j: int| 0 <= j < objs.len() && objs[j].path == p && objs[j].interface == i
}

/// The position of the object registered under `(path, interface)`.
pub open spec fn model_index<H>(objs: Seq<EntryModel<H>>, p: Seq<char>, i: Seq<char>) -> int {
    choose|j: int| 0 <= j < objs.len() && objs[j].path == p && objs[j].interface == i
}

/// The registry after a successful registration: the new object at the
/// end, with no properties yet.
pub open spec fn spec_add<H>(
    objs: Seq<EntryModel<H>>,
    p: Seq<char>,
    i: Seq<char>,
    h: H,
) -> Seq<EntryModel<H>> {
    objs.push(EntryModel { path: p, interface: i, handler: h, props: Seq::empty() })
}

/// The registry after removal of `(path, interface)`: its slot is freed,
/// everything else stays; removing an absent pair changes nothing.
pub open spec fn spec_remove_obj<H>(
    objs: Seq<EntryModel<H>>,
    p: Seq<char>,
    i: Seq<char>,
) -> Seq<EntryModel<H>> {
    if model_has(objs, p, i) {
        objs.remove(model_index(objs, p, i))
    } else {
        objs
    }
}

/// Whether the object declares a property of this name.
pub open spec fn prop_has(props: Seq<PropModel>, name: Seq<char>) -> bool {
    exists|j: int| 0 <= j < props.len() && props[j].name == name
}

/// The position of the property of this name.
pub open spec fn prop_index(props: Seq<PropModel>, name: Seq<char>) -> int {
    choose|j: int| 0 <= j < props.len() && props[j].name == name
}

/// The change counter after one more write; it sticks at the top rather
/// than wrap.
pub open spec fn bump_version(v: u64) -> u64 {
    if v == u64::MAX {
        v
    } else {
        (v + 1) as u64
    }
}

/// The serial after `s` in the server's outbound counter, wrapping at the
/// top of the space: server-side serials are never correlated against, so
/// reuse is harmless.
pub open spec fn wrap_next(s: u32) -> u32 {
    if s == u32::MAX {
        0
    } else {
        (s + 1) as u32
    }
}

/// `k` serial allocations after `s`.
pub open spec fn wrap_add(s: u32, k: nat) -> u32
    decreases k,
{
    if k == 0 {
        s
    } else {
        wrap_next(wrap_add(s, (k - 1) as nat))
    }
}

/// Every `(path, interface)` key is registered at most once, and no
/// object declares a property name twice.
pub open spec fn wf_objects<H>(objs: Seq<EntryModel<H>>) -> bool {
    &&& forall|a: int, b: int|
        0 <= a < b < objs.len() ==> !(objs[a].path == objs[b].path && objs[a].interface
            == objs[b].interface)
    &&& forall|a: int, x: int, y: int|
        0 <= a < objs.len() && 0 <= x < y < objs[a].props.len() ==> objs[a].props[x].name
            != objs[a].props[y].name
}

impl<H> ServerModel<H> {
    /// Well-formedness of the registry.
    pub open spec fn wf(self) -> bool {
        wf_objects(self.objects)
    }
}

/// The models of a sequence of messages.
pub open spec fn msgs_model(s: Seq<Message>) -> Seq<MessageModel> {
    s.map_values(|m: Message| m@)
}

/// The reply that answers `call` with a payload.
pub open spec fn reply_model(
    call: MessageModel,
    serial: u32,
    sig: Sig,
    body: Seq<u8>,
) -> MessageModel {
    MessageModel {
        kind: MessageKind::Reply,
        path: call.path,
        interface: call.interface,
        member: call.member,
        serial,
        reply_to: Some(call.serial),
        sig,
        body,
    }
}

/// The error that answers `call` with a text.
pub open spec fn error_model(call: MessageModel, serial: u32, text: Seq<char>) -> MessageModel {
    MessageModel {
        kind: MessageKind::Error,
        path: call.path,
        interface: call.interface,
        member: call.member,
        serial,
        reply_to: Some(call.serial),
        sig: Sig::Str,
        body: vstd::utf8::encode_utf8(text),
    }
}

/// A broadcast signal carrying a payload.
pub open spec fn signal_model(
    path: Seq<char>,
    interface: Seq<char>,
    member: Seq<char>,
    serial: u32,
    v: ValueModel,
) -> MessageModel {
    MessageModel {
        kind: MessageKind::Signal,
        path,
        interface,
        member,
        serial,
        reply_to: None,
        sig: sig_of(v),
        body: spec_encode(v),
    }
}

/// What a property write sends, in order: first the one change signal
/// carrying the new value, then the write's own reply.
pub open spec fn prop_set_out(call: MessageModel, serial0: u32, v: ValueModel) -> Seq<
    MessageModel,
> {
    seq![
        signal_model(call.path, call.interface, call.member, serial0, v),
        reply_model(call, wrap_next(serial0), Sig::Unit, Seq::empty()),
    ]
}

/// The messages a handler outcome turns into: its signals in order, then
/// exactly one reply or error answering the call.
pub open spec fn outbound_of(om: OutcomeModel, call: MessageModel, serial0: u32) -> Seq<
    MessageModel,
> {
    Seq::new(
        om.signals.len() + 1,
        |k: int|
            if k < om.signals.len() {
                signal_model(
                    call.path,
                    call.interface,
                    om.signals[k].0,
                    wrap_add(serial0, k as nat),
                    om.signals[k].1,
                )
            } else {
                match om.reply {
                    Ok(v) => reply_model(call, wrap_add(serial0, k as nat), sig_of(v), spec_encode(v)),
                    Err(t) => error_model(call, wrap_add(serial0, k as nat), t),
                }
            },
    )
}

/// Everything `dispatch_call` may do, by case: an unregistered pair is
/// answered with nothing (the caller times out); a property read answers
/// with the value; a property write stores the value and sends the change
/// signal before the reply; anything else goes to the handler, whose
/// signals precede its one reply or error.
pub open spec fn spec_dispatch_post<H: Interface>(
    pre: ServerModel<H>,
    call: MessageModel,
    post: ServerModel<H>,
    out: Seq<MessageModel>,
) -> bool {
    if !model_has(pre.objects, call.path, call.interface) {
        &&& post == pre
        &&& out.len() == 0
    } else {
        let j = model_index(pre.objects, call.path, call.interface);
        let e = pre.objects[j];
        if prop_has(e.props, call.member) {
            let pj = prop_index(e.props, call.member);
            if call.sig == Sig::Unit {
                &&& post.objects == pre.objects
                &&& post.next_serial == wrap_next(pre.next_serial)
                &&& out == seq![
                    reply_model(
                        call,
                        pre.next_serial,
                        sig_of(e.props[pj].value),
                        spec_encode(e.props[pj].value),
                    ),
                ]
            } else {
                match spec_decode(call.sig, call.body) {
                    Some(v) => {
                        &&& post.objects == pre.objects.update(
                            j,
                            EntryModel {
                                props: e.props.update(
                                    pj,
                                    PropModel {
                                        name: e.props[pj].name,
                                        value: v,
                                        version: bump_version(e.props[pj].version),
                                    },
                                ),
                                ..e
                            },
                        )
                        &&& post.next_serial == wrap_next(wrap_next(pre.next_serial))
                        &&& out == prop_set_out(call, pre.next_serial, v)
                    },
                    None => {
                        &&& post.objects == pre.objects
                        &&& post.next_serial == wrap_next(pre.next_serial)
                        &&& out == seq![error_model(call, pre.next_serial, "value does not decode"@)]
                    },
                }
            }
        } else {
            &&& post.objects.len() == pre.objects.len()
            &&& post.objects[j].path == e.path
            &&& post.objects[j].interface == e.interface
            &&& post.objects[j].props == e.props
            &&& forall|k: int|
                0 <= k < pre.objects.len() && k != j ==> post.objects[k] == pre.objects[k]
            &&& exists|om: OutcomeModel|
                {
                    &&& #[trigger] Interface::handled(
                        e.handler,
                        call.member,
                        call.sig,
                        call.body,
                        post.objects[j].handler,
                        om,
                    )
                    &&& out == outbound_of(om, call, pre.next_serial)
                    &&& post.next_serial == wrap_add(pre.next_serial, om.signals.len() + 1)
                }
        }
    }
}

impl<H: Interface> ObjectServer<H> {
    /// An empty registry.
    pub fn new() -> (s: ObjectServer<H>)
        ensures
            s@.objects.len() == 0,
            s@.next_serial == 0,
            s@.wf(),
    {
        let s = ObjectServer { objects: Vec::new(), next_serial: 0 };
        proof {
            assert(s@.objects =~= Seq::<EntryModel<H>>::empty());
        }
        s
    }

    /// How many objects are registered.
    pub fn objects_len(&self) -> (r: usize)
        ensures
            r == self@.objects.len(),
    {
        self.objects.len()
    }

    /// Allocate one outbound serial.
    fn alloc_serial(&mut self) -> (r: u32)
        ensures
            r == old(self)@.next_serial,
            final(self)@.next_serial == wrap_next(old(self)@.next_serial),
            final(self)@.objects == old(self)@.objects,
    {
        let r = self.next_serial;
        self.next_serial = if self.next_serial == u32::MAX {
            0
        } else {
            self.next_serial + 1
        };
        r
    }

    /// Where `(path, interface)` is registered, if anywhere.
    fn find_index(&self, path: &str, interface: &str) -> (r: Option<usize>)
        requires
            self@.wf(),
        ensures
            r matches Some(j) ==> {
                &&& j < self@.objects.len()
                &&& self@.objects[j as int].path == path@
                &&& self@.objects[j as int].interface == interface@
                &&& model_has(self@.objects, path@, interface@)
                &&& j as int == model_index(self@.objects, path@, interface@)
            },
            r is None <==> !model_has(self@.objects, path@, interface@),
    {
        let n = self.objects.len();
        let mut j: usize = 0;
        while j < n
            invariant
                self@.wf(),
                n == self.objects.len(),
                j <= n,
                forall|k: int|
                    0 <= k < j ==> !(self@.objects[k].path == path@ && self@.objects[k].interface
                        == interface@),
            decreases n - j,
        {
            if str_eq(self.objects[j].path.as_str(), path) && str_eq(
                self.objects[j].interface.as_str(),
                interface,
            ) {
                proof {
                    let cj = model_index(self@.objects, path@, interface@);
                    assert(self@.objects[j as int].path == path@ && self@.objects[j as int].interface
                        == interface@);
                    assert(model_has(self@.objects, path@, interface@));
                    assert(0 <= cj < self@.objects.len() && self@.objects[cj].path == path@
                        && self@.objects[cj].interface == interface@);
                    if cj < j as int {
                        assert(!(self@.objects[cj].path == self@.objects[j as int].path
                            && self@.objects[cj].interface == self@.objects[j as int].interface));
                    }
                    if (j as int) < cj {
                        assert(!(self@.objects[j as int].path == self@.objects[cj].path
                            && self@.objects[j as int].interface == self@.objects[cj].interface));
                    }
                    assert(cj == j as int);
                }
                return Some(j);
            }
            j = j + 1;
        }
        proof {
            assert(!model_has(self@.objects, path@, interface@)) by {
                if model_has(self@.objects, path@, interface@) {
                    let w = model_index(self@.objects, path@, interface@);
                    assert(!(self@.objects[w].path == path@ && self@.objects[w].interface
                        == interface@));
                }
            }
        }
        None
    }

    /// Where the object at `j` declares the property `name`, if anywhere.
    fn find_prop(&self, j: usize, name: &str) -> (r: Option<usize>)
        requires
            self@.wf(),
            j < self@.objects.len(),
        ensures
            r matches Some(p) ==> {
                &&& p < self@.objects[j as int].props.len()
                &&& self@.objects[j as int].props[p as int].name == name@
                &&& prop_has(self@.objects[j as int].props, name@)
                &&& p as int == prop_index(self@.objects[j as int].props, name@)
            },
            r is None <==> !prop_has(self@.objects[j as int].props, name@),
    {
        let n = self.objects[j].props.len();
        let mut p: usize = 0;
        while p < n
            invariant
                self@.wf(),
                j < self@.objects.len(),
                j < self.objects@.len(),
                n == self.objects@[j as int].props.len(),
                p <= n,
                forall|k: int| 0 <= k < p ==> self@.objects[j as int].props[k].name != name@,
            decreases n - p,
        {
            if str_eq(self.objects[j].props[p].name.as_str(), name) {
                proof {
                    let props = self@.objects[j as int].props;
                    let cp = prop_index(props, name@);
                    assert(props[p as int].name == name@);
                    assert(prop_has(props, name@));
                    assert(0 <= cp < props.len() && props[cp].name == name@);
                    if cp < p as int {
                        assert(props[cp].name != props[p as int].name);
                    }
                    if (p as int) < cp {
                        assert(props[p as int].name != props[cp].name);
                    }
                    assert(cp == p as int);
                }
                return Some(p);
            }
            p = p + 1;
        }
        proof {
            let props = self@.objects[j as int].props;
            assert(!prop_has(props, name@)) by {
                if prop_has(props, name@) {
                    let w = prop_index(props, name@);
                    assert(props[w].name != name@);
                }
            }
        }
        None
    }

    /// Register a handler for `(path, interface)`; refused with
    /// `DuplicateObject` exactly when the pair is already registered, and
    /// then nothing changes.
    pub fn add_object(&mut self, path: &str, interface: &str, handler: H) -> (r: Result<
        (),
        RegError,
    >)
        requires
            old(self)@.wf(),
        ensures
            final(self)@.wf(),
            final(self)@.next_serial == old(self)@.next_serial,
            r is Ok <==> !model_has(old(self)@.objects, path@, interface@),
            r is Err ==> r == Err::<(), RegError>(RegError::DuplicateObject) && final(self)@
                == old(self)@,
            r is Ok ==> final(self)@.objects == spec_add(
                old(self)@.objects,
                path@,
                interface@,
                handler,
            ),
    {
        match self.find_index(path, interface) {
            Some(_) => Err(RegError::DuplicateObject),
            None => {
                self.objects.push(
                    ObjectEntry {
                        path: path.to_owned(),
                        interface: interface.to_owned(),
                        handler,
                        props: Vec::new(),
                    },
                );
                proof {
                    let s0 = old(self)@.objects;
                    let s1 = self@.objects;
                    assert(s1[s1.len() - 1].props =~= Seq::<PropModel>::empty());
                    assert(s1 =~~= spec_add(s0, path@, interface@, handler));
                    assert forall|a: int, b: int| 0 <= a < b < s1.len() implies !(s1[a].path
                        == s1[b].path && s1[a].interface == s1[b].interface) by {
                        if b == s1.len() - 1 {
                            if s1[a].path == path@ && s1[a].interface == interface@ {
                                assert(model_has(s0, path@, interface@));
                            }
                        } else {
                            assert(!(s0[a].path == s0[b].path && s0[a].interface
                                == s0[b].interface));
                        }
                    }
                    assert forall|a: int, x: int, y: int|
                        0 <= a < s1.len() && 0 <= x < y < s1[a].props.len() implies s1[a].props[x].name
                        != s1[a].props[y].name by {
                        if a < s1.len() - 1 {
                            assert(0 <= x < y < s0[a].props.len());
                            assert(s0[a].props[x].name != s0[a].props[y].name);
                        }
                    }
                }
                Ok(())
            },
        }
    }

    /// Detach whatever is registered under `(path, interface)`; absent
    /// pairs are left alone, so removal is idempotent.
    pub fn remove_object(&mut self, path: &str, interface: &str)
        requires
            old(self)@.wf(),
        ensures
            final(self)@.wf(),
            final(self)@.next_serial == old(self)@.next_serial,
            final(self)@.objects == spec_remove_obj(old(self)@.objects, path@, interface@),
    {
        match self.find_index(path, interface) {
            Some(j) => {
                self.objects.remove(j);
                proof {
                    let s0 = old(self)@.objects;
                    let s1 = self@.objects;
                    old(self).objects@.remove_ensures(j as int);
                    s0.remove_ensures(j as int);
                    assert(s1 =~~= s0.remove(j as int));
                    assert(s1 == spec_remove_obj(s0, path@, interface@));
                    assert forall|a: int, b: int| 0 <= a < b < s1.len() implies !(s1[a].path
                        == s1[b].path && s1[a].interface == s1[b].interface) by {
                        let a0 = if a < j as int {
                            a
                        } else {
                            a + 1
                        };
                        let b0 = if b < j as int {
                            b
                        } else {
                            b + 1
                        };
                        assert(s1[a] == s0[a0]);
                        assert(s1[b] == s0[b0]);
                        assert(!(s0[a0].path == s0[b0].path && s0[a0].interface
                            == s0[b0].interface));
                    }
                    assert forall|a: int, x: int, y: int|
                        0 <= a < s1.len() && 0 <= x < y < s1[a].props.len() implies s1[a].props[x].name
                        != s1[a].props[y].name by {
                        let a0 = if a < j as int {
                            a
                        } else {
                            a + 1
                        };
                        assert(s1[a] == s0[a0]);
                        assert(s0[a0].props[x].name != s0[a0].props[y].name);
                    }
                }
            },
            None => {},
        }
    }

    /// Declare a property on a registered object, with its starting value
    /// and change counter zero.
    pub fn add_property(&mut self, path: &str, interface: &str, name: &str, initial: Value) -> (r:
        Result<(), RegError>)
        requires
            old(self)@.wf(),
        ensures
            final(self)@.wf(),
            final(self)@.next_serial == old(self)@.next_serial,
            r is Err ==> final(self)@ == old(self)@,
            !model_has(old(self)@.objects, path@, interface@) <==> r == Err::<(), RegError>(
                RegError::NoSuchObject,
            ),
            ({
                let j = model_index(old(self)@.objects, path@, interface@);
                &&& (model_has(old(self)@.objects, path@, interface@) && prop_has(
                    old(self)@.objects[j].props,
                    name@,
                )) <==> r == Err::<(), RegError>(RegError::DuplicateProperty)
                &&& r is Ok <==> (model_has(old(self)@.objects, path@, interface@) && !prop_has(
                    old(self)@.objects[j].props,
                    name@,
                ))
                &&& r is Ok ==> final(self)@.objects == old(self)@.objects.update(
                    j,
                    EntryModel {
                        props: old(self)@.objects[j].props.push(
                            PropModel { name: name@, value: initial@, version: 0 },
                        ),
                        ..old(self)@.objects[j]
                    },
                )
            }),
    {
        let j = match self.find_index(path, interface) {
            Some(j) => j,
            None => {
                return Err(RegError::NoSuchObject);
            },
        };
        match self.find_prop(j, name) {
            Some(_) => Err(RegError::DuplicateProperty),
            None => {
                let ghost s0 = self@.objects;
                let e = &mut self.objects[j];
                e.props.push(Prop { name: name.to_owned(), value: initial, version: 0 });
                proof {
                    let s1 = self@.objects;
                    assert(s1[j as int].props =~~= s0[j as int].props.push(
                        PropModel { name: name@, value: initial@, version: 0 },
                    ));
                    assert(s1 =~~= s0.update(
                        j as int,
                        EntryModel {
                            props: s0[j as int].props.push(
                                PropModel { name: name@, value: initial@, version: 0 },
                            ),
                            ..s0[j as int]
                        },
                    ));
                    assert forall|a: int, b: int| 0 <= a < b < s1.len() implies !(s1[a].path
                        == s1[b].path && s1[a].interface == s1[b].interface) by {
                        assert(s1[a].path == s0[a].path && s1[a].interface == s0[a].interface);
                        assert(s1[b].path == s0[b].path && s1[b].interface == s0[b].interface);
                        assert(!(s0[a].path == s0[b].path && s0[a].interface == s0[b].interface));
                    }
                    assert forall|a: int, x: int, y: int|
                        0 <= a < s1.len() && 0 <= x < y < s1[a].props.len() implies s1[a].props[x].name
                        != s1[a].props[y].name by {
                        if a == j as int {
                            if y == s1[a].props.len() - 1 {
                                assert(!prop_has(s0[j as int].props, name@));
                                if s0[j as int].props[x].name == name@ {
                                    assert(prop_has(s0[j as int].props, name@));
                                }
                            } else {
                                assert(s0[a].props[x].name != s0[a].props[y].name);
                            }
                        } else {
                            assert(s1[a] == s0[a]);
                            assert(s0[a].props[x].name != s0[a].props[y].name);
                        }
                    }
                }
                Ok(())
            },
        }
    }

    /// Read a property's current value.
    pub fn get_property(&self, path: &str, interface: &str, name: &str) -> (r: Result<
        Value,
        RegError,
    >)
        requires
            self@.wf(),
        ensures
            !model_has(self@.objects, path@, interface@) <==> r == Err::<Value, RegError>(
                RegError::NoSuchObject,
            ),
            ({
                let j = model_index(self@.objects, path@, interface@);
                let props = self@.objects[j].props;
                &&& (model_has(self@.objects, path@, interface@) && !prop_has(props, name@)) <==> r
                    == Err::<Value, RegError>(RegError::NoSuchProperty)
                &&& r is Ok <==> (model_has(self@.objects, path@, interface@) && prop_has(
                    props,
                    name@,
                ))
                &&& r matches Ok(v) ==> v@ == props[prop_index(props, name@)].value
            }),
    {
        let j = match self.find_index(path, interface) {
            Some(j) => j,
            None => {
                return Err(RegError::NoSuchObject);
            },
        };
        match self.find_prop(j, name) {
            Some(p) => Ok(self.objects[j].props[p].value.dup()),
            None => Err(RegError::NoSuchProperty),
        }
    }

    /// How often a property has been written.
    pub fn property_version(&self, path: &str, interface: &str, name: &str) -> (r: Result<
        u64,
        RegError,
    >)
        requires
            self@.wf(),
        ensures
            !model_has(self@.objects, path@, interface@) <==> r == Err::<u64, RegError>(
                RegError::NoSuchObject,
            ),
            ({
                let j = model_index(self@.objects, path@, interface@);
                let props = self@.objects[j].props;
                &&& (model_has(self@.objects, path@, interface@) && !prop_has(props, name@)) <==> r
                    == Err::<u64, RegError>(RegError::NoSuchProperty)
                &&& r is Ok <==> (model_has(self@.objects, path@, interface@) && prop_has(
                    props,
                    name@,
                ))
                &&& r matches Ok(v) ==> v == props[prop_index(props, name@)].version
            }),
    {
        let j = match self.find_index(path, interface) {
            Some(j) => j,
            None => {
                return Err(RegError::NoSuchObject);
            },
        };
        match self.find_prop(j, name) {
            Some(p) => Ok(self.objects[j].props[p].version),
            None => Err(RegError::NoSuchProperty),
        }
    }

    /// Write a property: the value is stored, the change counter moves,
    /// and exactly one change signal carrying the new value comes back for
    /// broadcast — notification is unconditional, whether or not the value
    /// actually changed.
    pub fn set_property(&mut self, path: &str, interface: &str, name: &str, v: Value) -> (r:
        Result<Message, RegError>)
        requires
            old(self)@.wf(),
        ensures
            final(self)@.wf(),
            !model_has(old(self)@.objects, path@, interface@) <==> r == Err::<Message, RegError>(
                RegError::NoSuchObject,
            ),
            ({
                let j = model_index(old(self)@.objects, path@, interface@);
                let props = old(self)@.objects[j].props;
                let pj = prop_index(props, name@);
                &&& (model_has(old(self)@.objects, path@, interface@) && !prop_has(props, name@))
                    <==> r == Err::<Message, RegError>(RegError::NoSuchProperty)
                &&& r is Ok <==> (model_has(old(self)@.objects, path@, interface@) && prop_has(
                    props,
                    name@,
                ))
                &&& r is Err ==> final(self)@ == old(self)@
                &&& r matches Ok(m) ==> {
                    &&& m@ == signal_model(path@, interface@, name@, old(self)@.next_serial, v@)
                    &&& m@.wf()
                    &&& final(self)@.objects == old(self)@.objects.update(
                        j,
                        EntryModel {
                            props: props.update(
                                pj,
                                PropModel {
                                    name: props[pj].name,
                                    value: v@,
                                    version: bump_version(props[pj].version),
                                },
                            ),
                            ..old(self)@.objects[j]
                        },
                    )
                    &&& final(self)@.next_serial == wrap_next(old(self)@.next_serial)
                }
            }),
    {
        let j = match self.find_index(path, interface) {
            Some(j) => j,
            None => {
                return Err(RegError::NoSuchObject);
            },
        };
        let p = match self.find_prop(j, name) {
            Some(p) => p,
            None => {
                return Err(RegError::NoSuchProperty);
            },
        };
        let serial = self.alloc_serial();
        let sig = v.sig();
        let body = encode_value(&v);
        let m = Message::new_signal(serial, path, interface, name, sig, body);
        let ghost s0 = old(self)@.objects;
        let e = &mut self.objects[j];
        let pr = &mut e.props[p];
        pr.value = v;
        pr.version = if pr.version == u64::MAX {
            pr.version
        } else {
            pr.version + 1
        };
        proof {
            let s1 = self@.objects;
            let props = s0[j as int].props;
            let pj = p as int;
            assert(s1[j as int].props[pj] =~~= PropModel {
                name: props[pj].name,
                value: v@,
                version: bump_version(props[pj].version),
            });
            assert(s1[j as int].props =~~= props.update(
                pj,
                PropModel {
                    name: props[pj].name,
                    value: v@,
                    version: bump_version(props[pj].version),
                },
            ));
            assert(s1 =~~= s0.update(
                j as int,
                EntryModel {
                    props: props.update(
                        pj,
                        PropModel {
                            name: props[pj].name,
                            value: v@,
                            version: bump_version(props[pj].version),
                        },
                    ),
                    ..s0[j as int]
                },
            ));
            assert forall|a: int, b: int| 0 <= a < b < s1.len() implies !(s1[a].path == s1[b].path
                && s1[a].interface == s1[b].interface) by {
                assert(s1[a].path == s0[a].path && s1[a].interface == s0[a].interface);
                assert(s1[b].path == s0[b].path && s1[b].interface == s0[b].interface);
                assert(!(s0[a].path == s0[b].path && s0[a].interface == s0[b].interface));
            }
            assert forall|a: int, x: int, y: int|
                0 <= a < s1.len() && 0 <= x < y < s1[a].props.len() implies s1[a].props[x].name
                != s1[a].props[y].name by {
                assert(s1[a].props.len() == s0[a].props.len());
                assert(s1[a].props[x].name == s0[a].props[x].name);
                assert(s1[a].props[y].name == s0[a].props[y].name);
                assert(s0[a].props[x].name != s0[a].props[y].name);
            }
        }
        Ok(m)
    }

    /// Serve one inbound call, as the connection's read loop does for kind
    /// `Call`: the returned messages go out on the transport, in order. An
    /// unregistered `(path, interface)` pair is answered with nothing and
    /// the caller's bound fails the call; a member naming a property is
    /// served as a read (unit payload) or a write (any other payload);
    /// every other member goes to the object's handler, whose signals
    /// precede its single reply or error.
    pub fn dispatch_call(&mut self, call: &Message) -> (out: Vec<Message>)
        requires
            old(self)@.wf(),
            call@.kind == MessageKind::Call,
        ensures
            final(self)@.wf(),
            spec_dispatch_post(old(self)@, call@, final(self)@, msgs_model(out@)),
    {
        let j = match self.find_index(call.path.as_str(), call.interface.as_str()) {
            None => {
                let out: Vec<Message> = Vec::new();
                proof {
                    assert(msgs_model(out@) =~= Seq::<MessageModel>::empty());
                }
                return out;
            },
            Some(j) => j,
        };
        let ghost pre = old(self)@;
        let ghost jj = j as int;
        match self.find_prop(j, call.member.as_str()) {
            Some(p) => {
                if call.sig == Sig::Unit {
                    let serial = self.alloc_serial();
                    let value = self.objects[j].props[p].value.dup();
                    let vsig = value.sig();
                    let body = encode_value(&value);
                    let m = Message::new_reply(serial, call, vsig, body);
                    let mut out: Vec<Message> = Vec::new();
                    out.push(m);
                    proof {
                        let e = pre.objects[jj];
                        let pj = prop_index(e.props, call@.member);
                        assert(pj == p as int);
                        assert(msgs_model(out@) =~~= seq![
                            reply_model(
                                call@,
                                pre.next_serial,
                                sig_of(e.props[pj].value),
                                spec_encode(e.props[pj].value),
                            ),
                        ]);
                    }
                    out
                } else {
                    match decode_value(call.sig, &call.body) {
                        Ok(v) => {
                            let ghost vm = v@;
                            let r = self.set_property(
                                call.path.as_str(),
                                call.interface.as_str(),
                                call.member.as_str(),
                                v,
                            );
                            let m1 = match r {
                                Ok(m1) => m1,
                                Err(_) => {
                                    proof {
                                        assert(false);
                                    }
                                    Message::new_error(0, call, "")
                                },
                            };
                            let s2 = self.alloc_serial();
                            let m2 = Message::new_reply(s2, call, Sig::Unit, Vec::new());
                            let mut out: Vec<Message> = Vec::new();
                            out.push(m1);
                            out.push(m2);
                            proof {
                                assert(msgs_model(out@) =~~= prop_set_out(
                                    call@,
                                    pre.next_serial,
                                    vm,
                                ));
                            }
                            out
                        },
                        Err(_) => {
                            let s = self.alloc_serial();
                            let m = Message::new_error(s, call, "value does not decode");
                            let mut out: Vec<Message> = Vec::new();
                            out.push(m);
                            proof {
                                assert(msgs_model(out@) =~~= seq![
                                    error_model(call@, pre.next_serial, "value does not decode"@),
                                ]);
                            }
                            out
                        },
                    }
                }
            },
            None => {
                let e = &mut self.objects[j];
                let outcome = e.handler.handle_call(call.member.as_str(), call.sig, &call.body);
                proof {
                    assert forall|a: int|
                        0 <= a < self@.objects.len() implies self@.objects[a].path
                        == pre.objects[a].path && self@.objects[a].interface
                        == pre.objects[a].interface && self@.objects[a].props
                        == pre.objects[a].props by {
                        assert(self.objects@[a] == if a == jj {
                            self.objects@[jj]
                        } else {
                            old(self).objects@[a]
                        });
                    }
                    assert forall|a: int, b: int|
                        0 <= a < b < self@.objects.len() implies !(self@.objects[a].path
                        == self@.objects[b].path && self@.objects[a].interface
                        == self@.objects[b].interface) by {
                        assert(!(pre.objects[a].path == pre.objects[b].path
                            && pre.objects[a].interface == pre.objects[b].interface));
                    }
                    assert forall|a: int, x: int, y: int|
                        0 <= a < self@.objects.len() && 0 <= x < y
                            < self@.objects[a].props.len() implies self@.objects[a].props[x].name
                        != self@.objects[a].props[y].name by {
                        assert(self@.objects[a].props == pre.objects[a].props);
                        assert(pre.objects[a].props[x].name != pre.objects[a].props[y].name);
                    }
                }
                let ghost mid = self@;
                let ghost serial0 = self@.next_serial;
                let ghost target = outbound_of(outcome@, call@, serial0);
                let n = outcome.signals.len();
                let mut out: Vec<Message> = Vec::new();
                let mut k: usize = 0;
                while k < n
                    invariant
                        mid.wf(),
                        n == outcome.signals.len(),
                        n == outcome@.signals.len(),
                        k <= n,
                        out@.len() == k,
                        self@.objects == mid.objects,
                        serial0 == mid.next_serial,
                        self@.next_serial == wrap_add(serial0, k as nat),
                        target == outbound_of(outcome@, call@, serial0),
                        call@.kind == MessageKind::Call,
                        forall|i: int| 0 <= i < k ==> msgs_model(out@)[i] == target[i],
                    decreases n - k,
                {
                    let s = self.alloc_serial();
                    let vsig = outcome.signals[k].1.sig();
                    let body = encode_value(&outcome.signals[k].1);
                    let m = Message::new_signal(
                        s,
                        call.path.as_str(),
                        call.interface.as_str(),
                        outcome.signals[k].0.as_str(),
                        vsig,
                        body,
                    );
                    out.push(m);
                    proof {
                        assert(outcome@.signals[k as int] == (
                            outcome.signals@[k as int].0@,
                            outcome.signals@[k as int].1@,
                        ));
                        assert(msgs_model(out@)[k as int] =~~= target[k as int]);
                    }
                    k = k + 1;
                }
                let s = self.alloc_serial();
                let m = match &outcome.reply {
                    Ok(v) => {
                        let vsig = v.sig();
                        let body = encode_value(v);
                        Message::new_reply(s, call, vsig, body)
                    },
                    Err(t) => Message::new_error(s, call, t.as_str()),
                };
                out.push(m);
                proof {
                    assert(msgs_model(out@)[n as int] =~~= target[n as int]);
                    assert(msgs_model(out@) =~= target);
                    assert(Interface::handled(
                        pre.objects[jj].handler,
                        call@.member,
                        call@.sig,
                        call@.body,
                        self@.objects[jj].handler,
                        outcome@,
                    ));
                    assert(self@.next_serial == wrap_add(pre.next_serial, outcome@.signals.len()
                        + 1));
                    assert(spec_dispatch_post(pre, call@, self@, msgs_model(out@)));
                }
                out
            },
        }
    }
}

/// Where one inbound message went, as the dispatch loop sees it.
pub enum Handled {
    /// A call was dispatched; these messages go back out on the
    /// transport, in order.
    Outbound(Vec<Message>),
    /// A reply or error landed on the pending-call table.
    Answer(crate::connection::Routed),
    /// A signal fanned out to this many local subscriptions.
    Delivered(usize),
}

/// The dispatch loop's one step: read one message from the transport and
/// route it — a reply or error resolves the matching pending call (a
/// stray one is dropped without harm), a call is looked up in the object
/// server and answered, a signal is forwarded to every live matching
/// subscription.
pub fn route_inbound<H: Interface>(
    conn: &mut crate::connection::Connection,
    server: &mut ObjectServer<H>,
    m: &Message,
) -> (r: Handled)
    requires
        old(conn)@.wf(),
        old(server)@.wf(),
        m@.wf(),
    ensures
        final(conn)@.wf(),
        final(server)@.wf(),
        m@.kind == MessageKind::Call ==> {
            &&& final(conn)@ == old(conn)@
            &&& r matches Handled::Outbound(out) && spec_dispatch_post(
                old(server)@,
                m@,
                final(server)@,
                msgs_model(out@),
            )
        },
        (m@.kind == MessageKind::Reply || m@.kind == MessageKind::Error) ==> {
            &&& final(server)@ == old(server)@
            &&& final(conn)@.pending == crate::connection::spec_resolve(
                old(conn)@.pending,
                m@.reply_to->Some_0,
            )
            &&& final(conn)@.subs == old(conn)@.subs
            &&& r is Answer
        },
        m@.kind == MessageKind::Signal ==> {
            &&& final(server)@ == old(server)@
            &&& final(conn)@.subs == crate::connection::spec_deliver(old(conn)@.subs, m@)
            &&& final(conn)@.pending == old(conn)@.pending
            &&& r matches Handled::Delivered(n) && n == crate::connection::count_receivers(
                old(conn)@.subs,
                m@,
            )
        },
{
    match m.kind {
        MessageKind::Call => Handled::Outbound(server.dispatch_call(m)),
        MessageKind::Reply => Handled::Answer(conn.accept_reply(m)),
        MessageKind::Error => Handled::Answer(conn.accept_reply(m)),
        MessageKind::Signal => Handled::Delivered(conn.accept_signal(m)),
    }
}

/// Registering a pair that is already present is refused, and after its
/// removal registration is accepted again: adding `(path, interface)` to a
/// registry without it makes the pair present (so `add_object` then fails
/// with `DuplicateObject`), and removing it afterwards restores the
/// registry exactly.
pub proof fn lemma_duplicate_registration<H>(
    objs: Seq<EntryModel<H>>,
    p: Seq<char>,
    i: Seq<char>,
    h: H,
)
    requires
        !model_has(objs, p, i),
    ensures
        model_has(spec_add(objs, p, i, h), p, i),
        spec_remove_obj(spec_add(objs, p, i, h), p, i) == objs,
{
    let s1 = spec_add(objs, p, i, h);
    let n = objs.len() as int;
    assert(s1[n].path == p && s1[n].interface == i);
    assert(model_has(s1, p, i));
    let j = model_index(s1, p, i);
    assert(0 <= j < s1.len() && s1[j].path == p && s1[j].interface == i);
    if j < n {
        assert(model_has(objs, p, i));
    }
    assert(j == n);
    s1.remove_ensures(j);
    assert(s1.remove(j) =~~= objs);
}

/// A dispatched call is answered exactly once: of everything a handler's
/// outcome sends, only the last message is a reply or an error, it names
/// the call's serial, and the broadcasts before it answer nothing.
pub proof fn lemma_one_reply_per_call(om: OutcomeModel, call: MessageModel, serial0: u32)
    ensures
        ({
            let out = outbound_of(om, call, serial0);
            &&& out.len() == om.signals.len() + 1
            &&& (out.last().kind == MessageKind::Reply || out.last().kind == MessageKind::Error)
            &&& out.last().reply_to == Some(call.serial)
            &&& forall|k: int|
                0 <= k < out.len() - 1 ==> (#[trigger] out[k].kind) == MessageKind::Signal
                    && out[k].reply_to is None
        }),
{
}

/// A property write notifies before it answers: among the messages a
/// property-set dispatch sends there is exactly one signal, it carries the
/// new value under the property's name, and it stands before the write's
/// own reply in the outbound order.
pub proof fn lemma_property_set_notifies(call: MessageModel, serial0: u32, v: ValueModel)
    ensures
        ({
            let out = prop_set_out(call, serial0, v);
            &&& out.len() == 2
            &&& out[0].kind == MessageKind::Signal
            &&& out[0].path == call.path
            &&& out[0].interface == call.interface
            &&& out[0].member == call.member
            &&& out[0].body == spec_encode(v)
            &&& out[0].sig == sig_of(v)
            &&& out[1].kind == MessageKind::Reply
            &&& out[1].reply_to == Some(call.serial)
            &&& forall|k: int|
                0 <= k < out.len() && #[trigger] out[k].kind == MessageKind::Signal ==> k == 0
        }),
{
}

} // verus!

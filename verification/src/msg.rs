//! The message envelope: everything that crosses the transport is one of
//! these, and every call is answered by exactly one reply or error whose
//! `reply_to` names the call's serial.

use vstd::prelude::*;
use vstd::slice::slice_to_vec;

use crate::value::Sig;

verus! {

/// What a message is: a method call, the reply or error it provoked, or a
/// broadcast signal.
#[derive(Clone, Copy, PartialEq, Eq, Structural, Debug)]
pub enum MessageKind {
    Call,
    Reply,
    Error,
    Signal,
}

/// The envelope carried by the transport.
#[derive(Debug)]
pub struct Message {
    pub kind: MessageKind,
    pub path: String,
    pub interface: String,
    pub member: String,
    pub serial: u32,
    pub reply_to: Option<u32>,
    pub sig: Sig,
    pub body: Vec<u8>,
}

/// Mathematical model of a message.
#[verifier::ext_equal]
pub struct MessageModel {
    pub kind: MessageKind,
    pub path: Seq<char>,
    pub interface: Seq<char>,
    pub member: Seq<char>,
    pub serial: u32,
    pub reply_to: Option<u32>,
    pub sig: Sig,
    pub body: Seq<u8>,
}

impl View for Message {
    type V = MessageModel;

    open spec fn view(&self) -> MessageModel {
        MessageModel {
            kind: self.kind,
            path: self.path@,
            interface: self.interface@,
            member: self.member@,
            serial: self.serial,
            reply_to: self.reply_to,
            sig: self.sig,
            body: self.body@,
        }
    }
}

impl MessageModel {
    /// Calls and signals open a correlation; only replies and errors
    /// answer one, and then always name it.
    pub open spec fn wf(self) -> bool {
        match self.kind {
            MessageKind::Call => self.reply_to is None,
            MessageKind::Signal => self.reply_to is None,
            MessageKind::Reply => self.reply_to is Some,
            MessageKind::Error => self.reply_to is Some,
        }
    }
}

/// An independent copy of a byte string.
pub fn copy_bytes(b: &Vec<u8>) -> (r: Vec<u8>)
    ensures
        r@ == b@,
{
    slice_to_vec(b.as_slice())
}

impl Message {
    /// A method call addressed to `(path, interface, member)`, opened
    /// under `serial`.
    pub fn new_call(
        serial: u32,
        path: &str,
        interface: &str,
        member: &str,
        sig: Sig,
        body: Vec<u8>,
    ) -> (m: Message)
        ensures
            m@.kind == MessageKind::Call,
            m@.path == path@,
            m@.interface == interface@,
            m@.member == member@,
            m@.serial == serial,
            m@.reply_to is None,
            m@.sig == sig,
            m@.body == body@,
            m@.wf(),
    {
        Message {
            kind: MessageKind::Call,
            path: path.to_owned(),
            interface: interface.to_owned(),
            member: member.to_owned(),
            serial,
            reply_to: None,
            sig,
            body,
        }
    }

    /// The reply that answers `call`, carrying the result payload.
    pub fn new_reply(serial: u32, call: &Message, sig: Sig, body: Vec<u8>) -> (m: Message)
        ensures
            m@.kind == MessageKind::Reply,
            m@.path == call@.path,
            m@.interface == call@.interface,
            m@.member == call@.member,
            m@.serial == serial,
            m@.reply_to == Some(call@.serial),
            m@.sig == sig,
            m@.body == body@,
            m@.wf(),
    {
        Message {
            kind: MessageKind::Reply,
            path: call.path.clone(),
            interface: call.interface.clone(),
            member: call.member.clone(),
            serial,
            reply_to: Some(call.serial),
            sig,
            body,
        }
    }

    /// The error that answers `call`, carrying the error text.
    pub fn new_error(serial: u32, call: &Message, text: &str) -> (m: Message)
        ensures
            m@.kind == MessageKind::Error,
            m@.path == call@.path,
            m@.interface == call@.interface,
            m@.member == call@.member,
            m@.serial == serial,
            m@.reply_to == Some(call@.serial),
            m@.sig == Sig::Str,
            m@.body == vstd::utf8::encode_utf8(text@),
            m@.wf(),
    {
        Message {
            kind: MessageKind::Error,
            path: call.path.clone(),
            interface: call.interface.clone(),
            member: call.member.clone(),
            serial,
            reply_to: Some(call.serial),
            sig: Sig::Str,
            body: crate::value::encode_value(&crate::value::Value::Str(text.to_owned())),
        }
    }

    /// A broadcast signal from `(path, interface, member)`: fire and
    /// forget, never answered.
    pub fn new_signal(
        serial: u32,
        path: &str,
        interface: &str,
        member: &str,
        sig: Sig,
        body: Vec<u8>,
    ) -> (m: Message)
        ensures
            m@.kind == MessageKind::Signal,
            m@.path == path@,
            m@.interface == interface@,
            m@.member == member@,
            m@.serial == serial,
            m@.reply_to is None,
            m@.sig == sig,
            m@.body == body@,
            m@.wf(),
    {
        Message {
            kind: MessageKind::Signal,
            path: path.to_owned(),
            interface: interface.to_owned(),
            member: member.to_owned(),
            serial,
            reply_to: None,
            sig,
            body,
        }
    }
}

} // verus!

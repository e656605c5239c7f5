//! The sample interface the kernel ships with: a greeter that answers
//! `say_hello`, draws a bounded random number, broadcasts a signal on
//! request, and keeps its name in a property served by the object server.

use rand::Rng;
use vstd::prelude::*;
use vstd::string::StringExecFns;

use crate::server::CallOutcome;
use crate::server::Interface;
use crate::server::OutcomeModel;
use crate::value::decode_value;
use crate::value::spec_decode;
use crate::value::str_eq;
use crate::value::Sig;
use crate::value::Value;
use crate::value::ValueModel;

verus! {

/// Relies on `rand::Rng::gen_range` over `rand::thread_rng()`: with the
/// nonempty range `0..bound` it returns a value of that range. Which value
/// comes back depends on the generator's state, so only the bound is
/// stated.
#[verifier::external_body]
pub(crate) fn random_below(bound: u32) -> (r: u32)
    requires
        bound > 0,
    ensures
        r < bound,
{
    rand::thread_rng().gen_range(0..bound)
}

/// The greeting owed to `name`.
pub open spec fn greeting_of(name: Seq<char>) -> Seq<char> {
    "Hello "@ + name + "!"@
}

/// Compose the greeting for `name`.
pub fn hello_string(name: &str) -> (r: String)
    ensures
        r@ == greeting_of(name@),
{
    String::from_str("Hello ").concat(name).concat("!")
}

/// The greeter itself is stateless: its name property lives in the object
/// server's property table.
pub struct Greeter;

impl Greeter {
    /// Draw this round's number: always below one hundred.
    pub fn random_number(&self) -> (r: u32)
        ensures
            r < 100,
    {
        random_below(100)
    }
}

impl Interface for Greeter {
    /// `say_hello` answers the greeting for the string argument and an
    /// error for anything else; `random_number` answers some number below
    /// one hundred; `generate_random_notify` broadcasts the
    /// `generate_random` signal and answers with unit; every other member
    /// is answered with an error. Only `generate_random_notify` signals.
    open spec fn handled(
        pre: Greeter,
        member: Seq<char>,
        sig: Sig,
        body: Seq<u8>,
        post: Greeter,
        out: OutcomeModel,
    ) -> bool {
        if member == "say_hello"@ {
            match spec_decode(sig, body) {
                Some(ValueModel::Str(n)) => {
                    &&& out.reply == Ok::<ValueModel, Seq<char>>(ValueModel::Str(greeting_of(n)))
                    &&& out.signals.len() == 0
                },
                _ => out.reply is Err && out.signals.len() == 0,
            }
        } else if member == "random_number"@ {
            &&& out.reply matches Ok(ValueModel::U32(k)) && k < 100
            &&& out.signals.len() == 0
        } else if member == "generate_random_notify"@ {
            &&& out.reply == Ok::<ValueModel, Seq<char>>(ValueModel::Unit)
            &&& out.signals == seq![("generate_random"@, ValueModel::Unit)]
        } else {
            out.reply is Err && out.signals.len() == 0
        }
    }

    fn handle_call(&mut self, member: &str, sig: Sig, body: &Vec<u8>) -> (out: CallOutcome) {
        if str_eq(member, "say_hello") {
            match decode_value(sig, body) {
                Ok(Value::Str(n)) => {
                    let greeting = hello_string(n.as_str());
                    CallOutcome { reply: Ok(Value::Str(greeting)), signals: Vec::new() }
                },
                _ => CallOutcome {
                    reply: Err(String::from_str("expected a string argument")),
                    signals: Vec::new(),
                },
            }
        } else if str_eq(member, "random_number") {
            let k = random_below(100);
            CallOutcome { reply: Ok(Value::U32(k)), signals: Vec::new() }
        } else if str_eq(member, "generate_random_notify") {
            let mut signals: Vec<(String, Value)> = Vec::new();
            signals.push(("generate_random".to_owned(), Value::Unit));
            let out = CallOutcome { reply: Ok(Value::Unit), signals };
            proof {
                assert(out@.signals =~~= seq![("generate_random"@, ValueModel::Unit)]);
            }
            out
        } else {
            CallOutcome { reply: Err(String::from_str("unknown member")), signals: Vec::new() }
        }
    }
}

} // verus!

//! Typed payloads and the body codec: a `Value` travels on the wire as a
//! signature tag plus a byte string, and decoding is the exact inverse of
//! encoding.

use vstd::prelude::*;
use vstd::string::StrSliceExecFns;
use vstd::utf8::decode_utf8;
use vstd::utf8::encode_utf8;
use vstd::utf8::encode_utf8_decode_utf8;
use vstd::utf8::encode_utf8_valid_utf8;
use vstd::utf8::valid_utf8;

verus! {

/// Wire signature of a payload: which type the body bytes encode.
#[derive(Clone, Copy, PartialEq, Eq, Structural, Debug)]
pub enum Sig {
    Unit,
    U32,
    Str,
}

/// A typed payload carried in a message body.
#[derive(Debug)]
pub enum Value {
    Unit,
    U32(u32),
    Str(String),
}

/// Mathematical model of a `Value`.
pub enum ValueModel {
    Unit,
    U32(u32),
    Str(Seq<char>),
}

impl View for Value {
    type V = ValueModel;

    open spec fn view(&self) -> ValueModel {
        match self {
            Value::Unit => ValueModel::Unit,
            Value::U32(x) => ValueModel::U32(*x),
            Value::Str(s) => ValueModel::Str(s@),
        }
    }
}

/// The signature under which a payload is encoded.
pub open spec fn sig_of(v: ValueModel) -> Sig {
    match v {
        ValueModel::Unit => Sig::Unit,
        ValueModel::U32(_) => Sig::U32,
        ValueModel::Str(_) => Sig::Str,
    }
}

impl Value {
    /// The signature this payload is sent under.
    pub fn sig(&self) -> (s: Sig)
        ensures
            s == sig_of(self@),
    {
        match self {
            Value::Unit => Sig::Unit,
            Value::U32(_) => Sig::U32,
            Value::Str(_) => Sig::Str,
        }
    }

    /// An independent copy with the same model.
    pub fn dup(&self) -> (r: Value)
        ensures
            r@ == self@,
    {
        match self {
            Value::Unit => Value::Unit,
            Value::U32(x) => Value::U32(*x),
            Value::Str(s) => Value::Str(s.clone()),
        }
    }
}

/// Whether two string slices hold the same characters.
pub fn str_eq(a: &str, b: &str) -> (r: bool)
    ensures
        r == (a@ == b@),
{
    a.to_owned() == b.to_owned()
}

/// The body bytes do not decode under the expected signature.
#[derive(Clone, Copy, PartialEq, Eq, Structural, Debug)]
pub struct DecodeError;

/// Little-endian byte string of a `u32`.
pub open spec fn u32_le_bytes(x: u32) -> Seq<u8> {
    seq![
        (x & 0xff) as u8,
        ((x >> 8) & 0xff) as u8,
        ((x >> 16) & 0xff) as u8,
        ((x >> 24) & 0xff) as u8,
    ]
}

/// The `u32` whose little-endian byte string a 4-byte sequence is.
pub open spec fn u32_from_le(b: Seq<u8>) -> u32
    recommends
        b.len() == 4,
{
    ((b[0] as u32) | ((b[1] as u32) << 8) | ((b[2] as u32) << 16) | ((b[3] as u32) << 24)) as u32
}

/// Body bytes of a payload: nothing for unit, four little-endian bytes for
/// a `u32`, the UTF-8 encoding for a string.
pub open spec fn spec_encode(v: ValueModel) -> Seq<u8> {
    match v {
        ValueModel::Unit => Seq::empty(),
        ValueModel::U32(x) => u32_le_bytes(x),
        ValueModel::Str(s) => encode_utf8(s),
    }
}

/// The payload a body decodes to under a signature, if any.
pub open spec fn spec_decode(sig: Sig, b: Seq<u8>) -> Option<ValueModel> {
    match sig {
        Sig::Unit => if b.len() == 0 {
            Some(ValueModel::Unit)
        } else {
            None
        },
        Sig::U32 => if b.len() == 4 {
            Some(ValueModel::U32(u32_from_le(b)))
        } else {
            None
        },
        Sig::Str => if valid_utf8(b) {
            Some(ValueModel::Str(decode_utf8(b)))
        } else {
            None
        },
    }
}

/// Encode a payload into body bytes.
pub fn encode_value(v: &Value) -> (r: Vec<u8>)
    ensures
        r@ == spec_encode(v@),
{
    match v {
        Value::Unit => Vec::new(),
        Value::U32(xr) => {
            let x: u32 = *xr;
            let mut r: Vec<u8> = Vec::new();
            r.push((x & 0xff) as u8);
            r.push(((x >> 8) & 0xff) as u8);
            r.push(((x >> 16) & 0xff) as u8);
            r.push(((x >> 24) & 0xff) as u8);
            proof {
                assert(r@ =~= u32_le_bytes(x));
            }
            r
        },
        Value::Str(s) => s.as_str().as_bytes_vec(),
    }
}

/// Relies on `String::from_utf8`: it returns `Ok` exactly when the bytes
/// are valid UTF-8, and the returned string's UTF-8 bytes are the input
/// unchanged.
#[verifier::external_body]
fn string_from_utf8(bytes: &Vec<u8>) -> (r: Option<String>)
    ensures
        r is Some <==> valid_utf8(bytes@),
        r matches Some(s) ==> encode_utf8(s@) == bytes@,
{
    String::from_utf8(bytes.clone()).ok()
}

/// Decode body bytes under a signature; fails exactly when the bytes are
/// not an encoding of a payload of that signature.
pub fn decode_value(sig: Sig, b: &Vec<u8>) -> (r: Result<Value, DecodeError>)
    ensures
        r is Ok <==> spec_decode(sig, b@) is Some,
        r matches Ok(v) ==> spec_decode(sig, b@) == Some(v@),
{
    match sig {
        Sig::Unit => {
            if b.len() == 0 {
                Ok(Value::Unit)
            } else {
                Err(DecodeError)
            }
        },
        Sig::U32 => {
            if b.len() == 4 {
                let x: u32 = (b[0] as u32) | ((b[1] as u32) << 8) | ((b[2] as u32) << 16) | (
                (b[3] as u32) << 24);
                Ok(Value::U32(x))
            } else {
                Err(DecodeError)
            }
        },
        Sig::Str => {
            match string_from_utf8(b) {
                Some(s) => {
                    proof {
                        encode_utf8_decode_utf8(s@);
                    }
                    Ok(Value::Str(s))
                },
                None => Err(DecodeError),
            }
        },
    }
}

/// Decoding is the exact inverse of encoding: every payload comes back
/// unchanged from its own body bytes under its own signature.
pub proof fn lemma_codec_round_trip(v: ValueModel)
    ensures
        spec_decode(sig_of(v), spec_encode(v)) == Some(v),
{
    match v {
        ValueModel::Unit => {},
        ValueModel::U32(x) => {
            assert(((((x & 0xff) as u8) as u32) | ((((x >> 8) & 0xff) as u8) as u32) << 8 | ((((x
                >> 16) & 0xff) as u8) as u32) << 16 | ((((x >> 24) & 0xff) as u8) as u32) << 24)
                as u32 == x) by (bit_vector);
            assert(u32_from_le(u32_le_bytes(x)) == x);
        },
        ValueModel::Str(s) => {
            encode_utf8_valid_utf8(s);
            encode_utf8_decode_utf8(s);
        },
    }
}

} // verus!

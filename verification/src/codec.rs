//! The bridge to the external value codec.
//!
//! The codec itself — bincode's fixed-width little-endian format — is an
//! external collaborator: each call into it sits behind a small trusted
//! wrapper whose contract states, over the spec functions of [`crate::value`],
//! exactly which bytes the call produces or which value it rebuilds.  The
//! dispatchers `encode_value` and `decode_payload` route a whole `Value`
//! through those wrappers and are verified.

use vstd::prelude::*;
use vstd::bytes::*;
use vstd::utf8::*;
use crate::value::{Kind, Value, ValueModel, payload_bytes, wire_bytes};

verus! {

/// Relies on `bincode::serialize` for `()`: the unit value encodes to no
/// bytes at all.
#[verifier::external_body]
fn encode_unit() -> (r: Vec<u8>)
    ensures
        r@ == Seq::<u8>::empty(),
{
    bincode::serialize(&()).unwrap()
}

/// Relies on `bincode::serialize` for `u8`: one byte, the value itself.
#[verifier::external_body]
fn encode_u8(x: u8) -> (r: Vec<u8>)
    ensures
        r@ == seq![x],
{
    bincode::serialize(&x).unwrap()
}

/// Relies on `bincode::serialize` for `u16`: two little-endian bytes.
#[verifier::external_body]
fn encode_u16(x: u16) -> (r: Vec<u8>)
    ensures
        r@ == spec_u16_to_le_bytes(x),
{
    bincode::serialize(&x).unwrap()
}

/// Relies on `bincode::serialize` for `u32`: four little-endian bytes.
#[verifier::external_body]
fn encode_u32(x: u32) -> (r: Vec<u8>)
    ensures
        r@ == spec_u32_to_le_bytes(x),
{
    bincode::serialize(&x).unwrap()
}

/// Relies on `bincode::serialize` for `u64`: eight little-endian bytes.
#[verifier::external_body]
fn encode_u64(x: u64) -> (r: Vec<u8>)
    ensures
        r@ == spec_u64_to_le_bytes(x),
{
    bincode::serialize(&x).unwrap()
}

/// Relies on `bincode::serialize` for `String`: an eight-byte little-endian
/// byte count followed by the string's UTF-8 bytes.
#[verifier::external_body]
fn encode_text(s: &String) -> (r: Vec<u8>)
    ensures
        r@ == spec_u64_to_le_bytes(encode_utf8(s@).len() as u64) + encode_utf8(s@),
        r@.len() == 8 + encode_utf8(s@).len(),
        r@.len() <= usize::MAX,
{
    bincode::serialize(s).unwrap()
}

/// Relies on `bincode::deserialize` for `u8`: the single byte is the value.
#[verifier::external_body]
fn decode_u8(b: &[u8]) -> (r: u8)
    requires
        b@.len() == 1,
    ensures
        r == b@[0],
{
    bincode::deserialize(b).unwrap()
}

/// Relies on `bincode::deserialize` for `u16`: reads two little-endian bytes.
#[verifier::external_body]
fn decode_u16(b: &[u8]) -> (r: u16)
    requires
        b@.len() == 2,
    ensures
        r == spec_u16_from_le_bytes(b@),
{
    bincode::deserialize(b).unwrap()
}

/// Relies on `bincode::deserialize` for `u32`: reads four little-endian bytes.
#[verifier::external_body]
fn decode_u32(b: &[u8]) -> (r: u32)
    requires
        b@.len() == 4,
    ensures
        r == spec_u32_from_le_bytes(b@),
{
    bincode::deserialize(b).unwrap()
}

/// Relies on `bincode::deserialize` for `u64`: reads eight little-endian bytes.
#[verifier::external_body]
fn decode_u64(b: &[u8]) -> (r: u64)
    requires
        b@.len() == 8,
    ensures
        r == spec_u64_from_le_bytes(b@),
{
    bincode::deserialize(b).unwrap()
}

/// Relies on `bincode::deserialize` for `String`: after the eight-byte count,
/// the remaining bytes are validated as UTF-8 and become the string, so the
/// call succeeds exactly on valid UTF-8 and the returned string re-encodes to
/// the bytes it was read from.
#[verifier::external_body]
fn decode_text(b: &[u8]) -> (r: Option<String>)
    requires
        b@.len() >= 8,
        spec_u64_from_le_bytes(b@.subrange(0, 8)) == b@.len() - 8,
    ensures
        r is Some <==> valid_utf8(b@.subrange(8, b@.len() as int)),
        r is Some ==> encode_utf8(r.unwrap()@) == b@.subrange(8, b@.len() as int),
{
    bincode::deserialize::<String>(b).ok()
}

/// Encode one value into its codec payload bytes.
pub fn encode_value(v: &Value) -> (r: Vec<u8>)
    ensures
        r@ == payload_bytes(v@),
        crate::value::bounded(v@),
{
    match v {
        Value::Unit => encode_unit(),
        Value::U8(x) => encode_u8(*x),
        Value::U16(x) => encode_u16(*x),
        Value::U32(x) => encode_u32(*x),
        Value::U64(x) => encode_u64(*x),
        Value::Text(s) => encode_text(s),
    }
}

/// Rebuild the value of kind `k` whose wire bytes are exactly `b`.
///
/// The caller must know that some value of this kind has these wire bytes;
/// feeding the codec anything else is the fatal corruption case and is ruled
/// out here rather than recovered from.
pub fn decode_payload(k: Kind, b: &Vec<u8>) -> (r: Value)
    requires
        exists|v: ValueModel| v.kind() == k && wire_bytes(v) == b@,
    ensures
        forall|v: ValueModel| v.kind() == k && wire_bytes(v) == b@ ==> r@ == v,
{
    proof {
        lemma_auto_spec_u16_to_from_le_bytes();
        lemma_auto_spec_u32_to_from_le_bytes();
        lemma_auto_spec_u64_to_from_le_bytes();
    }
    let ghost w = choose|v: ValueModel| v.kind() == k && wire_bytes(v) == b@;
    match k {
        Kind::Unit => {
            proof {
                assert(w is Unit);
            }
            Value::Unit
        },
        Kind::U8 => {
            proof {
                assert(w matches ValueModel::U8(y) && wire_bytes(w) == seq![y]);
            }
            let x = decode_u8(b.as_slice());
            Value::U8(x)
        },
        Kind::U16 => {
            proof {
                assert(w matches ValueModel::U16(y) && wire_bytes(w) == spec_u16_to_le_bytes(y));
            }
            let x = decode_u16(b.as_slice());
            proof {
                assert forall|v: ValueModel| v.kind() == k && wire_bytes(v) == b@ implies
                    ValueModel::U16(x) == v by {
                    assert(v matches ValueModel::U16(y) && wire_bytes(v) == spec_u16_to_le_bytes(y));
                }
            }
            Value::U16(x)
        },
        Kind::U32 => {
            proof {
                assert(w matches ValueModel::U32(y) && wire_bytes(w) == spec_u32_to_le_bytes(y));
            }
            let x = decode_u32(b.as_slice());
            proof {
                assert forall|v: ValueModel| v.kind() == k && wire_bytes(v) == b@ implies
                    ValueModel::U32(x) == v by {
                    assert(v matches ValueModel::U32(y) && wire_bytes(v) == spec_u32_to_le_bytes(y));
                }
            }
            Value::U32(x)
        },
        Kind::U64 => {
            proof {
                assert(w matches ValueModel::U64(y) && wire_bytes(w) == spec_u64_to_le_bytes(y));
            }
            let x = decode_u64(b.as_slice());
            proof {
                assert forall|v: ValueModel| v.kind() == k && wire_bytes(v) == b@ implies
                    ValueModel::U64(x) == v by {
                    assert(v matches ValueModel::U64(y) && wire_bytes(v) == spec_u64_to_le_bytes(y));
                }
            }
            Value::U64(x)
        },
        Kind::Text => {
            let blen = b.len();
            proof {
                assert(w matches ValueModel::Text(q));
                let q = w->Text_0;
                let e = encode_utf8(q);
                assert(wire_bytes(w) == spec_u64_to_le_bytes(e.len() as u64) + e);
                assert(b@.len() == 8 + e.len());
                assert(e.len() == blen - 8);
                assert(e.len() as u64 == e.len());
                assert(b@.subrange(0, 8) =~= spec_u64_to_le_bytes(e.len() as u64));
                assert(spec_u64_from_le_bytes(b@.subrange(0, 8)) == e.len() as u64);
                assert(b@.subrange(8, b@.len() as int) =~= e);
                broadcast use encode_utf8_valid_utf8;

                assert(valid_utf8(b@.subrange(8, b@.len() as int)));
            }
            let st = decode_text(b.as_slice());
            match st {
                Some(s) => {
                    proof {
                        assert forall|v: ValueModel| v.kind() == k && wire_bytes(v) == b@ implies
                            ValueModel::Text(s@) == v by {
                            let q = v->Text_0;
                            let e = encode_utf8(q);
                            assert(wire_bytes(v) == spec_u64_to_le_bytes(e.len() as u64) + e);
                            assert(e =~= b@.subrange(8, b@.len() as int));
                            assert(encode_utf8(s@) == encode_utf8(q));
                            encode_utf8_decode_utf8(s@);
                            encode_utf8_decode_utf8(q);
                        }
                    }
                    Value::Text(s)
                },
                None => {
                    proof {
                        assert(false);
                    }
                    Value::Unit
                },
            }
        },
    }
}

} // verus!

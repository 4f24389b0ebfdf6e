//! The closed union of transportable values and the byte-level model of
//! their encodings.
//!
//! `Value` is the executable union; `ValueModel` is its mathematical view,
//! with text held as a sequence of characters.  The spec functions below pin
//! down, byte for byte, what the codec emits for each value (`payload_bytes`),
//! what actually travels on the wire once the zero-size sentinel rule is
//! applied (`wire_bytes`), and the framed form used by the eager backend
//! (`eager_frame`).  The completion predicates say when an accumulated byte
//! sequence holds exactly one whole encoding.

use vstd::prelude::*;
use vstd::bytes::*;
use vstd::utf8::*;

verus! {

/// A tag naming one of the supported value types.
#[derive(Clone, Copy, PartialEq, Eq, Structural, Debug)]
pub enum Kind {
    Unit,
    U8,
    U16,
    U32,
    U64,
    Text,
}

/// A value of one of the supported types.
#[derive(Clone, Debug)]
pub enum Value {
    Unit,
    U8(u8),
    U16(u16),
    U32(u32),
    U64(u64),
    Text(String),
}

/// The mathematical view of a `Value`: text becomes a sequence of characters.
pub enum ValueModel {
    Unit,
    U8(u8),
    U16(u16),
    U32(u32),
    U64(u64),
    Text(Seq<char>),
}

impl View for Value {
    type V = ValueModel;

    open spec fn view(&self) -> ValueModel {
        match self {
            Value::Unit => ValueModel::Unit,
            Value::U8(x) => ValueModel::U8(*x),
            Value::U16(x) => ValueModel::U16(*x),
            Value::U32(x) => ValueModel::U32(*x),
            Value::U64(x) => ValueModel::U64(*x),
            Value::Text(s) => ValueModel::Text(s@),
        }
    }
}

impl ValueModel {
    /// The tag of this value.
    pub open spec fn kind(self) -> Kind {
        match self {
            ValueModel::Unit => Kind::Unit,
            ValueModel::U8(_) => Kind::U8,
            ValueModel::U16(_) => Kind::U16,
            ValueModel::U32(_) => Kind::U32,
            ValueModel::U64(_) => Kind::U64,
            ValueModel::Text(_) => Kind::Text,
        }
    }
}

impl Value {
    /// The tag of this value.
    pub fn kind(&self) -> (k: Kind)
        ensures
            k == self@.kind(),
    {
        match self {
            Value::Unit => Kind::Unit,
            Value::U8(_) => Kind::U8,
            Value::U16(_) => Kind::U16,
            Value::U32(_) => Kind::U32,
            Value::U64(_) => Kind::U64,
            Value::Text(_) => Kind::Text,
        }
    }
}

impl PartialEq for Value {
    fn eq(&self, other: &Value) -> (r: bool) {
        match (self, other) {
            (Value::Unit, Value::Unit) => true,
            (Value::U8(a), Value::U8(b)) => a == b,
            (Value::U16(a), Value::U16(b)) => a == b,
            (Value::U32(a), Value::U32(b)) => a == b,
            (Value::U64(a), Value::U64(b)) => a == b,
            (Value::Text(a), Value::Text(b)) => a.eq(b),
            _ => false,
        }
    }
}

impl vstd::std_specs::cmp::PartialEqSpecImpl for Value {
    open spec fn obeys_eq_spec() -> bool {
        true
    }

    open spec fn eq_spec(&self, other: &Value) -> bool {
        self@ == other@
    }
}

impl Eq for Value {}

/// The bytes the codec emits for a value, before the zero-size sentinel rule.
pub open spec fn payload_bytes(v: ValueModel) -> Seq<u8> {
    match v {
        ValueModel::Unit => Seq::<u8>::empty(),
        ValueModel::U8(x) => seq![x],
        ValueModel::U16(x) => spec_u16_to_le_bytes(x),
        ValueModel::U32(x) => spec_u32_to_le_bytes(x),
        ValueModel::U64(x) => spec_u64_to_le_bytes(x),
        ValueModel::Text(s) => spec_u64_to_le_bytes(encode_utf8(s).len() as u64) + encode_utf8(
            s,
        ),
    }
}

/// The bytes a value occupies on the wire: its payload, or the single
/// sentinel byte `0` when the payload is empty.
pub open spec fn wire_bytes(v: ValueModel) -> Seq<u8> {
    if payload_bytes(v).len() == 0 {
        seq![0u8]
    } else {
        payload_bytes(v)
    }
}

/// A value fits the machine: the byte length of its encoding is a length some
/// buffer can actually hold.  Every value built from executable data is
/// bounded; the limit only matters for arbitrary mathematical models.
pub open spec fn bounded(v: ValueModel) -> bool {
    match v {
        ValueModel::Text(s) => encode_utf8(s).len() + 8 <= usize::MAX,
        _ => true,
    }
}

/// The framed form used by the eager backend: an eight-byte little-endian
/// length followed by the wire bytes.
pub open spec fn eager_frame(v: ValueModel) -> Seq<u8> {
    spec_u64_to_le_bytes(wire_bytes(v).len() as u64) + wire_bytes(v)
}

/// `s` holds exactly one whole wire encoding for kind `k`.
pub open spec fn wire_complete(k: Kind, s: Seq<u8>) -> bool {
    match k {
        Kind::Unit => s.len() == 1,
        Kind::U8 => s.len() == 1,
        Kind::U16 => s.len() == 2,
        Kind::U32 => s.len() == 4,
        Kind::U64 => s.len() == 8,
        Kind::Text => s.len() >= 8 && s.len() - 8 == spec_u64_from_le_bytes(
            s.subrange(0, 8),
        ),
    }
}

/// `s` is a strict prefix shape for kind `k`: more bytes are still needed.
pub open spec fn wire_partial(k: Kind, s: Seq<u8>) -> bool {
    match k {
        Kind::Unit => s.len() < 1,
        Kind::U8 => s.len() < 1,
        Kind::U16 => s.len() < 2,
        Kind::U32 => s.len() < 4,
        Kind::U64 => s.len() < 8,
        Kind::Text => s.len() < 8 || s.len() - 8 < spec_u64_from_le_bytes(
            s.subrange(0, 8),
        ),
    }
}

/// `s` holds exactly one whole eager frame: an eight-byte length prefix
/// followed by that many wire bytes (a real frame's length is never zero).
pub open spec fn eager_complete(s: Seq<u8>) -> bool {
    s.len() > 8 && s.len() - 8 == spec_u64_from_le_bytes(s.subrange(0, 8))
}

/// Decide whether `b` holds exactly one whole wire encoding for kind `k`.
///
/// This is the structural end-of-value test: fixed-width kinds end after
/// their fixed count, text ends once the byte count announced by its own
/// eight-byte prefix has arrived.
pub fn wire_is_complete(k: Kind, b: &Vec<u8>) -> (r: bool)
    ensures
        r == wire_complete(k, b@),
{
    match k {
        Kind::Unit => b.len() == 1,
        Kind::U8 => b.len() == 1,
        Kind::U16 => b.len() == 2,
        Kind::U32 => b.len() == 4,
        Kind::U64 => b.len() == 8,
        Kind::Text => {
            if b.len() < 8 {
                false
            } else {
                let n = u64_from_le_bytes(vstd::slice::slice_subrange(b.as_slice(), 0, 8));
                (b.len() - 8) as u64 == n
            }
        },
    }
}

/// Growing an incomplete byte sequence by one byte leaves it incomplete or
/// makes it exactly whole: a kind's encoding is never overshot.
pub proof fn lemma_partial_step(k: Kind, s: Seq<u8>, b: u8)
    requires
        wire_partial(k, s),
    ensures
        wire_partial(k, s + seq![b]) || wire_complete(k, s + seq![b]),
{
    let t = s + seq![b];
    if k is Text && s.len() >= 8 {
        assert(t.subrange(0, 8) =~= s.subrange(0, 8));
    }
}

/// The wire encoding of any value is at least one byte long.
pub proof fn lemma_wire_nonempty(v: ValueModel)
    ensures
        wire_bytes(v).len() >= 1,
{
    lemma_auto_spec_u16_to_from_le_bytes();
    lemma_auto_spec_u32_to_from_le_bytes();
    lemma_auto_spec_u64_to_from_le_bytes();
}

/// A bounded value's wire encoding fits in an addressable buffer.
pub proof fn lemma_wire_len_bounded(v: ValueModel)
    requires
        bounded(v),
    ensures
        wire_bytes(v).len() <= usize::MAX,
{
    lemma_auto_spec_u16_to_from_le_bytes();
    lemma_auto_spec_u32_to_from_le_bytes();
    lemma_auto_spec_u64_to_from_le_bytes();
}

/// Within one kind, the wire encoding determines the value: no two distinct
/// values share their wire bytes.
pub proof fn lemma_wire_bytes_injective(v1: ValueModel, v2: ValueModel)
    requires
        v1.kind() == v2.kind(),
        wire_bytes(v1) == wire_bytes(v2),
    ensures
        v1 == v2,
{
    lemma_auto_spec_u16_to_from_le_bytes();
    lemma_auto_spec_u32_to_from_le_bytes();
    lemma_auto_spec_u64_to_from_le_bytes();
    match (v1, v2) {
        (ValueModel::U8(a), ValueModel::U8(b)) => {
            assert(wire_bytes(v1)[0] == a);
            assert(wire_bytes(v2)[0] == b);
        },
        (ValueModel::U16(a), ValueModel::U16(b)) => {
            assert(spec_u16_from_le_bytes(spec_u16_to_le_bytes(a)) == a);
            assert(spec_u16_from_le_bytes(spec_u16_to_le_bytes(b)) == b);
        },
        (ValueModel::U32(a), ValueModel::U32(b)) => {
            assert(spec_u32_from_le_bytes(spec_u32_to_le_bytes(a)) == a);
            assert(spec_u32_from_le_bytes(spec_u32_to_le_bytes(b)) == b);
        },
        (ValueModel::U64(a), ValueModel::U64(b)) => {
            assert(spec_u64_from_le_bytes(spec_u64_to_le_bytes(a)) == a);
            assert(spec_u64_from_le_bytes(spec_u64_to_le_bytes(b)) == b);
        },
        (ValueModel::Text(a), ValueModel::Text(b)) => {
            let ea = encode_utf8(a);
            let eb = encode_utf8(b);
            let pa = spec_u64_to_le_bytes(ea.len() as u64);
            let pb = spec_u64_to_le_bytes(eb.len() as u64);
            assert(payload_bytes(v1).len() == 8 + ea.len());
            assert(payload_bytes(v2).len() == 8 + eb.len());
            assert(wire_bytes(v1) == pa + ea);
            assert(wire_bytes(v2) == pb + eb);
            assert(ea.len() == eb.len());
            assert(ea =~= (pa + ea).subrange(8, (pa + ea).len() as int));
            assert(eb =~= (pb + eb).subrange(8, (pb + eb).len() as int));
            assert(ea == eb);
            encode_utf8_decode_utf8(a);
            encode_utf8_decode_utf8(b);
            assert(a == b);
        },
        _ => {},
    }
}

/// Byte-count conservation: the eager frame spends exactly eight bytes more
/// than the bare wire encoding and carries the very same wire bytes after its
/// prefix, so the two backends agree on the payload; the wire encoding is
/// complete for the value's kind, and no strict prefix of it is, so a
/// consumer needs exactly as many bytes as the producer emits before the
/// value can be rebuilt.
pub proof fn lemma_byte_count_conservation(v: ValueModel)
    requires
        bounded(v),
    ensures
        eager_frame(v).len() == 8 + wire_bytes(v).len(),
        eager_frame(v).subrange(8, eager_frame(v).len() as int) == wire_bytes(v),
        wire_complete(v.kind(), wire_bytes(v)),
        forall|i: int|
            0 <= i < wire_bytes(v).len() ==> wire_partial(
                v.kind(),
                #[trigger] wire_bytes(v).subrange(0, i),
            ),
{
    lemma_auto_spec_u16_to_from_le_bytes();
    lemma_auto_spec_u32_to_from_le_bytes();
    lemma_auto_spec_u64_to_from_le_bytes();
    assert(eager_frame(v).subrange(8, eager_frame(v).len() as int) =~= wire_bytes(v));
    let w = wire_bytes(v);
    match v {
        ValueModel::Text(s) => {
            let e = encode_utf8(s);
            let n = e.len();
            let p = spec_u64_to_le_bytes(n as u64);
            assert(w == p + e);
            assert(w.len() == 8 + n);
            assert(w.subrange(0, 8) =~= p);
            assert(spec_u64_from_le_bytes(w.subrange(0, 8)) == n as u64);
            assert(wire_complete(v.kind(), w));
            assert forall|i: int| 0 <= i < w.len() implies wire_partial(
                v.kind(),
                #[trigger] w.subrange(0, i),
            ) by {
                if i >= 8 {
                    assert(w.subrange(0, i).subrange(0, 8) =~= w.subrange(0, 8));
                }
            }
        },
        _ => {},
    }
}

/// Shape of an eager frame: its prefix announces the wire length, the frame
/// is complete as a whole, and no strict prefix of it is complete.
pub proof fn lemma_frame_shape(v: ValueModel)
    requires
        bounded(v),
    ensures
        eager_frame(v).len() == 8 + wire_bytes(v).len(),
        wire_bytes(v).len() >= 1,
        spec_u64_from_le_bytes(eager_frame(v).subrange(0, 8)) == wire_bytes(v).len(),
        eager_complete(eager_frame(v)),
        forall|i: int|
            0 <= i < eager_frame(v).len() ==> !eager_complete(
                #[trigger] eager_frame(v).subrange(0, i),
            ),
{
    lemma_auto_spec_u64_to_from_le_bytes();
    lemma_wire_nonempty(v);
    lemma_wire_len_bounded(v);
    let w = wire_bytes(v);
    let f = eager_frame(v);
    let wl = w.len() as u64;
    assert(w.len() == wl);
    assert(f.subrange(0, 8) =~= spec_u64_to_le_bytes(wl));
    assert(spec_u64_from_le_bytes(f.subrange(0, 8)) == wl);
    assert forall|i: int| 0 <= i < f.len() implies !eager_complete(
        #[trigger] f.subrange(0, i),
    ) by {
        if i > 8 {
            assert(f.subrange(0, i).subrange(0, 8) =~= f.subrange(0, 8));
        }
    }
}

/// Zero-size rule: the unit value is the one whose codec payload is empty,
/// and on the wire it occupies exactly one byte, the sentinel `0`.
pub proof fn lemma_zero_size_wire(v: ValueModel)
    ensures
        payload_bytes(v).len() == 0 <==> v is Unit,
        wire_bytes(ValueModel::Unit) =~= seq![0u8],
{
    lemma_auto_spec_u16_to_from_le_bytes();
    lemma_auto_spec_u32_to_from_le_bytes();
    lemma_auto_spec_u64_to_from_le_bytes();
}

} // verus!

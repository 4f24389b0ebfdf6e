//! The eager backend: a value's whole encoding is materialised up front.
//!
//! The `Serializer` frames one value as an eight-byte length prefix followed
//! by its wire bytes and then serves that buffer byte by byte.  The
//! `Deserializer` accumulates bytes, parses the prefix once eight bytes have
//! arrived, keeps collecting until the announced count is in hand, and only
//! then hands the payload to the codec.
//!
//! Availability is a pure function of the state: a pipe accepts a new value
//! exactly when it is not draining one, yields a byte exactly when some
//! remain, and can be emptied exactly when it is not at rest.

use vstd::prelude::*;
use vstd::bytes::*;
use crate::value::{
    Kind, Value, ValueModel, bounded, eager_complete, eager_frame, lemma_frame_shape, wire_bytes,
};
use crate::codec::{decode_payload, encode_value};

verus! {

/// Serializer pipe: push a `Value`, pull its framed encoding one `u8` at a
/// time.  At rest exactly when the current frame is fully drained.
pub struct Serializer {
    buf: Vec<u8>,
    pos: usize,
}

impl Serializer {
    /// The buffer cursor never passes the end of the frame.
    pub closed spec fn wf(&self) -> bool {
        self.pos <= self.buf@.len()
    }

    /// The bytes of the current frame that are still to be pulled.
    pub closed spec fn stream(&self) -> Seq<u8> {
        self.buf@.subrange(self.pos as int, self.buf@.len() as int)
    }

    /// At rest: no value is in flight.
    pub open spec fn idle(&self) -> bool {
        self.stream().len() == 0
    }

    /// Construct a new Serializer pipe, at rest.
    pub fn new() -> (s: Serializer)
        ensures
            s.wf(),
            s.stream() == Seq::<u8>::empty(),
    {
        Serializer { buf: Vec::new(), pos: 0 }
    }

    /// A push is accepted exactly when the pipe is at rest.
    pub fn push_avail(&self) -> (r: bool)
        requires
            self.wf(),
        ensures
            r == self.idle(),
    {
        self.pos == self.buf.len()
    }

    /// Push a value: its framed encoding becomes the pending stream.
    /// Refused, leaving the state untouched, while bytes remain.
    pub fn push(&mut self, v: Value) -> (r: bool)
        requires
            old(self).wf(),
        ensures
            final(self).wf(),
            !old(self).idle() ==> !r && *final(self) == *old(self),
            old(self).idle() ==> r && final(self).stream() == eager_frame(v@) && bounded(v@),
    {
        if self.pos < self.buf.len() {
            return false;
        }
        let payload = encode_value(&v);
        let mut wire = payload;
        if wire.len() == 0 {
            wire.push(0u8);
        }
        proof {
            assert(wire@ == wire_bytes(v@));
        }
        let wlen: u64 = wire.len() as u64;
        let mut frame = u64_to_le_bytes(wlen);
        frame.append(&mut wire);
        proof {
            assert(wlen == wire_bytes(v@).len() as u64);
        }
        self.buf = frame;
        self.pos = 0;
        proof {
            assert(self.stream() =~= eager_frame(v@));
        }
        true
    }

    /// A pull is available exactly when a byte is pending.
    pub fn pull_avail(&self) -> (r: bool)
        requires
            self.wf(),
        ensures
            r == !self.idle(),
    {
        self.pos < self.buf.len()
    }

    /// Pull the next byte of the pending stream; `None` while at rest.
    pub fn pull(&mut self) -> (r: Option<u8>)
        requires
            old(self).wf(),
        ensures
            final(self).wf(),
            old(self).idle() ==> r is None && *final(self) == *old(self),
            !old(self).idle() ==> r == Some(old(self).stream()[0]) && final(self).stream()
                == old(self).stream().subrange(1, old(self).stream().len() as int),
    {
        if self.pos < self.buf.len() {
            let b = self.buf[self.pos];
            self.pos = self.pos + 1;
            proof {
                assert(self.stream() =~= old(self).stream().subrange(
                    1,
                    old(self).stream().len() as int,
                ));
            }
            Some(b)
        } else {
            None
        }
    }

    /// Emptying is available exactly when the pipe is not at rest.
    pub fn empty_avail(&self) -> (r: bool)
        requires
            self.wf(),
        ensures
            r == !self.idle(),
    {
        self.pos < self.buf.len()
    }

    /// Discard the rest of the pending stream and return to rest.
    /// Refused, leaving the state untouched, when already at rest.
    pub fn empty(&mut self) -> (r: bool)
        requires
            old(self).wf(),
        ensures
            final(self).wf(),
            old(self).idle() ==> !r && *final(self) == *old(self),
            !old(self).idle() ==> r && final(self).stream() == Seq::<u8>::empty(),
    {
        if self.pos < self.buf.len() {
            self.pos = self.buf.len();
            true
        } else {
            false
        }
    }
}

/// Deserializer pipe: pin a target kind by pulling, push the framed bytes
/// one at a time, then pull the rebuilt value.
pub struct Deserializer {
    kind: Option<Kind>,
    buf: Vec<u8>,
    len: u64,
    hist: Ghost<Seq<u8>>,
}

impl Deserializer {
    /// The kind pinned for the value in flight, if any.
    pub closed spec fn target(&self) -> Option<Kind> {
        self.kind
    }

    /// Every byte accepted since the pipe was last at rest.
    pub closed spec fn taken(&self) -> Seq<u8> {
        self.hist@
    }

    /// A whole value is buffered and waiting to be claimed.
    pub closed spec fn claim_ready(&self) -> bool {
        self.len != 0 && self.buf@.len() == self.len
    }

    /// A byte is accepted exactly when a kind is pinned and no finished
    /// value is waiting.
    pub open spec fn push_ready(&self) -> bool {
        self.target() is Some && !self.claim_ready()
    }

    /// The pipe is away from rest and can be emptied.
    pub open spec fn empty_ready(&self) -> bool {
        self.target() is Some
    }

    /// Nothing pinned, nothing buffered.
    pub open spec fn at_rest(&self) -> bool {
        self.target() is None && self.taken() == Seq::<u8>::empty()
    }

    /// The accepted bytes still mirror the buffer and parsed prefix; this
    /// only fails once a frame announcing length zero — something no real
    /// frame does — has been swallowed.
    pub closed spec fn clean(&self) -> bool {
        if self.len == 0 {
            self.hist@ == self.buf@
        } else {
            self.hist@ == spec_u64_to_le_bytes(self.len) + self.buf@
        }
    }

    /// Structural soundness of the state.
    pub closed spec fn wf(&self) -> bool {
        &&& (self.kind is None ==> self.buf@.len() == 0 && self.len == 0 && self.hist@
            == Seq::<u8>::empty())
        &&& (self.len == 0 ==> self.buf@.len() < 8)
        &&& (self.len != 0 ==> self.buf@.len() <= self.len)
        &&& (self.clean() || (self.hist@.len() >= 8 && self.hist@.subrange(0, 8)
            == spec_u64_to_le_bytes(0)))
    }

    /// Construct a new Deserializer pipe, at rest.
    pub fn new() -> (d: Deserializer)
        ensures
            d.wf(),
            d.at_rest(),
            d.clean(),
            !d.claim_ready(),
    {
        Deserializer { kind: None, buf: Vec::new(), len: 0, hist: Ghost(Seq::empty()) }
    }

    /// A value can be claimed exactly when the announced byte count is in.
    pub fn pull_avail(&self) -> (r: bool)
        requires
            self.wf(),
        ensures
            r == self.claim_ready(),
    {
        self.len != 0 && self.buf.len() as u64 == self.len
    }

    /// Pin the target kind and, once a whole value is buffered, claim it.
    ///
    /// The first pull pins `k`; a pull with a different kind while one is
    /// pinned is the caller bug the pipe treats as fatal, so it is ruled
    /// out, as is claiming a buffer that no value of kind `k` encodes to
    /// (the corrupt-stream case).
    pub fn pull(&mut self, k: Kind) -> (r: Option<Value>)
        requires
            old(self).wf(),
            old(self).target() matches Some(t) ==> t == k,
            old(self).claim_ready() ==> exists|v: ValueModel|
                v.kind() == k && bounded(v) && eager_frame(v) == old(self).taken(),
        ensures
            final(self).wf(),
            old(self).target() is None ==> r is None && final(self).target() == Some(k)
                && final(self).taken() == Seq::<u8>::empty() && final(self).clean()
                && !final(self).claim_ready(),
            old(self).target() is Some && !old(self).claim_ready() ==> r is None && *final(self)
                == *old(self),
            old(self).claim_ready() ==> r is Some && (forall|v: ValueModel|
                v.kind() == k && eager_frame(v) == old(self).taken() ==> r.unwrap()@ == v)
                && final(self).at_rest() && final(self).clean() && !final(self).claim_ready(),
    {
        if self.kind.is_none() {
            self.kind = Some(k);
        }
        if self.len != 0 && self.buf.len() as u64 == self.len {
            proof {
                let w = choose|v: ValueModel|
                    v.kind() == k && bounded(v) && eager_frame(v) == old(self).taken();
                lemma_auto_spec_u64_to_from_le_bytes();
                crate::value::lemma_wire_nonempty(w);
                crate::value::lemma_wire_len_bounded(w);
                let wl = wire_bytes(w).len() as u64;
                assert(wire_bytes(w).len() == wl);
                assert(eager_frame(w).subrange(0, 8) =~= spec_u64_to_le_bytes(wl));
                assert(eager_frame(w).subrange(8, eager_frame(w).len() as int) =~= wire_bytes(w));
                assert(self.hist@ == eager_frame(w));
                if !self.clean() {
                    assert(self.hist@.subrange(0, 8) == spec_u64_to_le_bytes(0));
                    assert(spec_u64_from_le_bytes(spec_u64_to_le_bytes(wl)) == wl);
                    assert(spec_u64_from_le_bytes(spec_u64_to_le_bytes(0)) == 0);
                    assert(wl == 0);
                    assert(false);
                }
                assert(self.hist@.subrange(0, 8) =~= spec_u64_to_le_bytes(self.len));
                assert(spec_u64_to_le_bytes(wl) == spec_u64_to_le_bytes(self.len));
                assert(wl == self.len);
                assert(self.hist@.subrange(8, self.hist@.len() as int) =~= self.buf@);
                assert(wire_bytes(w) == self.buf@);
            }
            let val = decode_payload(k, &self.buf);
            proof {
                assert forall|v: ValueModel|
                    v.kind() == k && eager_frame(v) == old(self).taken() implies val@ == v by {
                    assert(eager_frame(v).subrange(8, eager_frame(v).len() as int) =~= wire_bytes(
                        v,
                    ));
                    assert(wire_bytes(v) == self.buf@);
                }
            }
            self.buf.clear();
            self.len = 0;
            self.kind = None;
            self.hist = Ghost(Seq::empty());
            Some(val)
        } else {
            None
        }
    }

    /// A byte is accepted exactly when a kind is pinned and the current
    /// frame is not yet whole.
    pub fn push_avail(&self) -> (r: bool)
        requires
            self.wf(),
        ensures
            r == self.push_ready(),
    {
        self.kind.is_some() && (self.buf.len() as u64 != self.len || self.len == 0)
    }

    /// Accept one byte of the framed stream.  The first eight bytes form
    /// the length prefix; the rest accumulate until the frame is whole.
    /// Refused, leaving the state untouched, when no push is due.
    pub fn push(&mut self, b: u8) -> (r: bool)
        requires
            old(self).wf(),
        ensures
            final(self).wf(),
            !old(self).push_ready() ==> !r && *final(self) == *old(self),
            old(self).push_ready() ==> r && final(self).taken() == old(self).taken() + seq![b]
                && final(self).target() == old(self).target()
                && (old(self).clean() ==> (final(self).clean() <==> !(final(self).taken().len()
                == 8 && spec_u64_from_le_bytes(final(self).taken().subrange(0, 8)) == 0))),
    {
        if !(self.kind.is_some() && (self.buf.len() as u64 != self.len || self.len == 0)) {
            return false;
        }
        proof {
            lemma_auto_spec_u64_to_from_le_bytes();
        }
        self.buf.push(b);
        self.hist = Ghost(self.hist@ + seq![b]);
        if self.len == 0 && self.buf.len() == 8 {
            let n = u64_from_le_bytes(self.buf.as_slice());
            proof {
                assert(spec_u64_to_le_bytes(n) =~= self.buf@);
            }
            self.len = n;
            self.buf.clear();
            proof {
                if old(self).clean() {
                    assert(old(self).hist@ == old(self).buf@);
                    assert(self.hist@ =~= spec_u64_to_le_bytes(n));
                    assert(self.hist@.len() == 8);
                    assert(self.hist@.subrange(0, 8) =~= spec_u64_to_le_bytes(n));
                    assert(spec_u64_from_le_bytes(self.hist@.subrange(0, 8)) == n);
                    if n != 0 {
                        assert(self.hist@ =~= spec_u64_to_le_bytes(self.len) + self.buf@);
                        assert(self.clean());
                    } else {
                        assert(!self.clean());
                    }
                } else {
                    assert(old(self).hist@.len() >= 8);
                    assert(self.hist@.subrange(0, 8) =~= old(self).hist@.subrange(0, 8));
                }
            }
        } else {
            proof {
                if old(self).clean() {
                    if old(self).len == 0 {
                        assert(self.hist@ =~= self.buf@);
                        assert(self.clean());
                        assert(self.hist@.len() < 8);
                    } else {
                        assert(self.hist@ =~= spec_u64_to_le_bytes(self.len) + self.buf@);
                        assert(self.clean());
                        assert(self.hist@.len() > 8);
                    }
                } else {
                    assert(old(self).hist@.len() >= 8);
                    assert(self.hist@.subrange(0, 8) =~= old(self).hist@.subrange(0, 8));
                }
            }
        }
        true
    }

    /// Emptying is available exactly when the pipe is away from rest.
    pub fn empty_avail(&self) -> (r: bool)
        requires
            self.wf(),
        ensures
            r == self.empty_ready(),
    {
        !self.buf.is_empty() || self.len != 0 || self.kind.is_some()
    }

    /// Discard whatever is pinned or buffered and return to rest.
    /// Refused, leaving the state untouched, when already at rest.
    pub fn empty(&mut self) -> (r: bool)
        requires
            old(self).wf(),
        ensures
            final(self).wf(),
            !old(self).empty_ready() ==> !r && *final(self) == *old(self),
            old(self).empty_ready() ==> r && final(self).at_rest() && final(self).clean()
                && !final(self).claim_ready(),
    {
        if !self.buf.is_empty() || self.len != 0 || self.kind.is_some() {
            self.buf.clear();
            self.len = 0;
            self.kind = None;
            self.hist = Ghost(Seq::empty());
            true
        } else {
            false
        }
    }
}

/// While the accepted bytes mirror the machine's buffer and parsed prefix,
/// a value is claimable exactly when those bytes form one whole frame.
pub proof fn lemma_clean_claim(d: Deserializer)
    requires
        d.wf(),
        d.clean(),
    ensures
        d.claim_ready() <==> eager_complete(d.taken()),
{
    lemma_auto_spec_u64_to_from_le_bytes();
    if d.len != 0 {
        assert(d.taken().subrange(0, 8) =~= spec_u64_to_le_bytes(d.len));
    }
}

/// A pipe at rest holds no bytes at all.
proof fn lemma_rest_clean(d: Deserializer)
    requires
        d.wf(),
        d.at_rest(),
    ensures
        d.clean(),
        !d.claim_ready(),
{
    assert(d.buf@ =~= Seq::<u8>::empty());
}

/// Round trip: any value pushed into a resting Serializer and streamed byte
/// by byte into a resting Deserializer pinned to the value's kind is rebuilt
/// equal to the original, whatever the value, and both pipes end at rest,
/// ready for a value of any other kind.
pub fn round_trip(v: Value, ser: &mut Serializer, de: &mut Deserializer) -> (out: Value)
    requires
        old(ser).wf(),
        old(ser).idle(),
        old(de).wf(),
        old(de).at_rest(),
    ensures
        final(ser).wf(),
        final(ser).idle(),
        final(de).wf(),
        final(de).at_rest(),
        out@ == v@,
{
    let ghost m = v@;
    let k = v.kind();
    proof {
        lemma_rest_clean(*de);
    }
    let pushed = ser.push(v);
    proof {
        lemma_frame_shape(m);
    }
    let primed = de.pull(k);
    proof {
        assert(de.taken() + ser.stream() =~= eager_frame(m));
    }
    loop
        invariant
            ser.wf(),
            de.wf(),
            de.clean(),
            de.target() == Some(k),
            bounded(m),
            k == m.kind(),
            de.taken() + ser.stream() == eager_frame(m),
        ensures
            ser.wf(),
            de.wf(),
            de.clean(),
            de.target() == Some(k),
            ser.idle(),
            de.taken() == eager_frame(m),
        decreases ser.stream().len(),
    {
        let b_opt = ser.pull();
        match b_opt {
            None => {
                proof {
                    assert(de.taken() =~= eager_frame(m));
                }
                break;
            },
            Some(b) => {
                proof {
                    lemma_clean_claim(*de);
                    lemma_frame_shape(m);
                    assert(de.taken() =~= eager_frame(m).subrange(0, de.taken().len() as int));
                    assert(!eager_complete(de.taken()));
                    assert(de.push_ready());
                }
                let pushed_byte = de.push(b);
                proof {
                    assert(de.taken() + ser.stream() =~= eager_frame(m));
                    lemma_frame_shape(m);
                    assert(de.taken() =~= eager_frame(m).subrange(0, de.taken().len() as int));
                    if de.taken().len() == 8 {
                        assert(de.taken().subrange(0, 8) =~= eager_frame(m).subrange(0, 8));
                        assert(spec_u64_from_le_bytes(de.taken().subrange(0, 8)) != 0);
                    }
                    assert(de.clean());
                }
            },
        }
    }
    proof {
        lemma_clean_claim(*de);
        lemma_frame_shape(m);
        assert(de.claim_ready());
        assert(m.kind() == k && bounded(m) && eager_frame(m) == de.taken());
    }
    let out_opt = de.pull(k);
    match out_opt {
        Some(out) => {
            proof {
                assert(out@ == m);
            }
            out
        },
        None => {
            proof {
                assert(false);
            }
            Value::Unit
        },
    }
}

/// Type reuse and switching: one long-lived pair of pipes carries two values
/// in a row, of any kinds — equal or different — and each comes out equal to
/// what went in.
pub fn round_trip_pair(v1: Value, v2: Value, ser: &mut Serializer, de: &mut Deserializer) -> (out: (
    Value,
    Value,
))
    requires
        old(ser).wf(),
        old(ser).idle(),
        old(de).wf(),
        old(de).at_rest(),
    ensures
        final(ser).wf(),
        final(ser).idle(),
        final(de).wf(),
        final(de).at_rest(),
        out.0@ == v1@,
        out.1@ == v2@,
{
    let a = round_trip(v1, ser, de);
    let b = round_trip(v2, ser, de);
    (a, b)
}

} // verus!

//! The suspendable backend: bytes cross the boundary one at a time.
//!
//! Conceptually this strategy suspends the codec's own run around every
//! byte; its observable protocol is realised here as an explicit state
//! machine.  The `Serializer` keeps a one-byte look-ahead
//! slot, eagerly refilled, so that pull-availability can be answered without
//! side effects; the stream carries the bare wire bytes with no length
//! prefix.  The `Deserializer` pins a target kind on the first pull, accepts
//! bytes until the encoding is structurally whole — fixed-width kinds after
//! their fixed count, text once the byte count announced by its own prefix
//! has arrived, a zero-size value after its single sentinel byte — and then
//! holds the rebuilt value until it is claimed.

use vstd::prelude::*;
use crate::value::{
    Kind, Value, ValueModel, bounded, lemma_partial_step, lemma_wire_bytes_injective,
    wire_bytes, wire_complete, wire_is_complete, wire_partial,
};
use crate::codec::{decode_payload, encode_value};

verus! {

/// Serializer pipe: push a `Value`, pull its bare wire bytes one `u8` at a
/// time through the look-ahead slot.
pub struct Serializer {
    wire: Vec<u8>,
    pos: usize,
    look: Option<u8>,
    done: bool,
}

impl Serializer {
    /// The look-ahead slot is populated exactly while a value is in flight,
    /// and always holds the byte just before the cursor.
    pub closed spec fn wf(&self) -> bool {
        &&& (self.done ==> self.look is None)
        &&& (!self.done ==> self.look is Some && 1 <= self.pos <= self.wire@.len()
            && self.look == Some(self.wire@[self.pos - 1]))
    }

    /// The bytes of the current value that are still to be pulled, the
    /// look-ahead byte first.
    pub closed spec fn stream(&self) -> Seq<u8> {
        if self.done {
            Seq::<u8>::empty()
        } else {
            self.wire@.subrange(self.pos - 1, self.wire@.len() as int)
        }
    }

    /// At rest: no value is in flight.
    pub open spec fn idle(&self) -> bool {
        self.stream().len() == 0
    }

    /// Construct a new Serializer pipe, at rest.
    pub fn new() -> (s: Serializer)
        ensures
            s.wf(),
            s.stream() == Seq::<u8>::empty(),
    {
        Serializer { wire: Vec::new(), pos: 0, look: None, done: true }
    }

    /// A push is accepted exactly when the pipe is at rest.
    pub fn push_avail(&self) -> (r: bool)
        requires
            self.wf(),
        ensures
            r == self.idle(),
    {
        self.done
    }

    /// Push a value: its wire bytes become the pending stream and the first
    /// of them is fetched into the look-ahead slot at once.
    /// Refused, leaving the state untouched, while bytes remain.
    pub fn push(&mut self, v: Value) -> (r: bool)
        requires
            old(self).wf(),
        ensures
            final(self).wf(),
            !old(self).idle() ==> !r && *final(self) == *old(self),
            old(self).idle() ==> r && final(self).stream() == wire_bytes(v@) && bounded(v@),
    {
        if !self.done {
            return false;
        }
        let payload = encode_value(&v);
        let mut w = payload;
        if w.len() == 0 {
            w.push(0u8);
        }
        proof {
            assert(w@ == wire_bytes(v@));
        }
        let b0 = w[0];
        self.wire = w;
        self.pos = 1;
        self.look = Some(b0);
        self.done = false;
        proof {
            assert(self.stream() =~= wire_bytes(v@));
        }
        true
    }

    /// A pull is available exactly when the look-ahead slot is populated.
    pub fn pull_avail(&self) -> (r: bool)
        requires
            self.wf(),
        ensures
            r == !self.idle(),
    {
        self.look.is_some()
    }

    /// Pull the look-ahead byte and eagerly refill the slot; when the value
    /// is exhausted the pipe returns to rest.  `None` while at rest.
    pub fn pull(&mut self) -> (r: Option<u8>)
        requires
            old(self).wf(),
        ensures
            final(self).wf(),
            old(self).idle() ==> r is None && *final(self) == *old(self),
            !old(self).idle() ==> r == Some(old(self).stream()[0]) && final(self).stream()
                == old(self).stream().subrange(1, old(self).stream().len() as int),
    {
        match self.look {
            None => None,
            Some(b) => {
                if self.pos < self.wire.len() {
                    let nb = self.wire[self.pos];
                    self.look = Some(nb);
                    self.pos = self.pos + 1;
                } else {
                    self.done = true;
                    self.look = None;
                }
                proof {
                    assert(self.stream() =~= old(self).stream().subrange(
                        1,
                        old(self).stream().len() as int,
                    ));
                }
                Some(b)
            },
        }
    }

    /// Emptying is available exactly when the pipe is not at rest.
    pub fn empty_avail(&self) -> (r: bool)
        requires
            self.wf(),
        ensures
            r == !self.idle(),
    {
        !self.done || self.look.is_some()
    }

    /// Drain the rest of the pending stream without yielding it and return
    /// to rest.  Refused, leaving the state untouched, when already at rest.
    pub fn empty(&mut self) -> (r: bool)
        requires
            old(self).wf(),
        ensures
            final(self).wf(),
            old(self).idle() ==> !r && *final(self) == *old(self),
            !old(self).idle() ==> r && final(self).stream() == Seq::<u8>::empty(),
    {
        if !self.done || self.look.is_some() {
            self.done = true;
            self.look = None;
            true
        } else {
            false
        }
    }
}

/// Deserializer pipe: pin a target kind by pulling, push the bare wire
/// bytes one at a time, then pull the rebuilt value.
pub struct Deserializer {
    kind: Kind,
    live: bool,
    buf: Vec<u8>,
    value: Option<Value>,
    hist: Ghost<Seq<u8>>,
}

impl Deserializer {
    /// A target kind is pinned and a value is in flight or claimable.
    pub closed spec fn active(&self) -> bool {
        self.live
    }

    /// The kind pinned for the value in flight, if any.
    pub closed spec fn target(&self) -> Option<Kind> {
        if self.live {
            Some(self.kind)
        } else {
            None
        }
    }

    /// Every byte accepted since the current value began.
    pub closed spec fn taken(&self) -> Seq<u8> {
        self.hist@
    }

    /// A whole value has been rebuilt and waits to be claimed.
    pub closed spec fn pending(&self) -> bool {
        self.value is Some
    }

    /// The value waiting to be claimed.
    pub closed spec fn pending_value(&self) -> ValueModel {
        self.value.unwrap()@
    }

    /// Bytes have been accepted but the value is not yet whole.
    pub open spec fn mid(&self) -> bool {
        self.active() && !self.pending() && self.taken().len() > 0
    }

    /// A byte is accepted exactly when a kind is pinned and no finished
    /// value is waiting.
    pub open spec fn push_ready(&self) -> bool {
        self.active() && !self.pending()
    }

    /// The pipe is away from rest and can be emptied.
    pub open spec fn empty_ready(&self) -> bool {
        self.mid() || self.pending()
    }

    /// No target kind is pinned.
    pub open spec fn at_rest(&self) -> bool {
        self.target() is None
    }

    /// Structural soundness of the state.
    pub closed spec fn wf(&self) -> bool {
        &&& (!self.live ==> self.buf@.len() == 0 && self.value is None && self.hist@
            == Seq::<u8>::empty())
        &&& (self.live && self.value is None ==> self.hist@ == self.buf@ && wire_partial(
            self.kind,
            self.buf@,
        ))
        &&& (self.live && self.value is Some ==> self.buf@.len() == 0 && self.value.unwrap()@.kind()
            == self.kind && wire_bytes(self.value.unwrap()@) == self.hist@ && bounded(
            self.value.unwrap()@,
        ))
    }

    /// Construct a new Deserializer pipe, at rest.
    pub fn new() -> (d: Deserializer)
        ensures
            d.wf(),
            d.at_rest(),
            !d.pending(),
            d.taken() == Seq::<u8>::empty(),
    {
        Deserializer {
            kind: Kind::Unit,
            live: false,
            buf: Vec::new(),
            value: None,
            hist: Ghost(Seq::empty()),
        }
    }

    /// A value can be claimed exactly when one is pending.
    pub fn pull_avail(&self) -> (r: bool)
        requires
            self.wf(),
        ensures
            r == self.pending(),
    {
        self.value.is_some()
    }

    /// Pin the target kind or claim the pending value.
    ///
    /// When the pipe is at rest this pins `k` (installing a decoder for it,
    /// reusing the previous one's resources) and reports that no value is
    /// ready yet.  When a value is pending it is claimed and the pipe
    /// returns to rest; claiming under a different kind than the one pinned
    /// is the caller bug the pipe treats as fatal, so it is ruled out.
    /// While a value is part-way in, the call has no effect.
    pub fn pull(&mut self, k: Kind) -> (r: Option<Value>)
        requires
            old(self).wf(),
            old(self).pending() ==> old(self).target() == Some(k),
        ensures
            final(self).wf(),
            !old(self).active() ==> r is None && final(self).target() == Some(k) && final(self).taken() == Seq::<u8>::empty() && !final(self).pending(),
            old(self).active() && !old(self).pending() ==> r is None && *final(self) == *old(self),
            old(self).pending() ==> r is Some && r.unwrap()@ == old(self).pending_value() && (
            forall|v: ValueModel|
                v.kind() == k && wire_bytes(v) == old(self).taken() ==> r.unwrap()@ == v) && final(self).at_rest() && !final(self).pending() && final(self).taken() == Seq::<u8>::empty(),
    {
        if !self.live {
            self.live = true;
            self.kind = k;
            proof {
                assert(self.buf@ =~= self.hist@);
            }
            return None;
        }
        if self.value.is_some() {
            let v = self.value.take().unwrap();
            self.live = false;
            self.hist = Ghost(Seq::empty());
            proof {
                assert forall|w: ValueModel|
                    w.kind() == k && wire_bytes(w) == old(self).taken() implies v@ == w by {
                    lemma_wire_bytes_injective(w, v@);
                }
            }
            Some(v)
        } else {
            None
        }
    }

    /// A byte is accepted exactly when a kind is pinned and no finished
    /// value is waiting.
    pub fn push_avail(&self) -> (r: bool)
        requires
            self.wf(),
        ensures
            r == self.push_ready(),
    {
        self.live && self.value.is_none()
    }

    /// Accept one byte of the wire stream.  When the byte completes the
    /// pinned kind's encoding the value is rebuilt at once and becomes
    /// pending.  A byte that would complete an encoding no value of the
    /// pinned kind has — the corrupt-stream case the pipe treats as fatal —
    /// is ruled out.  Refused, leaving the state untouched, when no push is
    /// due.
    pub fn push(&mut self, b: u8) -> (r: bool)
        requires
            old(self).wf(),
            old(self).push_ready() && wire_complete(
                old(self).target().unwrap(),
                old(self).taken() + seq![b],
            ) ==> exists|v: ValueModel|
                v.kind() == old(self).target().unwrap() && bounded(v) && wire_bytes(v) == old(
                    self,
                ).taken() + seq![b],
        ensures
            final(self).wf(),
            !old(self).push_ready() ==> !r && *final(self) == *old(self),
            old(self).push_ready() ==> r && final(self).taken() == old(self).taken() + seq![b]
                && final(self).target() == old(self).target() && (final(self).pending()
                <==> wire_complete(old(self).target().unwrap(), final(self).taken())) && (final(self).pending() ==> wire_bytes(final(self).pending_value()) == final(self).taken() && final(self).pending_value().kind() == old(self).target().unwrap()),
    {
        if !(self.live && self.value.is_none()) {
            return false;
        }
        self.buf.push(b);
        self.hist = Ghost(self.hist@ + seq![b]);
        proof {
            assert(self.buf@ =~= old(self).buf@ + seq![b]);
            assert(self.hist@ == self.buf@);
        }
        if wire_is_complete(self.kind, &self.buf) {
            let val = decode_payload(self.kind, &self.buf);
            proof {
                let w = choose|v: ValueModel|
                    v.kind() == self.kind && bounded(v) && wire_bytes(v) == self.hist@;
                assert(val@ == w);
            }
            self.value = Some(val);
            self.buf.clear();
        } else {
            proof {
                lemma_partial_step(self.kind, old(self).buf@, b);
                assert(self.buf@ =~= old(self).buf@ + seq![b]);
            }
        }
        true
    }

    /// Emptying is available exactly when bytes are in or a value waits.
    pub fn empty_avail(&self) -> (r: bool)
        requires
            self.wf(),
        ensures
            r == self.empty_ready(),
    {
        (self.live && !self.buf.is_empty()) || self.value.is_some()
    }

    /// Discard the value in flight or pending and return to rest.
    /// Refused, leaving the state untouched, when nothing is in flight.
    pub fn empty(&mut self) -> (r: bool)
        requires
            old(self).wf(),
        ensures
            final(self).wf(),
            !old(self).empty_ready() ==> !r && *final(self) == *old(self),
            old(self).empty_ready() ==> r && final(self).at_rest() && !final(self).pending()
                && final(self).taken() == Seq::<u8>::empty(),
    {
        if (self.live && !self.buf.is_empty()) || self.value.is_some() {
            self.value = None;
            self.buf.clear();
            self.live = false;
            self.hist = Ghost(Seq::empty());
            true
        } else {
            false
        }
    }
}

/// Round trip: any value pushed into a resting Serializer and streamed byte
/// by byte into a resting Deserializer pinned to the value's kind is rebuilt
/// equal to the original, whatever the value, and both pipes end at rest,
/// ready for a value of any other kind.
pub fn round_trip(v: Value, ser: &mut Serializer, de: &mut Deserializer) -> (out: Value)
    requires
        old(ser).wf(),
        old(ser).idle(),
        old(de).wf(),
        old(de).at_rest(),
    ensures
        final(ser).wf(),
        final(ser).idle(),
        final(de).wf(),
        final(de).at_rest(),
        out@ == v@,
{
    let ghost m = v@;
    let k = v.kind();
    let pushed = ser.push(v);
    proof {
        crate::value::lemma_byte_count_conservation(m);
    }
    let primed = de.pull(k);
    proof {
        assert(de.taken() + ser.stream() =~= wire_bytes(m));
    }
    loop
        invariant
            ser.wf(),
            de.wf(),
            de.target() == Some(k),
            bounded(m),
            k == m.kind(),
            de.taken() + ser.stream() == wire_bytes(m),
            de.pending() ==> ser.stream().len() == 0,
        ensures
            ser.wf(),
            de.wf(),
            de.target() == Some(k),
            ser.idle(),
            de.pending(),
            de.taken() == wire_bytes(m),
        decreases ser.stream().len(),
    {
        let b_opt = ser.pull();
        match b_opt {
            None => {
                proof {
                    assert(de.taken() =~= wire_bytes(m));
                    crate::value::lemma_byte_count_conservation(m);
                    if !de.pending() {
                        assert(wire_partial(k, de.taken()));
                        assert(wire_complete(k, wire_bytes(m)));
                        assert(false);
                    }
                }
                break;
            },
            Some(b) => {
                proof {
                    assert(!de.pending());
                    assert(de.push_ready());
                    crate::value::lemma_byte_count_conservation(m);
                    assert(de.taken() + seq![b] =~= wire_bytes(m).subrange(
                        0,
                        de.taken().len() as int + 1,
                    ));
                    if wire_complete(k, de.taken() + seq![b]) {
                        assert(de.taken() + seq![b] =~= wire_bytes(m));
                    }
                }
                let pushed_byte = de.push(b);
                proof {
                    assert(de.taken() + ser.stream() =~= wire_bytes(m));
                    if de.pending() {
                        assert(wire_complete(k, de.taken()));
                        crate::value::lemma_byte_count_conservation(m);
                        assert(de.taken() =~= wire_bytes(m).subrange(0, de.taken().len() as int));
                        assert(de.taken() =~= wire_bytes(m));
                        assert(ser.stream().len() == 0);
                    }
                }
            },
        }
    }
    let out_opt = de.pull(k);
    match out_opt {
        Some(out) => {
            proof {
                assert(out@ == m);
            }
            out
        },
        None => {
            proof {
                assert(false);
            }
            Value::Unit
        },
    }
}

/// Type reuse and switching: one long-lived pair of pipes carries two values
/// in a row, of any kinds — equal or different — and each comes out equal to
/// what went in.
pub fn round_trip_pair(v1: Value, v2: Value, ser: &mut Serializer, de: &mut Deserializer) -> (out: (
    Value,
    Value,
))
    requires
        old(ser).wf(),
        old(ser).idle(),
        old(de).wf(),
        old(de).at_rest(),
    ensures
        final(ser).wf(),
        final(ser).idle(),
        final(de).wf(),
        final(de).at_rest(),
        out.0@ == v1@,
        out.1@ == v2@,
{
    let a = round_trip(v1, ser, de);
    let b = round_trip(v2, ser, de);
    (a, b)
}

} // verus!

//! Incremental byte pipes over a binary value codec.
//!
//! A `Serializer` pipe accepts whole values and yields their encoded bytes one
//! at a time; a `Deserializer` pipe accepts bytes one at a time and yields
//! whole values.  Two interchangeable backends implement the protocol: the
//! eager one in [`buffer`] materialises a value's full encoding behind a
//! length-prefixed frame, while the one in [`fringe`] serves the bare payload
//! bytes through a one-byte look-ahead slot and detects the end of a value
//! structurally.
//!
//! Values are drawn from the closed union [`value::Value`]; the byte shape of
//! each supported type is fixed by the external codec (bincode's fixed-width
//! little-endian format) and is modelled exactly by the spec functions in
//! [`value`].

pub mod value;
pub mod codec;
pub mod buffer;
pub mod fringe;

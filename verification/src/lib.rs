//! A structural codec between dynamic tagged values and statically shaped
//! records.
//!
//! A [`value::Value`] is a self-describing tagged union: integer, string,
//! array, dictionary or set. A [`shape::Shape`] is the static descriptor of a
//! record type: unit, named fields, positional fields, or an enum of named
//! variants. [`codec::decode`] parses a value against a shape into a
//! [`record::Record`], or reports a structured [`error::DecodeError`];
//! [`codec::encode`] serializes a record back into a value.
//!
//! Every contract is stated over the ghost models of the [`model`] module,
//! and the [`laws`] module proves the codec's laws: the permissive
//! zero-field rules, the exact arity failure, newtype passthrough, the empty
//! enum's permanent failure, and the decode/encode round trip.
pub mod codec;
pub mod error;
pub mod laws;
pub mod model;
pub mod record;
pub mod shape;
pub mod value;

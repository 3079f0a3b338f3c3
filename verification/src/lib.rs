//! Decoder for SNMP version 1 trap datagrams.
//!
//! The crate has three layers. [`asn1`] turns a byte buffer into a tree of
//! tagged values, [`snmp`] reads such a tree as a version 1 message that
//! carries a trap, and [`server`] holds the bookkeeping of the workers that
//! consume decoded messages.
//!
//! What the first two layers compute is stated as mathematics in [`wire`]
//! and [`protocol`]; [`encoding`] holds the writing side of object
//! identifiers and the proof that reading undoes it. [`reader`] is the
//! cursor that the decoder walks a buffer with.

pub mod asn1;
pub mod encoding;
pub mod protocol;
pub mod reader;
pub mod server;
pub mod snmp;
pub mod wire;

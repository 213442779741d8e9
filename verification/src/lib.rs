//! A verified DNS wire-format codec and responder core.
//!
//! The crate decodes DNS messages from raw bytes and encodes responses:
//! fixed-layout header bit-packing, label/pointer domain-name encoding,
//! question and resource-record serialization, full-message composition,
//! and the pure request-to-response transformation. Transport (sockets,
//! receive loops) is deliberately outside this crate.

pub mod error;
pub mod cursor;
pub mod header;
pub mod name;
pub mod record;
pub mod message;
pub mod packet;
pub mod response;

//! A minimal peer-to-peer connectivity layer.
//!
//! Two endpoints find each other through portable address tickets exchanged
//! out of band, multiplex application protocols over one connection by a
//! negotiated identifier, and run a round-trip-time probe protocol on top.
//!
//! The crate holds the layer's decisions and codecs, each with a verified
//! contract: the ticket text format and its round-trip law, the protocol
//! registration table and its dispatch decision, the probe frames and their
//! correlation by token, and the endpoint's published state. Binding sockets,
//! moving bytes and reading clocks belong to the runtime layer around the
//! crate, which hands plain values in and takes plain values back.

pub mod codec;
pub mod endpoint;
pub mod errors;
pub mod ping;
pub mod router;
pub mod ticket;

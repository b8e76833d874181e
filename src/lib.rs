//! A client-side SNMP library: object identifiers and their BER encoding,
//! typed values and variable bindings, PDUs, v2c and v3 messages, the
//! user-based security model (key derivation, message authentication,
//! privacy, replay window), response validation, the retry policy, and the
//! traversal rules of a walk. Sending and receiving the octets is left to
//! the caller.

pub mod auth;
pub mod ber;
pub mod client;
pub mod envelope;
pub mod obj_ident;
pub mod params;
pub mod pdu;
pub mod privacy;
pub mod snmp;
pub mod usm;
pub mod var_bind;
pub mod walk;

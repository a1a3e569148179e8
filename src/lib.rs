//! A small peer-to-peer secure-channel layer: byte-vector utilities, a
//! repeating-key stream cipher, the wire format of the three-message key
//! agreement, the responder and initiator logic, and the contact and chat
//! records kept around them.

pub mod vector;
pub mod kem;
pub mod text;
pub mod msg;
pub mod tcp;
pub mod comms;

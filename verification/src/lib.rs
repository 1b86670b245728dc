//! Validation core for an NRTMv4-style near-real-time mirroring protocol.
//!
//! A client is given a root notification document's locator, an expected
//! dataset identifier, and a trust anchor. The library decides whether the
//! full chain — notification document, snapshot, and the contiguous run of
//! deltas it references — is well-formed, cryptographically authentic, and
//! internally consistent, without ever treating tampered or stale data as
//! valid. Only the notification is authenticated directly; the snapshot and
//! every delta inherit trust through the content hashes listed inside the
//! already-authenticated notification.
//!
//! Fetching bytes is the caller's affair: every function here takes plain
//! values in and hands plain values back.

pub mod crypto;
pub mod errors;
pub mod json;
pub mod jsonseq;
pub mod nrtm4;
pub mod nrtm4_types;
pub mod timestamp;
pub mod validators;

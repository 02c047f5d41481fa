//! Core of a local encrypted "vault": files are encrypted at rest with
//! AES-256-GCM under a key derived from an embedded passphrase, stored as
//! opaque blobs, and tracked in a JSON snapshot index of metadata records.
//!
//! This library holds the verified logic: key derivation, sealing and opening
//! of blobs, the on-disk blob layout (`nonce(12) || ciphertext || tag(16)`),
//! the snapshot format with a proved save/load round trip, and the pure parts
//! of the ingest, retrieval and deletion pipelines. The surrounding program
//! does the filesystem work and hands this library plain values.

pub mod cipher;
pub mod errors;
pub mod hexid;
pub mod icons;
pub mod index;
pub mod json;
pub mod keys;
pub mod pipeline;
pub mod record;
pub mod strutil;

use vstd::prelude::*;

verus! {

/// The error kinds of the vault core.
#[derive(Clone, Copy, PartialEq, Eq, Structural, Debug)]
pub enum VaultError {
    /// A create, read, write or remove of a blob, a staging file or the
    /// snapshot failed.
    IOError,
    /// An AEAD seal or open failed (including an authentication-tag
    /// mismatch), or a sealed blob is too short to hold a nonce.
    CryptoError,
    /// The snapshot file is present but unparsable. `load_index` itself
    /// degrades an unparsable snapshot to an empty vault instead of
    /// returning this (a deliberate, documented behaviour of the store);
    /// the variant stands for callers that choose to surface corruption.
    IndexCorrupt,
    /// A referenced record or blob is missing.
    NotFound,
}

impl VaultError {
    /// A short human-readable tag for status reporting.
    pub fn describe(&self) -> (r: &'static str)
        ensures
            r@ == self.spec_describe(),
    {
        match self {
            VaultError::IOError => "i/o failure",
            VaultError::CryptoError => "encryption failure",
            VaultError::IndexCorrupt => "index unreadable",
            VaultError::NotFound => "not found",
        }
    }

    pub open spec fn spec_describe(&self) -> Seq<char> {
        match self {
            VaultError::IOError => "i/o failure"@,
            VaultError::CryptoError => "encryption failure"@,
            VaultError::IndexCorrupt => "index unreadable"@,
            VaultError::NotFound => "not found"@,
        }
    }
}

} // verus!

use sha2::Digest;
use vstd::prelude::*;

verus! {

broadcast use vstd::string::group_string_axioms;

/// The SHA-256 digest of `data`, as 32 bytes. Named, not written out: the
/// digest is a pure function of the input alone, computed by the sha2 crate.
pub uninterp spec fn sha256_of(data: Seq<u8>) -> Seq<u8>;

/// Relies on `sha2::Sha256` (via the `Digest` trait): hashing produces the
/// 256-bit (32-byte) SHA-256 digest of the input, deterministic in the input
/// bytes alone.
#[verifier::external_body]
fn sha256(data: &[u8]) -> (r: Vec<u8>)
    ensures
        r@ == sha256_of(data@),
        r@.len() == 32,
{
    let mut hasher = sha2::Sha256::new();
    hasher.update(data);
    hasher.finalize().to_vec()
}

/// The bytes of an ASCII character sequence.
pub open spec fn ascii_bytes_of(s: Seq<char>) -> Seq<u8> {
    Seq::new(s.len(), |i: int| s[i] as u8)
}

/// The application-embedded passphrase, as bytes. There is deliberately no
/// per-installation salt and no user-supplied secret: the key is fixed, and
/// this function is the single place a future key-derivation change would
/// touch without altering the on-disk blob format.
pub open spec fn key_phrase() -> Seq<u8> {
    ascii_bytes_of("49_secret_calculator_key_2024_ultra_secure"@)
}

/// The 256-bit symmetric vault key: the SHA-256 digest of the embedded
/// passphrase, used directly as the AES-256-GCM key.
pub open spec fn vault_key() -> Seq<u8> {
    sha256_of(key_phrase())
}

/// Derive the fixed vault key. Pure and deterministic; never fails.
pub fn derive_key() -> (k: Vec<u8>)
    ensures
        k@ == vault_key(),
        k@.len() == 32,
{
    let phrase: &str = "49_secret_calculator_key_2024_ultra_secure";
    proof {
        reveal_strlit("49_secret_calculator_key_2024_ultra_secure");
        assert(phrase.is_ascii());
    }
    let bytes = phrase.as_bytes();
    proof {
        assert(bytes@ =~= key_phrase());
    }
    sha256(bytes)
}

} // verus!

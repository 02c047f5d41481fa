use crate::errors::VaultError;
use aes_gcm::aead::Aead;
use aes_gcm::{Aes256Gcm, KeyInit, Nonce};
use vstd::prelude::*;
use vstd::slice::slice_subrange;

verus! {

/// Byte length of an AES-256-GCM nonce.
pub const NONCE_LEN: usize = 12;

/// Byte length of the AES-GCM authentication tag.
pub const TAG_LEN: usize = 16;

/// The AES-256-GCM sealing of `plaintext` under `key` and `nonce`: the
/// ciphertext followed by the 16-byte authentication tag, as one buffer.
/// Named, not written out: sealing is a deterministic function of exactly
/// these three arguments, computed by the aes-gcm crate.
pub uninterp spec fn seal_of(key: Seq<u8>, nonce: Seq<u8>, plaintext: Seq<u8>) -> Seq<u8>;

/// The on-disk layout of one stored sealed blob:
/// `nonce (12 bytes) || ciphertext || tag (16 bytes)`, one contiguous buffer.
pub open spec fn blob_of(key: Seq<u8>, nonce: Seq<u8>, plaintext: Seq<u8>) -> Seq<u8> {
    nonce + seal_of(key, nonce, plaintext)
}

/// Relies on `aes_gcm::Aes256Gcm` via `aead::Aead::encrypt`: AES-256-GCM
/// over the plaintext with a postfix 16-byte tag, deterministic in key,
/// nonce and plaintext. Sealing fails only when the plaintext exceeds
/// GCM's 2^36-byte limit, so success is owed below it.
#[verifier::external_body]
fn aead_seal(key: &[u8], nonce: &[u8], plaintext: &[u8]) -> (r: Result<Vec<u8>, VaultError>)
    requires
        key@.len() == 32,
        nonce@.len() == 12,
    ensures
        r matches Ok(sealed) ==> sealed@ == seal_of(key@, nonce@, plaintext@)
            && sealed@.len() == plaintext@.len() + 16,
        r matches Err(e) ==> e == VaultError::CryptoError,
        plaintext@.len() <= 0x1000000000 ==> r is Ok,
{
    let cipher = match Aes256Gcm::new_from_slice(key) {
        Ok(c) => c,
        Err(_) => return Err(VaultError::CryptoError),
    };
    match cipher.encrypt(Nonce::from_slice(nonce), plaintext) {
        Ok(sealed) => Ok(sealed),
        Err(_) => Err(VaultError::CryptoError),
    }
}

/// Relies on `aes_gcm::Aes256Gcm` via `aead::Aead::decrypt`: authenticated
/// decryption. It succeeds exactly on the sealings produced under the same
/// key and nonce, and then returns the plaintext that was sealed; on any
/// other input (a bit flip anywhere in ciphertext or tag) it fails.
#[verifier::external_body]
fn aead_open(key: &[u8], nonce: &[u8], sealed: &[u8]) -> (r: Result<Vec<u8>, VaultError>)
    requires
        key@.len() == 32,
        nonce@.len() == 12,
    ensures
        r matches Ok(p) ==> sealed@ == seal_of(key@, nonce@, p@),
        r matches Ok(p) ==> forall|q: Seq<u8>|
            sealed@ == seal_of(key@, nonce@, q) ==> q == p@,
        r is Err ==> forall|q: Seq<u8>| sealed@ != seal_of(key@, nonce@, q),
{
    let cipher = match Aes256Gcm::new_from_slice(key) {
        Ok(c) => c,
        Err(_) => return Err(VaultError::CryptoError),
    };
    match cipher.decrypt(Nonce::from_slice(nonce), sealed) {
        Ok(plaintext) => Ok(plaintext),
        Err(_) => Err(VaultError::CryptoError),
    }
}

/// Relies on `rand::rngs::OsRng::fill_bytes`: 12 bytes drawn from the
/// operating system's cryptographically secure random source. Nothing is
/// stated of the values: they are random, drawn fresh on every call, which
/// is what structurally prevents nonce reuse under the fixed key.
#[verifier::external_body]
fn fresh_nonce() -> (r: Vec<u8>)
    ensures
        r@.len() == 12,
{
    let mut bytes = [0u8; 12];
    rand::RngCore::fill_bytes(&mut rand::rngs::OsRng, &mut bytes);
    bytes.to_vec()
}

/// Encrypt `plaintext` under `key` with a fresh random nonce, producing the
/// stored blob `nonce(12) || ciphertext || tag(16)`. Success is owed for
/// every plaintext within GCM's length limit.
pub fn encrypt_blob(plaintext: &[u8], key: &Vec<u8>) -> (r: Result<Vec<u8>, VaultError>)
    requires
        key@.len() == 32,
    ensures
        r matches Ok(blob) ==> exists|n: Seq<u8>|
            n.len() == 12 && blob@ == blob_of(key@, n, plaintext@),
        r matches Ok(blob) ==> blob@.len() == plaintext@.len() + 28,
        r matches Err(e) ==> e == VaultError::CryptoError,
        plaintext@.len() <= 0x1000000000 ==> r is Ok,
{
    let nonce = fresh_nonce();
    match aead_seal(key.as_slice(), nonce.as_slice(), plaintext) {
        Ok(sealed) => {
            let ghost n: Seq<u8> = nonce@;
            let mut blob = nonce;
            blob.extend_from_slice(sealed.as_slice());
            proof {
                assert(blob@ == blob_of(key@, n, plaintext@));
            }
            Ok(blob)
        },
        Err(_) => Err(VaultError::CryptoError),
    }
}

/// Exactly the outcomes `decrypt_blob` admits on `blob` under `key`, stated
/// over views. A blob shorter than a nonce fails; a successful result is
/// the unique plaintext whose sealing under the blob's own nonce is the
/// blob's body, so decryption can never return altered plaintext; and on a
/// well-formed sealed blob, success with that plaintext is owed.
pub open spec fn decrypt_outcome(
    key: Seq<u8>,
    blob: Seq<u8>,
    r: Result<Seq<u8>, VaultError>,
) -> bool {
    &&& (blob.len() < 12 ==> r == Result::<Seq<u8>, VaultError>::Err(VaultError::CryptoError))
    &&& (r matches Ok(p) ==> blob.len() >= 12 && blob == blob_of(key, blob.take(12), p))
    &&& (r matches Err(e) ==> e == VaultError::CryptoError)
    &&& (blob.len() >= 12 ==> forall|p: Seq<u8>|
        blob.skip(12) == seal_of(key, blob.take(12), p) ==> (r matches Ok(q) && q == p))
}

/// The view of an executable decryption result.
pub open spec fn decrypt_view(r: Result<Vec<u8>, VaultError>) -> Result<Seq<u8>, VaultError> {
    match r {
        Ok(p) => Ok(p@),
        Err(e) => Err(e),
    }
}

/// Open a stored blob: split off the 12-byte nonce and authenticate-decrypt
/// the rest. Any tampering, and any blob shorter than a nonce, yields
/// `CryptoError`; it never returns altered plaintext.
pub fn decrypt_blob(blob: &[u8], key: &Vec<u8>) -> (r: Result<Vec<u8>, VaultError>)
    requires
        key@.len() == 32,
    ensures
        decrypt_outcome(key@, blob@, decrypt_view(r)),
{
    if blob.len() < 12 {
        return Err(VaultError::CryptoError);
    }
    let nonce = slice_subrange(blob, 0, 12);
    let sealed = slice_subrange(blob, 12, blob.len());
    proof {
        assert(nonce@ =~= blob@.take(12));
        assert(sealed@ =~= blob@.skip(12));
    }
    match aead_open(key.as_slice(), nonce, sealed) {
        Ok(p) => {
            proof {
                assert(blob@ =~= blob@.take(12) + blob@.skip(12));
            }
            Ok(p)
        },
        Err(_) => Err(VaultError::CryptoError),
    }
}

/// Law: decrypting a blob produced by sealing `plaintext` under `key` with
/// any 12-byte nonce yields exactly `plaintext` — any outcome `decrypt_blob`
/// admits on such a blob is `Ok(plaintext)`.
pub proof fn lemma_encrypt_decrypt_round_trip(
    key: Seq<u8>,
    nonce: Seq<u8>,
    plaintext: Seq<u8>,
    r: Result<Seq<u8>, VaultError>,
)
    requires
        nonce.len() == 12,
        decrypt_outcome(key, blob_of(key, nonce, plaintext), r),
    ensures
        r == Result::<Seq<u8>, VaultError>::Ok(plaintext),
{
    let blob = blob_of(key, nonce, plaintext);
    assert(blob.take(12) =~= nonce);
    assert(blob.skip(12) =~= seal_of(key, nonce, plaintext));
}

} // verus!

use crate::cipher::{blob_of, encrypt_blob};
use crate::hexid::{hex_of, random_id_hex};
use crate::errors::VaultError;
use crate::record::EncryptedRecord;
use crate::strutil::{lower_ascii, lower_char_exec, push_char};
use vstd::prelude::*;
use vstd::string::StringExecFns;

verus! {

// ---------------------------------------------------------------------------
// Paths
// ---------------------------------------------------------------------------
/// The vault root: a fixed, hardcoded directory under the user's home.
pub open spec fn vault_dir_spec(home: Seq<char>) -> Seq<char> {
    home + "/.calculator_vault"@
}

/// The vault root directory path for a given home directory.
pub fn vault_dir_of(home: &str) -> (r: String)
    ensures
        r@ == vault_dir_spec(home@),
{
    let mut s = String::new();
    s.append(home);
    s.append("/.calculator_vault");
    proof {
        assert(s@ =~= vault_dir_spec(home@));
    }
    s
}

/// The staging subdirectory, nested under the vault root, where inbound
/// plaintext files are dropped for ingestion.
pub open spec fn staging_dir_spec(vault_dir: Seq<char>) -> Seq<char> {
    vault_dir + "/upload"@
}

/// The staging directory path for a given vault root.
pub fn staging_dir_of(vault_dir: &str) -> (r: String)
    ensures
        r@ == staging_dir_spec(vault_dir@),
{
    let mut s = String::new();
    s.append(vault_dir);
    s.append("/upload");
    proof {
        assert(s@ =~= staging_dir_spec(vault_dir@));
    }
    s
}

/// The path of the stored blob for identifier `id_hex`:
/// `<vault>/<id>.secure`. The identifier is random, so the blob name leaks
/// nothing about the original filename.
pub open spec fn blob_path_spec(vault_dir: Seq<char>, id_hex: Seq<char>) -> Seq<char> {
    vault_dir + "/"@ + id_hex + ".secure"@
}

/// The blob path for a given vault root and identifier.
pub fn blob_path_of(vault_dir: &str, id_hex: &str) -> (r: String)
    ensures
        r@ == blob_path_spec(vault_dir@, id_hex@),
{
    let mut s = String::new();
    s.append(vault_dir);
    s.append("/");
    s.append(id_hex);
    s.append(".secure");
    proof {
        assert(s@ =~= blob_path_spec(vault_dir@, id_hex@));
    }
    s
}

/// The path of the metadata snapshot file under the vault root.
pub fn index_path_of(vault_dir: &str) -> (r: String)
    ensures
        r@ == vault_dir@ + "/index.json"@,
{
    let mut s = String::new();
    s.append(vault_dir);
    s.append("/index.json");
    proof {
        assert(s@ =~= vault_dir@ + "/index.json"@);
    }
    s
}

/// The path of the decrypted plaintext handed to the system viewer: the
/// record's display name joined under the ephemeral directory.
pub fn temp_file_path(temp_dir: &str, name: &str) -> (r: String)
    ensures
        r@ == temp_dir@ + "/"@ + name@,
{
    let mut s = String::new();
    s.append(temp_dir);
    s.append("/");
    s.append(name);
    proof {
        assert(s@ =~= temp_dir@ + "/"@ + name@);
    }
    s
}

// ---------------------------------------------------------------------------
// Extensions
// ---------------------------------------------------------------------------
/// The index of the last `.` in `name`, or -1 when it has none.
pub open spec fn last_dot(name: Seq<char>) -> int
    decreases name.len(),
{
    if name.len() == 0 {
        -1
    } else if name.last() == '.' {
        name.len() - 1
    } else {
        last_dot(name.drop_last())
    }
}

/// The record's extension field: the lower-cased suffix after the last `.`,
/// or empty when the name has no dot.
pub open spec fn ext_of(name: Seq<char>) -> Seq<char> {
    if last_dot(name) < 0 {
        Seq::empty()
    } else {
        lower_ascii(name.skip(last_dot(name) + 1))
    }
}

proof fn lemma_last_dot_none(name: Seq<char>)
    requires
        forall|k: int| 0 <= k < name.len() ==> name[k] != '.',
    ensures
        last_dot(name) == -1,
    decreases name.len(),
{
    if name.len() > 0 {
        lemma_last_dot_none(name.drop_last());
    }
}

proof fn lemma_last_dot_at(name: Seq<char>, j: int)
    requires
        0 <= j < name.len(),
        name[j] == '.',
        forall|k: int| j < k < name.len() ==> name[k] != '.',
    ensures
        last_dot(name) == j,
    decreases name.len(),
{
    if j < name.len() - 1 {
        lemma_last_dot_at(name.drop_last(), j);
    }
}

fn find_last_dot(name: &str, i: usize) -> (r: Option<usize>)
    requires
        i <= name@.len(),
    ensures
        r matches Some(j) ==> j < i && name@[j as int] == '.' && forall|k: int|
            j < k < i ==> name@[k] != '.',
        r is None ==> forall|k: int| 0 <= k < i ==> name@[k] != '.',
    decreases i,
{
    if i == 0 {
        None
    } else if name.get_char(i - 1) == '.' {
        Some(i - 1)
    } else {
        find_last_dot(name, i - 1)
    }
}

/// The lower-cased extension of a filename, derived once at ingest time.
pub fn extension_of(name: &str) -> (r: String)
    ensures
        r@ == ext_of(name@),
{
    let n = name.unicode_len();
    match find_last_dot(name, n) {
        None => {
            proof {
                lemma_last_dot_none(name@);
            }
            String::new()
        },
        Some(j) => {
            proof {
                lemma_last_dot_at(name@, j as int);
            }
            let mut out = String::new();
            let mut k: usize = j + 1;
            while k < n
                invariant
                    n == name@.len(),
                    j < k <= n,
                    out@ == lower_ascii(name@.subrange(j + 1, k as int)),
                decreases n - k,
            {
                push_char(&mut out, lower_char_exec(name.get_char(k)));
                proof {
                    assert(name@.subrange(j + 1, k + 1) =~= name@.subrange(j + 1, k as int).push(
                        name@[k as int],
                    ));
                    assert(lower_ascii(name@.subrange(j + 1, k + 1)) =~= lower_ascii(
                        name@.subrange(j + 1, k as int),
                    ).push(crate::strutil::lower_char(name@[k as int])));
                }
                k = k + 1;
            }
            proof {
                assert(name@.subrange(j + 1, n as int) =~= name@.skip(j + 1));
            }
            out
        },
    }
}

// ---------------------------------------------------------------------------
// Ingest, retrieval and deletion
// ---------------------------------------------------------------------------
/// Build the sealed blob and the metadata record for one staged file. The
/// caller supplies the fresh random identifier and the timestamp; this
/// computes the blob (`nonce || ciphertext || tag`), its path under the
/// vault root, and the record to append. It fails only if sealing fails,
/// which is owed not to happen for any file within GCM's length limit.
pub fn ingest_entry(
    name: &str,
    data: &[u8],
    key: &Vec<u8>,
    created_at: &str,
    id_hex: &str,
    vault_dir: &str,
) -> (r: Result<(Vec<u8>, EncryptedRecord), VaultError>)
    requires
        key@.len() == 32,
    ensures
        r matches Ok(br) ==> ({
            &&& exists|n: Seq<u8>| n.len() == 12 && br.0@ == blob_of(key@, n, data@)
            &&& br.0@.len() == data@.len() + 28
            &&& br.1@.name == name@
            &&& br.1@.original_extension == ext_of(name@)
            &&& br.1@.encrypted_path == blob_path_spec(vault_dir@, id_hex@)
            &&& br.1@.size == data@.len()
            &&& br.1@.created_at == created_at@
        }),
        r matches Err(e) ==> e == VaultError::CryptoError,
        data@.len() <= 0x1000000000 ==> r is Ok,
{
    let blob = match encrypt_blob(data, key) {
        Ok(b) => b,
        Err(e) => return Err(e),
    };
    let record = EncryptedRecord {
        name: name.to_owned(),
        original_extension: extension_of(name),
        encrypted_path: blob_path_of(vault_dir, id_hex),
        size: data.len() as u64,
        created_at: created_at.to_owned(),
    };
    Ok((blob, record))
}

/// Relies on `chrono::Local::now` and its `%Y-%m-%d %H:%M` formatting: a
/// human-readable local timestamp. Nothing is stated of the value: it
/// depends on the clock and the machine's time zone.
#[verifier::external_body]
fn current_timestamp() -> String {
    chrono::Local::now().format("%Y-%m-%d %H:%M").to_string()
}

/// Encrypt one staged file end to end: draw a fresh random identifier and
/// the current timestamp, seal the content, and build the record. The
/// filesystem work around it (reading the staged file, writing the blob,
/// saving the index, removing the original) is the caller's.
pub fn ingest_file(name: &str, data: &[u8], key: &Vec<u8>, vault_dir: &str) -> (r: Result<
    (Vec<u8>, EncryptedRecord),
    VaultError,
>)
    requires
        key@.len() == 32,
    ensures
        r matches Ok(br) ==> ({
            &&& exists|n: Seq<u8>| n.len() == 12 && br.0@ == blob_of(key@, n, data@)
            &&& br.0@.len() == data@.len() + 28
            &&& br.1@.name == name@
            &&& br.1@.original_extension == ext_of(name@)
            &&& exists|id: u64| br.1@.encrypted_path == blob_path_spec(
                vault_dir@,
                hex_of(id as nat),
            )
            &&& br.1@.size == data@.len()
        }),
        r matches Err(e) ==> e == VaultError::CryptoError,
        data@.len() <= 0x1000000000 ==> r is Ok,
{
    let id_hex = random_id_hex();
    let created_at = current_timestamp();
    ingest_entry(name, data, key, created_at.as_str(), id_hex.as_str(), vault_dir)
}

/// Look a record up by position; `NotFound` exactly when the position is
/// outside the index.
pub fn record_at(records: &Vec<EncryptedRecord>, i: usize) -> (r: Result<
    &EncryptedRecord,
    VaultError,
>)
    ensures
        i < records@.len() ==> (r matches Ok(rec) && *rec == records@[i as int]),
        i >= records@.len() ==> (r matches Err(e) && e == VaultError::NotFound),
{
    if i < records.len() {
        Ok(&records[i])
    } else {
        Err(VaultError::NotFound)
    }
}

/// Remove the record at position `i` from the in-memory index and return
/// the path of its ciphertext blob. Exactly one record leaves the index,
/// exactly one blob path is handed back for removal, and the remaining
/// records keep their relative order.
pub fn delete_at(records: &mut Vec<EncryptedRecord>, i: usize) -> (path: String)
    requires
        i < old(records)@.len(),
    ensures
        final(records)@ == old(records)@.remove(i as int),
        path@ == old(records)@[i as int]@.encrypted_path,
{
    let rec = records.remove(i);
    rec.encrypted_path
}

} // verus!

use calculator_vault::cipher::{decrypt_blob, encrypt_blob};
use calculator_vault::errors::VaultError;
use calculator_vault::hexid::{hex_string, random_id_hex};
use calculator_vault::icons::get_file_icon;
use calculator_vault::index::{load_index, save_index};
use calculator_vault::keys::derive_key;
use calculator_vault::pipeline::{
    blob_path_of, delete_at, extension_of, index_path_of, ingest_entry, ingest_file, record_at,
    staging_dir_of, temp_file_path, vault_dir_of,
};
use calculator_vault::record::EncryptedRecord;
use calculator_vault::strutil::{ascii_lowercase, str_eq};
use sha2::Digest;
use std::collections::HashSet;

fn rec(name: &str, ext: &str, path: &str, size: u64, created: &str) -> EncryptedRecord {
    EncryptedRecord {
        name: name.to_string(),
        original_extension: ext.to_string(),
        encrypted_path: path.to_string(),
        size,
        created_at: created.to_string(),
    }
}

fn assert_rec_eq(a: &EncryptedRecord, b: &EncryptedRecord) {
    assert_eq!(a.name, b.name);
    assert_eq!(a.original_extension, b.original_extension);
    assert_eq!(a.encrypted_path, b.encrypted_path);
    assert_eq!(a.size, b.size);
    assert_eq!(a.created_at, b.created_at);
}

#[test]
fn derived_key_is_sha256_of_passphrase() {
    let key = derive_key();
    assert_eq!(key.len(), 32);
    let mut hasher = sha2::Sha256::new();
    hasher.update(b"49_secret_calculator_key_2024_ultra_secure");
    let expected = hasher.finalize();
    assert_eq!(key.as_slice(), expected.as_slice());
    // deterministic: a second derivation gives the same key
    assert_eq!(derive_key(), key);
}

#[test]
fn encrypt_decrypt_round_trip() {
    let key = derive_key();
    let plain = b"attack at dawn".to_vec();
    let blob = encrypt_blob(&plain, &key).unwrap();
    assert_eq!(blob.len(), plain.len() + 28);
    let back = decrypt_blob(&blob, &key).unwrap();
    assert_eq!(back, plain);
}

#[test]
fn encrypt_decrypt_empty_round_trip() {
    let key = derive_key();
    let blob = encrypt_blob(&[], &key).unwrap();
    assert_eq!(blob.len(), 28);
    let back = decrypt_blob(&blob, &key).unwrap();
    assert!(back.is_empty());
}

#[test]
fn nonces_are_distinct_over_many_calls() {
    let key = derive_key();
    let mut seen: HashSet<Vec<u8>> = HashSet::new();
    for _ in 0..10_000 {
        let blob = encrypt_blob(b"x", &key).unwrap();
        let nonce = blob[..12].to_vec();
        assert!(seen.insert(nonce), "nonce collision observed");
    }
}

#[test]
fn flipping_any_byte_fails_decryption() {
    let key = derive_key();
    let plain = b"tamper-evidence content".to_vec();
    let blob = encrypt_blob(&plain, &key).unwrap();
    for i in 0..blob.len() {
        let mut tampered = blob.clone();
        tampered[i] ^= 0x01;
        match decrypt_blob(&tampered, &key) {
            Err(VaultError::CryptoError) => {},
            Err(e) => panic!("unexpected error kind at byte {}: {:?}", i, e),
            Ok(p) => panic!("tampered blob decrypted at byte {} to {:?}", i, p),
        }
    }
}

#[test]
fn wrong_key_fails_decryption() {
    let key = derive_key();
    let blob = encrypt_blob(b"secret", &key).unwrap();
    let other = vec![0x41u8; 32];
    assert_eq!(decrypt_blob(&blob, &other), Err(VaultError::CryptoError));
}

#[test]
fn truncated_blob_fails_decryption() {
    let key = derive_key();
    let blob = encrypt_blob(&vec![7u8; 40], &key).unwrap();
    for cut in [0usize, 1, 5, 11] {
        let short = blob[..cut].to_vec();
        assert_eq!(decrypt_blob(&short, &key), Err(VaultError::CryptoError));
    }
    // a nonce but not even a whole tag behind it
    let short = blob[..13].to_vec();
    assert_eq!(decrypt_blob(&short, &key), Err(VaultError::CryptoError));
}

#[test]
fn save_load_round_trip() {
    let records = vec![
        rec("hello.txt", "txt", "/v/1a2b.secure", 10, "2024-01-02 10:30"),
        rec(
            "weird \"name\" with \\slashes\\.PDF",
            "pdf",
            "/v/deadbeef.secure",
            0,
            "2024-12-31 23:59",
        ),
        rec("π-unicode-✓.dat", "dat", "/v/ffff.secure", u64::MAX, ""),
        rec("line\nbreak", "", "/v/00.secure", 1, "t"),
    ];
    let text = save_index(&records);
    let back = load_index(&text);
    assert_eq!(back.len(), records.len());
    for (a, b) in back.iter().zip(records.iter()) {
        assert_rec_eq(a, b);
    }
}

#[test]
fn save_empty_index() {
    let records: Vec<EncryptedRecord> = Vec::new();
    assert_eq!(save_index(&records), "[]");
    assert!(load_index("[]").is_empty());
    assert!(load_index("  [ ]  ").is_empty());
}

#[test]
fn unparsable_snapshot_loads_as_empty() {
    assert!(load_index("").is_empty());
    assert!(load_index("not json at all").is_empty());
    assert!(load_index("{\"a\": 1}").is_empty());
    assert!(load_index("[1, 2, 3]").is_empty());
    assert!(load_index("[{\"nope\": true}]").is_empty());
    assert!(load_index("[{\"name\": \"x\"}]").is_empty());
}

#[test]
fn trailing_garbage_loads_as_empty() {
    let records = vec![rec("a.txt", "txt", "/v/a.secure", 1, "now")];
    let mut text = save_index(&records);
    text.push_str("garbage");
    assert!(load_index(&text).is_empty());
}

#[test]
fn snapshot_is_json_serde_can_read() {
    let records = vec![
        rec("report \"final\".pdf", "pdf", "/v/aa.secure", 1234, "2024-05-06 07:08"),
        rec("notes.txt", "txt", "/v/bb.secure", 77, "2024-05-06 07:09"),
    ];
    let text = save_index(&records);
    let v: serde_json::Value = serde_json::from_str(&text).expect("snapshot must be valid JSON");
    let arr = v.as_array().expect("snapshot must be a JSON array");
    assert_eq!(arr.len(), 2);
    assert_eq!(arr[0]["name"], "report \"final\".pdf");
    assert_eq!(arr[0]["original_extension"], "pdf");
    assert_eq!(arr[0]["encrypted_path"], "/v/aa.secure");
    assert_eq!(arr[0]["size"], 1234);
    assert_eq!(arr[0]["created_at"], "2024-05-06 07:08");
    assert_eq!(arr[1]["name"], "notes.txt");
}

#[test]
fn snapshot_written_by_serde_loads() {
    // the exact snapshot layout an earlier serde-derive writer produced:
    // pretty-printed, two-space indent, fields in declaration order
    let pretty = "[\n  {\n    \"name\": \"a.txt\",\n    \"original_extension\": \"txt\",\n    \"encrypted_path\": \"/v/1.secure\",\n    \"size\": 5,\n    \"created_at\": \"2024-01-01 00:00\"\n  }\n]";
    // and the verified writer emits byte-for-byte the same layout
    let records = vec![rec("a.txt", "txt", "/v/1.secure", 5, "2024-01-01 00:00")];
    assert_eq!(save_index(&records), pretty);
    let back = load_index(pretty);
    assert_eq!(back.len(), 1);
    assert_eq!(back[0].name, "a.txt");
    assert_eq!(back[0].original_extension, "txt");
    assert_eq!(back[0].encrypted_path, "/v/1.secure");
    assert_eq!(back[0].size, 5);
    assert_eq!(back[0].created_at, "2024-01-01 00:00");
}

#[test]
fn delete_removes_one_record_and_keeps_order() {
    let mut records = vec![
        rec("a.txt", "txt", "/v/a.secure", 1, "t1"),
        rec("b.txt", "txt", "/v/b.secure", 2, "t2"),
        rec("c.txt", "txt", "/v/c.secure", 3, "t3"),
    ];
    let path = delete_at(&mut records, 1);
    assert_eq!(path, "/v/b.secure");
    assert_eq!(records.len(), 2);
    assert_eq!(records[0].name, "a.txt");
    assert_eq!(records[1].name, "c.txt");
}

#[test]
fn ingest_builds_record_and_blob() {
    let key = derive_key();
    let data = b"0123456789".to_vec();
    let (blob, record) = ingest_entry(
        "hello.txt",
        &data,
        &key,
        "2024-03-04 05:06",
        "1a2b3c",
        "/home/u/.calculator_vault",
    )
    .unwrap();
    assert_eq!(record.name, "hello.txt");
    assert_eq!(record.original_extension, "txt");
    assert_eq!(record.encrypted_path, "/home/u/.calculator_vault/1a2b3c.secure");
    assert_eq!(record.size, 10);
    assert_eq!(record.created_at, "2024-03-04 05:06");
    assert_eq!(blob.len(), 38);
    // the blob decrypts back to the staged content
    assert_eq!(decrypt_blob(&blob, &key).unwrap(), data);
}

#[test]
fn ingest_file_draws_fresh_identifier() {
    let key = derive_key();
    let (blob, record) = ingest_file("photo.JPG", b"img", &key, "/vault").unwrap();
    assert_eq!(record.name, "photo.JPG");
    assert_eq!(record.original_extension, "jpg");
    assert_eq!(record.size, 3);
    assert!(record.encrypted_path.starts_with("/vault/"));
    assert!(record.encrypted_path.ends_with(".secure"));
    assert_eq!(decrypt_blob(&blob, &key).unwrap(), b"img".to_vec());
}

#[test]
fn extension_rules() {
    assert_eq!(extension_of("hello.txt"), "txt");
    assert_eq!(extension_of("noext"), "");
    assert_eq!(extension_of("archive.tar.gz"), "gz");
    assert_eq!(extension_of("UPPER.TXT"), "txt");
    assert_eq!(extension_of("trailing."), "");
    assert_eq!(extension_of(".hidden"), "hidden");
    assert_eq!(extension_of(""), "");
}

#[test]
fn hex_identifiers() {
    assert_eq!(hex_string(0), "0");
    assert_eq!(hex_string(255), "ff");
    assert_eq!(hex_string(0xdead_beef), "deadbeef");
    assert_eq!(hex_string(u64::MAX), format!("{:x}", u64::MAX));
    let id = random_id_hex();
    assert!(!id.is_empty());
    assert!(id.chars().all(|c| c.is_ascii_hexdigit()));
}

#[test]
fn icons_match_extensions() {
    assert_eq!(get_file_icon("pdf"), "📄");
    assert_eq!(get_file_icon("PDF"), "📄");
    assert_eq!(get_file_icon("jpeg"), "🖼️");
    assert_eq!(get_file_icon("mp3"), "🎵");
    assert_eq!(get_file_icon("tar"), "📦");
    assert_eq!(get_file_icon("json"), "💻");
    assert_eq!(get_file_icon("xlsx"), "📈");
    assert_eq!(get_file_icon("unknown-thing"), "📁");
    assert_eq!(get_file_icon(""), "📁");
}

#[test]
fn record_lookup_bounds() {
    let records = vec![rec("a.txt", "txt", "/v/a.secure", 1, "t")];
    match record_at(&records, 0) {
        Ok(r) => assert_eq!(r.name, "a.txt"),
        Err(e) => panic!("unexpected error: {:?}", e),
    }
    assert!(matches!(record_at(&records, 1), Err(VaultError::NotFound)));
    assert!(matches!(record_at(&records, 99), Err(VaultError::NotFound)));
}

#[test]
fn path_helpers() {
    assert_eq!(vault_dir_of("/home/u"), "/home/u/.calculator_vault");
    assert_eq!(
        staging_dir_of("/home/u/.calculator_vault"),
        "/home/u/.calculator_vault/upload"
    );
    assert_eq!(blob_path_of("/v", "1a2b"), "/v/1a2b.secure");
    assert_eq!(temp_file_path("/tmp", "hello.txt"), "/tmp/hello.txt");
}

#[test]
fn string_helpers() {
    assert!(str_eq("same", "same"));
    assert!(!str_eq("same", "Same"));
    assert!(!str_eq("ab", "abc"));
    assert_eq!(ascii_lowercase("MiXeD-123"), "mixed-123");
    assert_eq!(ascii_lowercase("π✓"), "π✓");
}

#[test]
fn error_descriptions() {
    assert_eq!(VaultError::IOError.describe(), "i/o failure");
    assert_eq!(VaultError::CryptoError.describe(), "encryption failure");
    assert_eq!(VaultError::IndexCorrupt.describe(), "index unreadable");
    assert_eq!(VaultError::NotFound.describe(), "not found");
}

#[test]
fn control_characters_stay_valid_json() {
    let records = vec![rec("tab\there\u{1}and\u{1f}", "", "/v/c.secure", 9, "line\nbreak")];
    let text = save_index(&records);
    // a strict JSON reader accepts the snapshot even with control characters
    let v: serde_json::Value = serde_json::from_str(&text).unwrap();
    assert_eq!(v[0]["name"], "tab\there\u{1}and\u{1f}");
    assert_eq!(v[0]["created_at"], "line\nbreak");
    // and the verified parser reads it back exactly
    let back = load_index(&text);
    assert_eq!(back.len(), 1);
    assert_eq!(back[0].name, "tab\there\u{1}and\u{1f}");
    assert_eq!(back[0].created_at, "line\nbreak");
}

#[test]
fn snapshot_with_unicode_escapes_loads() {
    // the form an earlier serde-based writer gave control characters
    let text = "[\n  {\n    \"name\": \"a\\u0001b\\u001fc\",\n    \"original_extension\": \"\",\n    \"encrypted_path\": \"/v/1.secure\",\n    \"size\": 1,\n    \"created_at\": \"x\\ny\"\n  }\n]";
    let back = load_index(text);
    assert_eq!(back.len(), 1);
    assert_eq!(back[0].name, "a\u{1}b\u{1f}c");
    assert_eq!(back[0].created_at, "x\ny");
    // upper-case hex digits in the escape are read too
    let upper = text.replace("\\u001f", "\\u001F");
    let back = load_index(&upper);
    assert_eq!(back.len(), 1);
    assert_eq!(back[0].name, "a\u{1}b\u{1f}c");
}

#[test]
fn large_plaintext_still_encrypts() {
    // success is owed for any plaintext within the cipher's length limit
    let key = derive_key();
    let data = vec![0xABu8; 1 << 20];
    let blob = encrypt_blob(&data, &key).unwrap();
    assert_eq!(blob.len(), data.len() + 28);
    assert_eq!(decrypt_blob(&blob, &key).unwrap(), data);
}

#[test]
fn index_path_helper() {
    assert_eq!(
        index_path_of("/home/u/.calculator_vault"),
        "/home/u/.calculator_vault/index.json"
    );
}

use crate::json::{jrecords, parse_snapshot, parse_snapshot_text, write_snapshot};
use crate::record::{EncryptedRecord, rec_views};
use vstd::prelude::*;

verus! {

/// Serialize the full ordered index to the snapshot text. Every mutation of
/// the index rewrites the whole snapshot; there is no incremental log.
pub fn save_index(records: &Vec<EncryptedRecord>) -> (out: String)
    ensures
        out@ == jrecords(rec_views(records@)),
{
    write_snapshot(records)
}

/// Read the index back from the snapshot text. A snapshot that does not
/// parse silently degrades to an empty sequence instead of surfacing
/// `IndexCorrupt`: existing blobs become orphaned and invisible until
/// recovered by hand. That behaviour of the store is kept deliberately; a
/// missing snapshot file (a fresh vault) is the caller's case and never
/// reaches this function.
pub fn load_index(text: &str) -> (r: Vec<EncryptedRecord>)
    ensures
        parse_snapshot(text@) matches Some(rs) ==> rec_views(r@) == rs,
        parse_snapshot(text@) is None ==> r@.len() == 0,
{
    match parse_snapshot_text(text) {
        Some(v) => v,
        None => Vec::new(),
    }
}

} // verus!

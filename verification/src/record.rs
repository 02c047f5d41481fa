use vstd::prelude::*;

verus! {

/// The mathematical view of one vaulted file's metadata record.
pub struct RecordV {
    pub name: Seq<char>,
    pub original_extension: Seq<char>,
    pub encrypted_path: Seq<char>,
    pub size: u64,
    pub created_at: Seq<char>,
}

/// One entry per vaulted file. Records are immutable once created: the index
/// only ever appends and removes them, never edits one.
pub struct EncryptedRecord {
    /// Original filename, kept in plaintext for presentation and for the
    /// temporary file written on retrieval.
    pub name: String,
    /// Lower-cased suffix after the last `.` of the name (empty when the
    /// name has no dot), derived once at ingest time and never recomputed.
    pub original_extension: String,
    /// Absolute path of the stored sealed blob; unique across live records.
    pub encrypted_path: String,
    /// Byte length of the original content before encryption.
    pub size: u64,
    /// Human-readable timestamp captured at ingest time.
    pub created_at: String,
}

impl View for EncryptedRecord {
    type V = RecordV;

    open spec fn view(&self) -> RecordV {
        RecordV {
            name: self.name@,
            original_extension: self.original_extension@,
            encrypted_path: self.encrypted_path@,
            size: self.size,
            created_at: self.created_at@,
        }
    }
}

/// The views of a sequence of records.
pub open spec fn rec_views(rs: Seq<EncryptedRecord>) -> Seq<RecordV> {
    rs.map_values(|r: EncryptedRecord| r@)
}

} // verus!

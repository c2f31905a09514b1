//! Content-addressed deduplication of uploaded images: each distinct payload
//! gets one short identifier, kept in an index that can be saved and loaded.

pub mod content;
pub mod index;
pub mod laws;
pub mod table;
pub mod upload;

pub use content::{content_digest, generate_identifier, public_name, DIGEST_LEN, IDENTIFIER_LEN};
pub use index::{
    DedupIndex, IndexError, Resolution, SnapshotError, LOAD_FACTOR_PERCENT, MAX_ENTRIES,
};
pub use table::{DigestTable, HashIds};
pub use upload::{
    check_upload, classify_upload, DownloadError, FileKind, UploadError, MAX_UPLOAD_BYTES,
};

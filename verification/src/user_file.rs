use vstd::prelude::*;

use crate::utility::{extension_of, file_extension, has_extension, uuid_str_of, uuid_to_string};

verus! {

// ---------------------------------------------------------------------------
// File rows. A file's identity is a generated identifier, never derived from
// the client-supplied name; the stored name is that identifier plus the
// original extension, so no two uploads ever target the same blob.
// ---------------------------------------------------------------------------

/// Greatest number of bytes a single uploaded file may hold (10 MiB).
pub const MAX_FILE_SIZE: u64 = 10485760;

/// One catalog row describing a stored file.
pub struct UserFile {
    pub file_id: u128,
    pub user_id: u128,
    pub file_name: String,
    pub created_date: i64,
    pub file_size: u64,
    pub file_hash: String,
    pub is_shared: bool,
}

/// The mathematical image of a file row.
pub ghost struct FileV {
    pub file_id: int,
    pub user_id: int,
    pub file_name: Seq<char>,
    pub created_date: int,
    pub file_size: int,
    pub file_hash: Seq<char>,
    pub is_shared: bool,
}

impl View for UserFile {
    type V = FileV;

    open spec fn view(&self) -> FileV {
        FileV {
            file_id: self.file_id as int,
            user_id: self.user_id as int,
            file_name: self.file_name@,
            created_date: self.created_date as int,
            file_size: self.file_size as int,
            file_hash: self.file_hash@,
            is_shared: self.is_shared,
        }
    }
}

impl UserFile {
    /// A field-for-field copy of the row.
    pub fn duplicate(&self) -> (r: UserFile)
        ensures
            r@ == self@,
    {
        UserFile {
            file_id: self.file_id,
            user_id: self.user_id,
            file_name: self.file_name.clone(),
            created_date: self.created_date,
            file_size: self.file_size,
            file_hash: self.file_hash.clone(),
            is_shared: self.is_shared,
        }
    }
}

/// The views of a sequence of file rows.
pub open spec fn file_views(s: Seq<UserFile>) -> Seq<FileV> {
    s.map_values(|f: UserFile| f@)
}

/// How a file read or deletion can fail.
#[derive(Clone, Copy, Debug, PartialEq, Eq, Structural)]
pub enum UserFileErrors {
    /// The caller does not own the file.
    Forbidden,
    /// No catalog row carries this identifier.
    NotFound,
    /// The row exists but its blob is gone: a detected corruption state.
    Deleted,
    /// A backing store refused the deletion.
    FailedToDelete,
}

/// How an upload can fail.
#[derive(Clone, Copy, Debug, PartialEq, Eq, Structural)]
pub enum UploadError {
    /// Rejected before any storage work: the upload holds no bytes.
    EmptyFile,
    /// Rejected before any storage work: the upload is over the size ceiling.
    FileTooLarge,
    /// A backing store refused; neither a row nor a blob was left behind.
    StorageFailure,
}

/// Whether an upload of this many bytes is admitted at all.
pub open spec fn upload_size_ok(size: int) -> bool {
    0 < size <= MAX_FILE_SIZE
}

/// The validation verdict an upload receives before any storage work.
pub open spec fn upload_rejection_of(size: int) -> Option<UploadError> {
    if size == 0 {
        Some(UploadError::EmptyFile)
    } else if size > MAX_FILE_SIZE {
        Some(UploadError::FileTooLarge)
    } else {
        None
    }
}

/// Checks an upload's byte count against the admission rule, before any
/// storage work happens.
pub fn validate_upload_size(size: u64) -> (r: Option<UploadError>)
    ensures
        r == upload_rejection_of(size as int),
        r is None <==> upload_size_ok(size as int),
{
    if size == 0 {
        Some(UploadError::EmptyFile)
    } else if size > MAX_FILE_SIZE {
        Some(UploadError::FileTooLarge)
    } else {
        None
    }
}

/// Reading a file is allowed exactly for its owner.
pub fn user_can_read(file_info: &UserFile, user_id: u128) -> (r: bool)
    ensures
        r == (file_info@.user_id == user_id as int),
{
    file_info.user_id == user_id
}

/// Deleting a file is allowed exactly for its owner.
pub fn user_can_delete(file_info: &UserFile, user_id: u128) -> (r: bool)
    ensures
        r == (file_info@.user_id == user_id as int),
{
    file_info.user_id == user_id
}

// ---------------------------------------------------------------------------
// Stored names: generated identifier plus the original extension.
// ---------------------------------------------------------------------------

/// The name a blob is stored under: the rendered identifier, and the client
/// name's extension where there is one.
pub open spec fn stored_name_of(id: u128, client_name: Seq<char>) -> Seq<char> {
    if has_extension(client_name) {
        uuid_str_of(id) + seq!['.'] + extension_of(client_name)
    } else {
        uuid_str_of(id)
    }
}

/// Builds the stored name for a new file.
pub fn make_stored_name(id: u128, client_name: &str) -> (r: String)
    ensures
        r@ == stored_name_of(id, client_name@),
{
    let mut s = uuid_to_string(id);
    match file_extension(client_name) {
        Some(e) => {
            proof {
                reveal_strlit(".");
            }
            s.append(".");
            s.append(e.as_str());
            proof {
                assert(s@ =~= stored_name_of(id, client_name@));
            }
        },
        None => {},
    }
    s
}

} // verus!

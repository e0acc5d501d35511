//! Files attached to pages.

use vstd::prelude::*;
use uuid::Uuid;

verus! {

/// `uuid::Uuid`, carried as it is.
#[verifier::external_type_specification]
#[verifier::external_body]
pub struct ExUuid(Uuid);

/// A file as the database holds it.
pub struct FileEntity {
    pub file_id: i32,
    pub created_at: String,
    pub updated_at: String,
    pub file_uuid: Uuid,
    pub file_name: String,
    pub file_size: usize,
    pub content_type: String,
}

/// A file as it is handed out.
pub struct FileResponse {
    pub file_uuid: Uuid,
    pub file_name: String,
    pub file_size: usize,
    pub content_type: String,
    pub updated_at: String,
}

impl From<FileEntity> for FileResponse {
    fn from(value: FileEntity) -> (response: FileResponse) {
        FileResponse {
            file_uuid: value.file_uuid,
            file_name: value.file_name,
            file_size: value.file_size,
            content_type: value.content_type,
            updated_at: value.updated_at,
        }
    }
}

impl vstd::std_specs::convert::FromSpecImpl<FileEntity> for FileResponse {
    open spec fn obeys_from_spec() -> bool {
        true
    }

    open spec fn from_spec(value: FileEntity) -> FileResponse {
        FileResponse {
            file_uuid: value.file_uuid,
            file_name: value.file_name,
            file_size: value.file_size,
            content_type: value.content_type,
            updated_at: value.updated_at,
        }
    }
}

} // verus!

//! The rows of the metadata store and the plain values that contracts speak of.
//!
//! Each row type `XRow` is what compiled code holds; its view `XModel` has the same fields
//! with every string as a sequence of characters.

use vstd::prelude::*;

verus! {

/// The characters of an optional string.
pub open spec fn opt_text(o: Option<String>) -> Option<Seq<char>> {
    match o {
        Some(s) => Some(s@),
        None => None,
    }
}

/// A copy of an optional string.
pub fn clone_opt(o: &Option<String>) -> (out: Option<String>)
    ensures
        opt_text(out) == opt_text(*o),
{
    match o {
        Some(s) => Some(s.clone()),
        None => None,
    }
}

/// A repository: a named collection of blobs, manifests and tags.
pub struct RepositoryRow {
    pub id: u64,
    pub name: String,
    pub is_public: bool,
}

/// The view of `Repository`: the same value with every string as its characters.
pub struct RepositoryModel {
    pub id: u64,
    pub name: Seq<char>,
    pub is_public: bool,
}

impl View for RepositoryRow {
    type V = RepositoryModel;

    open spec fn view(&self) -> RepositoryModel {
        RepositoryModel { id: self.id, name: self.name@, is_public: self.is_public }
    }
}

/// A blob of one repository. While an upload is in progress each chunk is a row with the
/// session's identifier and the offset at which the chunk starts; a finished blob has no
/// session.
pub struct BlobRow {
    pub repository_id: u64,
    pub digest: String,
    pub file_path: String,
    pub ref_count: u64,
    pub upload_session_id: Option<String>,
    pub chunk_count: i64,
}

/// The view of `Blob`: the same value with every string as its characters.
pub struct BlobModel {
    pub repository_id: u64,
    pub digest: Seq<char>,
    pub file_path: Seq<char>,
    pub ref_count: u64,
    pub upload_session_id: Option<Seq<char>>,
    pub chunk_count: i64,
}

impl View for BlobRow {
    type V = BlobModel;

    open spec fn view(&self) -> BlobModel {
        BlobModel {
            repository_id: self.repository_id,
            digest: self.digest@,
            file_path: self.file_path@,
            ref_count: self.ref_count,
            upload_session_id: opt_text(self.upload_session_id),
            chunk_count: self.chunk_count,
        }
    }
}

impl BlobModel {
    /// Whether the row is the finished blob `digest` of repository `repository_id`.
    pub open spec fn is_blob(self, repository_id: u64, digest: Seq<char>) -> bool {
        self.upload_session_id.is_none() && self.repository_id == repository_id && self.digest
            == digest
    }

    /// Whether the row is a chunk of session `uuid` in repository `repository_id`.
    pub open spec fn is_chunk(self, repository_id: u64, uuid: Seq<char>) -> bool {
        self.upload_session_id == Some(uuid) && self.repository_id == repository_id
    }

    /// The row with another reference count.
    pub open spec fn with_refs(self, ref_count: u64) -> BlobModel {
        BlobModel { ref_count, ..self }
    }
}

/// An upload session: the bytes received so far, and whether it has been closed.
pub struct UploadRow {
    pub repository_id: u64,
    pub uuid: String,
    pub current_chunk: i64,
    pub finalized: bool,
}

/// The view of `Upload`: the same value with every string as its characters.
pub struct UploadModel {
    pub repository_id: u64,
    pub uuid: Seq<char>,
    pub current_chunk: i64,
    pub finalized: bool,
}

impl View for UploadRow {
    type V = UploadModel;

    open spec fn view(&self) -> UploadModel {
        UploadModel {
            repository_id: self.repository_id,
            uuid: self.uuid@,
            current_chunk: self.current_chunk,
            finalized: self.finalized,
        }
    }
}

/// A stored manifest.
pub struct ManifestRow {
    pub id: u64,
    pub repository_id: u64,
    pub digest: String,
    pub file_path: String,
    pub media_type: Option<String>,
    pub size: i64,
    pub schema_version: i32,
}

/// The view of `Manifest`: the same value with every string as its characters.
pub struct ManifestModel {
    pub id: u64,
    pub repository_id: u64,
    pub digest: Seq<char>,
    pub file_path: Seq<char>,
    pub media_type: Option<Seq<char>>,
    pub size: i64,
    pub schema_version: i32,
}

impl View for ManifestRow {
    type V = ManifestModel;

    open spec fn view(&self) -> ManifestModel {
        ManifestModel {
            id: self.id,
            repository_id: self.repository_id,
            digest: self.digest@,
            file_path: self.file_path@,
            media_type: opt_text(self.media_type),
            size: self.size,
            schema_version: self.schema_version,
        }
    }
}

/// That a manifest references a blob.
pub struct ManifestLayerRow {
    pub manifest_id: u64,
    pub repository_id: u64,
    pub digest: String,
    pub size: i64,
    pub media_type: Option<String>,
}

/// The view of `ManifestLayer`: the same value with every string as its characters.
pub struct ManifestLayerModel {
    pub manifest_id: u64,
    pub repository_id: u64,
    pub digest: Seq<char>,
    pub size: i64,
    pub media_type: Option<Seq<char>>,
}

impl View for ManifestLayerRow {
    type V = ManifestLayerModel;

    open spec fn view(&self) -> ManifestLayerModel {
        ManifestLayerModel {
            manifest_id: self.manifest_id,
            repository_id: self.repository_id,
            digest: self.digest@,
            size: self.size,
            media_type: opt_text(self.media_type),
        }
    }
}

/// A tag: a name in a repository that points at a manifest.
pub struct TagRow {
    pub repository_id: u64,
    pub tag: String,
    pub manifest_id: u64,
}

/// The view of `Tag`: the same value with every string as its characters.
pub struct TagModel {
    pub repository_id: u64,
    pub tag: Seq<char>,
    pub manifest_id: u64,
}

impl View for TagRow {
    type V = TagModel;

    open spec fn view(&self) -> TagModel {
        TagModel { repository_id: self.repository_id, tag: self.tag@, manifest_id: self.manifest_id }
    }
}

/// A user account; `password` is the bcrypt hash.
pub struct UserRow {
    pub id: String,
    pub email: String,
    pub password: String,
    pub is_admin: bool,
    pub created_at: i64,
}

/// The view of `User`: the same value with every string as its characters.
pub struct UserModel {
    pub id: Seq<char>,
    pub email: Seq<char>,
    pub password: Seq<char>,
    pub is_admin: bool,
    pub created_at: i64,
}

impl View for UserRow {
    type V = UserModel;

    open spec fn view(&self) -> UserModel {
        UserModel {
            id: self.id@,
            email: self.email@,
            password: self.password@,
            is_admin: self.is_admin,
            created_at: self.created_at,
        }
    }
}

/// An API key: a long-lived secret that stands for a user.
pub struct ClientRow {
    pub id: u64,
    pub client_id: String,
    pub secret: String,
    pub user_id: String,
    pub created_at: i64,
}

/// The view of `Client`: the same value with every string as its characters.
pub struct ClientModel {
    pub id: u64,
    pub client_id: Seq<char>,
    pub secret: Seq<char>,
    pub user_id: Seq<char>,
    pub created_at: i64,
}

impl View for ClientRow {
    type V = ClientModel;

    open spec fn view(&self) -> ClientModel {
        ClientModel {
            id: self.id,
            client_id: self.client_id@,
            secret: self.secret@,
            user_id: self.user_id@,
            created_at: self.created_at,
        }
    }
}

/// What one user may do in one repository.
pub struct ScopeRow {
    pub user_id: String,
    pub repository_id: u64,
    pub push: bool,
    pub pull: bool,
    pub del: bool,
}

/// The view of `Scope`: the same value with every string as its characters.
pub struct ScopeModel {
    pub user_id: Seq<char>,
    pub repository_id: u64,
    pub push: bool,
    pub pull: bool,
    pub del: bool,
}

impl View for ScopeRow {
    type V = ScopeModel;

    open spec fn view(&self) -> ScopeModel {
        ScopeModel {
            user_id: self.user_id@,
            repository_id: self.repository_id,
            push: self.push,
            pull: self.pull,
            del: self.del,
        }
    }
}

} // verus!

//! The metadata store: the tables of the registry and the typed queries on them.
//!
//! `DbModel` is the mathematical state, a record of sequences of rows; every query and
//! every change is a function on it. `DbConn` holds the same tables in memory, and each of
//! its methods is proved to compute the function of the model that its contract names. A
//! method that fails leaves the tables as they were.

use crate::error::{MetadataFault, Missing, StorageError};
use crate::rows::{
    opt_text, BlobModel, BlobRow, ClientModel, ClientRow, ManifestLayerModel, ManifestLayerRow,
    ManifestModel, ManifestRow, RepositoryModel, RepositoryRow, ScopeModel, ScopeRow, TagModel,
    TagRow, UploadModel, UploadRow, UserModel, UserRow,
};
use crate::table::{
    any_where, first_where, lemma_filter_push, lemma_views_push, position, retain, views_of, Probe,
};
use crate::text::{chars_of, string_of, string_views};
use vstd::prelude::*;

verus! {

/// The state of the metadata store.
pub struct DbModel {
    pub repositories: Seq<RepositoryModel>,
    pub blobs: Seq<BlobModel>,
    pub uploads: Seq<UploadModel>,
    pub manifests: Seq<ManifestModel>,
    pub manifest_layers: Seq<ManifestLayerModel>,
    pub tags: Seq<TagModel>,
    pub users: Seq<UserModel>,
    pub clients: Seq<ClientModel>,
    pub repository_scopes: Seq<ScopeModel>,
    /// The identifier that the next repository, manifest or client gets.
    pub next_id: u64,
}

/// A connection to the metadata store. All tables are held in memory.
pub struct DbConn {
    pub repositories: Vec<RepositoryRow>,
    pub blobs: Vec<BlobRow>,
    pub uploads: Vec<UploadRow>,
    pub manifests: Vec<ManifestRow>,
    pub manifest_layers: Vec<ManifestLayerRow>,
    pub tags: Vec<TagRow>,
    pub users: Vec<UserRow>,
    pub clients: Vec<ClientRow>,
    pub repository_scopes: Vec<ScopeRow>,
    pub next_id: u64,
}

impl View for DbConn {
    type V = DbModel;

    open spec fn view(&self) -> DbModel {
        DbModel {
            repositories: views_of(self.repositories@),
            blobs: views_of(self.blobs@),
            uploads: views_of(self.uploads@),
            manifests: views_of(self.manifests@),
            manifest_layers: views_of(self.manifest_layers@),
            tags: views_of(self.tags@),
            users: views_of(self.users@),
            clients: views_of(self.clients@),
            repository_scopes: views_of(self.repository_scopes@),
            next_id: self.next_id,
        }
    }
}

/// The repository has the name `name`.
pub open spec fn repo_named(name: Seq<char>) -> spec_fn(RepositoryModel) -> bool {
    |r: RepositoryModel| r.name == name
}

/// The repository has the identifier `id`.
pub open spec fn repo_with_id(id: u64) -> spec_fn(RepositoryModel) -> bool {
    |r: RepositoryModel| r.id == id
}

/// The repository is not the one named `name`.
pub open spec fn repo_not_named(name: Seq<char>) -> spec_fn(RepositoryModel) -> bool {
    |r: RepositoryModel| r.name != name
}

/// The row is the finished blob `digest` of repository `repo`.
pub open spec fn blob_at(repo: u64, digest: Seq<char>) -> spec_fn(BlobModel) -> bool {
    |b: BlobModel| b.is_blob(repo, digest)
}

/// The row is a finished blob `digest` of any repository.
pub open spec fn blob_with_digest(digest: Seq<char>) -> spec_fn(BlobModel) -> bool {
    |b: BlobModel| b.upload_session_id.is_none() && b.digest == digest
}

/// The row's file is stored at `path`.
pub open spec fn blob_at_path(path: Seq<char>) -> spec_fn(BlobModel) -> bool {
    |b: BlobModel| b.file_path == path
}

/// The row's file is not stored at `path`.
pub open spec fn blob_off_path(path: Seq<char>) -> spec_fn(BlobModel) -> bool {
    |b: BlobModel| b.file_path != path
}

/// The row's file is not stored at `path`, or the row has the digest `digest`.
pub open spec fn blob_agrees(path: Seq<char>, digest: Seq<char>) -> spec_fn(BlobModel) -> bool {
    |b: BlobModel| b.file_path != path || b.digest == digest
}

/// The row is a chunk of session `uuid` in repository `repo`.
pub open spec fn chunk_of(repo: u64, uuid: Seq<char>) -> spec_fn(BlobModel) -> bool {
    |b: BlobModel| b.is_chunk(repo, uuid)
}

/// The row is no chunk of session `uuid` in repository `repo`.
pub open spec fn not_chunk_of(repo: u64, uuid: Seq<char>) -> spec_fn(BlobModel) -> bool {
    |b: BlobModel| !b.is_chunk(repo, uuid)
}

/// The row is a chunk of a session, or a blob that some manifest references.
pub open spec fn blob_referenced() -> spec_fn(BlobModel) -> bool {
    |b: BlobModel| b.upload_session_id.is_some() || b.ref_count != 0
}

/// The blob row belongs to another repository than `repo`.
pub open spec fn blob_outside(repo: u64) -> spec_fn(BlobModel) -> bool {
    |b: BlobModel| b.repository_id != repo
}

/// The blob row is not the finished blob `digest` of repository `repo`.
pub open spec fn blob_not_at(repo: u64, digest: Seq<char>) -> spec_fn(BlobModel) -> bool {
    |b: BlobModel| !b.is_blob(repo, digest)
}

/// The session has the identifier `uuid`.
pub open spec fn upload_with(uuid: Seq<char>) -> spec_fn(UploadModel) -> bool {
    |u: UploadModel| u.uuid == uuid
}

/// The session has another identifier than `uuid`.
pub open spec fn upload_without(uuid: Seq<char>) -> spec_fn(UploadModel) -> bool {
    |u: UploadModel| u.uuid != uuid
}

/// The session is still open.
pub open spec fn upload_open() -> spec_fn(UploadModel) -> bool {
    |u: UploadModel| !u.finalized
}

/// The session belongs to another repository than `repo`.
pub open spec fn upload_outside(repo: u64) -> spec_fn(UploadModel) -> bool {
    |u: UploadModel| u.repository_id != repo
}

/// The condition `repo_named` as a test that compiled code can run.
pub struct RepoNamed {
    pub name: String,
}

impl Probe<RepositoryRow> for RepoNamed {
    open spec fn cond(&self) -> spec_fn(RepositoryModel) -> bool {
        repo_named(self.name@)
    }

    fn test(&self, row: &RepositoryRow) -> (b: bool) {
        row.name == self.name
    }
}

/// The condition `repo_not_named` as a test that compiled code can run.
pub struct RepoNotNamed {
    pub name: String,
}

impl Probe<RepositoryRow> for RepoNotNamed {
    open spec fn cond(&self) -> spec_fn(RepositoryModel) -> bool {
        repo_not_named(self.name@)
    }

    fn test(&self, row: &RepositoryRow) -> (b: bool) {
        !(row.name == self.name)
    }
}

/// The condition `repo_with_id` as a test that compiled code can run.
pub struct RepoWithId {
    pub id: u64,
}

impl Probe<RepositoryRow> for RepoWithId {
    open spec fn cond(&self) -> spec_fn(RepositoryModel) -> bool {
        repo_with_id(self.id)
    }

    fn test(&self, row: &RepositoryRow) -> (b: bool) {
        row.id == self.id
    }
}

/// The condition `blob_at` as a test that compiled code can run.
pub struct BlobAt {
    pub repo: u64,
    pub digest: String,
}

impl Probe<BlobRow> for BlobAt {
    open spec fn cond(&self) -> spec_fn(BlobModel) -> bool {
        blob_at(self.repo, self.digest@)
    }

    fn test(&self, row: &BlobRow) -> (b: bool) {
        row.upload_session_id.is_none() && row.repository_id == self.repo && row.digest
            == self.digest
    }
}

/// The condition `blob_not_at` as a test that compiled code can run.
pub struct BlobNotAt {
    pub repo: u64,
    pub digest: String,
}

impl Probe<BlobRow> for BlobNotAt {
    open spec fn cond(&self) -> spec_fn(BlobModel) -> bool {
        blob_not_at(self.repo, self.digest@)
    }

    fn test(&self, row: &BlobRow) -> (b: bool) {
        !(row.upload_session_id.is_none() && row.repository_id == self.repo && row.digest
            == self.digest)
    }
}

/// The condition `blob_with_digest` as a test that compiled code can run.
pub struct BlobWithDigest {
    pub digest: String,
}

impl Probe<BlobRow> for BlobWithDigest {
    open spec fn cond(&self) -> spec_fn(BlobModel) -> bool {
        blob_with_digest(self.digest@)
    }

    fn test(&self, row: &BlobRow) -> (b: bool) {
        row.upload_session_id.is_none() && row.digest == self.digest
    }
}

/// The condition `blob_at_path` as a test that compiled code can run.
pub struct BlobAtPath {
    pub path: String,
}

impl Probe<BlobRow> for BlobAtPath {
    open spec fn cond(&self) -> spec_fn(BlobModel) -> bool {
        blob_at_path(self.path@)
    }

    fn test(&self, row: &BlobRow) -> (b: bool) {
        row.file_path == self.path
    }
}

/// The condition `blob_off_path` as a test that compiled code can run.
pub struct BlobOffPath {
    pub path: String,
}

impl Probe<BlobRow> for BlobOffPath {
    open spec fn cond(&self) -> spec_fn(BlobModel) -> bool {
        blob_off_path(self.path@)
    }

    fn test(&self, row: &BlobRow) -> (b: bool) {
        !(row.file_path == self.path)
    }
}

/// The condition `blob_agrees` as a test that compiled code can run.
pub struct BlobAgrees {
    pub path: String,
    pub digest: String,
}

impl Probe<BlobRow> for BlobAgrees {
    open spec fn cond(&self) -> spec_fn(BlobModel) -> bool {
        blob_agrees(self.path@, self.digest@)
    }

    fn test(&self, row: &BlobRow) -> (b: bool) {
        !(row.file_path == self.path) || row.digest == self.digest
    }
}

/// Whether an optional string holds the characters of `text`.
pub fn opt_is(o: &Option<String>, text: &String) -> (b: bool)
    ensures
        b == (opt_text(*o) == Some(text@)),
{
    match o {
        Some(s) => *s == *text,
        None => false,
    }
}

/// The condition `chunk_of` as a test that compiled code can run.
pub struct ChunkOf {
    pub repo: u64,
    pub uuid: String,
}

impl Probe<BlobRow> for ChunkOf {
    open spec fn cond(&self) -> spec_fn(BlobModel) -> bool {
        chunk_of(self.repo, self.uuid@)
    }

    fn test(&self, row: &BlobRow) -> (b: bool) {
        opt_is(&row.upload_session_id, &self.uuid) && row.repository_id == self.repo
    }
}

/// The condition `not_chunk_of` as a test that compiled code can run.
pub struct NotChunkOf {
    pub repo: u64,
    pub uuid: String,
}

impl Probe<BlobRow> for NotChunkOf {
    open spec fn cond(&self) -> spec_fn(BlobModel) -> bool {
        not_chunk_of(self.repo, self.uuid@)
    }

    fn test(&self, row: &BlobRow) -> (b: bool) {
        !(opt_is(&row.upload_session_id, &self.uuid) && row.repository_id == self.repo)
    }
}

/// The condition `blob_referenced` as a test that compiled code can run.
pub struct BlobReferenced {}

impl Probe<BlobRow> for BlobReferenced {
    open spec fn cond(&self) -> spec_fn(BlobModel) -> bool {
        blob_referenced()
    }

    fn test(&self, row: &BlobRow) -> (b: bool) {
        row.upload_session_id.is_some() || row.ref_count != 0
    }
}

/// The condition `blob_outside` as a test that compiled code can run.
pub struct BlobOutside {
    pub repo: u64,
}

impl Probe<BlobRow> for BlobOutside {
    open spec fn cond(&self) -> spec_fn(BlobModel) -> bool {
        blob_outside(self.repo)
    }

    fn test(&self, row: &BlobRow) -> (b: bool) {
        row.repository_id != self.repo
    }
}

/// The condition `upload_with` as a test that compiled code can run.
pub struct UploadWith {
    pub uuid: String,
}

impl Probe<UploadRow> for UploadWith {
    open spec fn cond(&self) -> spec_fn(UploadModel) -> bool {
        upload_with(self.uuid@)
    }

    fn test(&self, row: &UploadRow) -> (b: bool) {
        row.uuid == self.uuid
    }
}

/// The condition `upload_without` as a test that compiled code can run.
pub struct UploadWithout {
    pub uuid: String,
}

impl Probe<UploadRow> for UploadWithout {
    open spec fn cond(&self) -> spec_fn(UploadModel) -> bool {
        upload_without(self.uuid@)
    }

    fn test(&self, row: &UploadRow) -> (b: bool) {
        !(row.uuid == self.uuid)
    }
}

/// The condition `upload_open` as a test that compiled code can run.
pub struct UploadOpen {}

impl Probe<UploadRow> for UploadOpen {
    open spec fn cond(&self) -> spec_fn(UploadModel) -> bool {
        upload_open()
    }

    fn test(&self, row: &UploadRow) -> (b: bool) {
        !row.finalized
    }
}

/// The condition `upload_outside` as a test that compiled code can run.
pub struct UploadOutside {
    pub repo: u64,
}

impl Probe<UploadRow> for UploadOutside {
    open spec fn cond(&self) -> spec_fn(UploadModel) -> bool {
        upload_outside(self.repo)
    }

    fn test(&self, row: &UploadRow) -> (b: bool) {
        row.repository_id != self.repo
    }
}

/// The answer to a failure inside the registry: status 500 and the message.
pub fn internal_error(message: &str) -> (out: (u16, String))
    ensures
        out.0 == 500,
        out.1@ == message@,
{
    (500, owned(message))
}

/// The answer to a lookup that found nothing: status 404 and the message.
pub fn not_found_error(message: &str) -> (out: (u16, String))
    ensures
        out.0 == 404,
        out.1@ == message@,
{
    (404, owned(message))
}

/// An owned copy of the characters of `s`.
pub fn owned(s: &str) -> (out: String)
    ensures
        out@ == s@,
{
    string_of(chars_of(s).as_slice())
}

impl DbModel {
    /// The store with no rows at all.
    pub open spec fn empty() -> DbModel {
        DbModel {
            repositories: Seq::empty(),
            blobs: Seq::empty(),
            uploads: Seq::empty(),
            manifests: Seq::empty(),
            manifest_layers: Seq::empty(),
            tags: Seq::empty(),
            users: Seq::empty(),
            clients: Seq::empty(),
            repository_scopes: Seq::empty(),
            next_id: 1,
        }
    }

    /// Identifier and visibility of the repository named `name`.
    pub open spec fn repo_lookup(self, name: Seq<char>) -> Option<(u64, bool)> {
        let i = first_where(self.repositories, repo_named(name));
        if i < self.repositories.len() {
            Some((self.repositories[i].id, self.repositories[i].is_public))
        } else {
            None
        }
    }

    /// Identifier of the repository named `name`.
    pub open spec fn repo_id(self, name: Seq<char>) -> Option<u64> {
        match self.repo_lookup(name) {
            Some(found) => Some(found.0),
            None => None,
        }
    }

    /// The store with one more repository, which gets the next identifier.
    pub open spec fn with_repository(self, name: Seq<char>, is_public: bool) -> DbModel {
        DbModel {
            repositories: self.repositories.push(
                RepositoryModel { id: self.next_id, name, is_public },
            ),
            next_id: (self.next_id + 1) as u64,
            ..self
        }
    }

    /// The names of the repositories, in the order of the table; with `pub_only`, of the
    /// public ones alone.
    pub open spec fn repository_names(self, pub_only: bool) -> Seq<Seq<char>> {
        self.repositories.filter(|r: RepositoryModel| !pub_only || r.is_public).map_values(
            |r: RepositoryModel| r.name,
        )
    }

    /// Whether repository `repo` holds the finished blob `digest`.
    pub open spec fn blob_exists(self, repo: u64, digest: Seq<char>) -> bool {
        any_where(self.blobs, blob_at(repo, digest))
    }

    /// Where the file of the finished blob `digest` of repository `repo` is stored.
    pub open spec fn blob_path(self, repo: u64, digest: Seq<char>) -> Option<Seq<char>> {
        let i = first_where(self.blobs, blob_at(repo, digest));
        if i < self.blobs.len() {
            Some(self.blobs[i].file_path)
        } else {
            None
        }
    }

    /// Where the file of a finished blob `digest` is stored, in whichever repository holds
    /// it first.
    pub open spec fn any_blob_path(self, digest: Seq<char>) -> Option<Seq<char>> {
        let i = first_where(self.blobs, blob_with_digest(digest));
        if i < self.blobs.len() {
            Some(self.blobs[i].file_path)
        } else {
            None
        }
    }

    /// Whether some blob row names `path` as its file.
    pub open spec fn path_in_use(self, path: Seq<char>) -> bool {
        any_where(self.blobs, blob_at_path(path))
    }

    /// The store with one more blob row.
    pub open spec fn with_blob(self, row: BlobModel) -> DbModel {
        DbModel { blobs: self.blobs.push(row), ..self }
    }

    /// The store with only those blob rows that meet `keep`.
    pub open spec fn keep_blobs(self, keep: spec_fn(BlobModel) -> bool) -> DbModel {
        DbModel { blobs: self.blobs.filter(keep), ..self }
    }

    /// The session `uuid`, if there is one.
    pub open spec fn upload(self, uuid: Seq<char>) -> Option<UploadModel> {
        let i = first_where(self.uploads, upload_with(uuid));
        if i < self.uploads.len() {
            Some(self.uploads[i])
        } else {
            None
        }
    }

    /// The bytes received so far in the open session `uuid`.
    pub open spec fn upload_current_chunk(self, uuid: Seq<char>) -> Option<i64> {
        match self.upload(uuid) {
            Some(u) => if u.finalized {
                None
            } else {
                Some(u.current_chunk)
            },
            None => None,
        }
    }

    /// The store with a new open session at offset 0.
    pub open spec fn with_upload(self, repo: u64, uuid: Seq<char>) -> DbModel {
        DbModel {
            uploads: self.uploads.push(
                UploadModel { repository_id: repo, uuid, current_chunk: 0, finalized: false },
            ),
            ..self
        }
    }

    /// The store with the first session `uuid` replaced by `next`.
    pub open spec fn with_upload_set(self, uuid: Seq<char>, next: UploadModel) -> DbModel {
        let i = first_where(self.uploads, upload_with(uuid));
        if i < self.uploads.len() {
            DbModel { uploads: self.uploads.update(i, next), ..self }
        } else {
            self
        }
    }

    /// The store with session `uuid` moved to `offset`.
    pub open spec fn with_upload_at(self, uuid: Seq<char>, offset: i64) -> DbModel {
        match self.upload(uuid) {
            Some(u) => self.with_upload_set(uuid, UploadModel { current_chunk: offset, ..u }),
            None => self,
        }
    }

    /// The store with session `uuid` closed.
    pub open spec fn with_upload_closed(self, uuid: Seq<char>) -> DbModel {
        match self.upload(uuid) {
            Some(u) => self.with_upload_set(uuid, UploadModel { finalized: true, ..u }),
            None => self,
        }
    }

    /// The store without the sessions `uuid`.
    pub open spec fn without_upload(self, uuid: Seq<char>) -> DbModel {
        DbModel { uploads: self.uploads.filter(upload_without(uuid)), ..self }
    }
}

impl DbConn {
    /// A store with no rows.
    pub fn new() -> (out: Self)
        ensures
            out@ == DbModel::empty(),
    {
        let out = DbConn {
            repositories: Vec::new(),
            blobs: Vec::new(),
            uploads: Vec::new(),
            manifests: Vec::new(),
            manifest_layers: Vec::new(),
            tags: Vec::new(),
            users: Vec::new(),
            clients: Vec::new(),
            repository_scopes: Vec::new(),
            next_id: 1,
        };
        proof {
            assert(out@.repositories =~= Seq::empty());
            assert(out@.blobs =~= Seq::empty());
            assert(out@.uploads =~= Seq::empty());
            assert(out@.manifests =~= Seq::empty());
            assert(out@.manifest_layers =~= Seq::empty());
            assert(out@.tags =~= Seq::empty());
            assert(out@.users =~= Seq::empty());
            assert(out@.clients =~= Seq::empty());
            assert(out@.repository_scopes =~= Seq::empty());
        }
        out
    }

    /// Identifier and visibility of the repository named `name`.
    pub fn repo_lookup(&self, name: &str) -> (out: Option<(u64, bool)>)
        ensures
            out == self@.repo_lookup(name@),
    {
        let probe = RepoNamed { name: owned(name) };
        match position(&self.repositories, &probe) {
            Some(i) => Some((self.repositories[i].id, self.repositories[i].is_public)),
            None => None,
        }
    }

    /// Identifier of the repository named `name`; `NotFound(Repository)` without one.
    pub fn repo_id(&self, name: &str) -> (out: Result<u64, StorageError>)
        ensures
            out == (match self@.repo_id(name@) {
                Some(id) => Ok::<u64, StorageError>(id),
                None => Err::<u64, StorageError>(StorageError::NotFound(Missing::Repository)),
            }),
    {
        match self.repo_lookup(name) {
            Some(found) => Ok(found.0),
            None => Err(StorageError::NotFound(Missing::Repository)),
        }
    }

    /// Adds a repository. A name that is taken is refused as `Duplicate`; a store that has
    /// used up its identifiers refuses with `OutOfRange`.
    pub fn create_repository(&mut self, name: &str, is_public: bool) -> (out: Result<
        u64,
        StorageError,
    >)
        ensures
            out == (if old(self)@.repo_lookup(name@).is_some() {
                Err::<u64, StorageError>(StorageError::MetadataError(MetadataFault::Duplicate))
            } else if old(self)@.next_id == u64::MAX {
                Err::<u64, StorageError>(StorageError::MetadataError(MetadataFault::OutOfRange))
            } else {
                Ok::<u64, StorageError>(old(self)@.next_id)
            }),
            final(self)@ == (if out.is_ok() {
                old(self)@.with_repository(name@, is_public)
            } else {
                old(self)@
            }),
    {
        if self.repo_lookup(name).is_some() {
            return Err(StorageError::MetadataError(MetadataFault::Duplicate));
        }
        if self.next_id == u64::MAX {
            return Err(StorageError::MetadataError(MetadataFault::OutOfRange));
        }
        let id = self.next_id;
        let row = RepositoryRow { id, name: owned(name), is_public };
        proof {
            lemma_views_push(self.repositories@, row);
        }
        self.repositories.push(row);
        self.next_id = id + 1;
        Ok(id)
    }

    /// The names of the repositories; with `pub_only`, of the public ones alone.
    pub fn get_repositories(&self, pub_only: bool) -> (out: Vec<String>)
        ensures
            string_views(out@) == self@.repository_names(pub_only),
    {
        let ghost keep = |r: RepositoryModel| !pub_only || r.is_public;
        let ghost rows = self@.repositories;
        let mut out: Vec<String> = Vec::new();
        let mut i: usize = 0;
        proof {
            assert(rows.take(0) =~= Seq::<RepositoryModel>::empty());
            assert(rows.take(0).filter(keep) =~= Seq::<RepositoryModel>::empty()) by {
                reveal(Seq::filter);
            }
            assert(string_views(out@) =~= rows.take(0).filter(keep).map_values(
                |r: RepositoryModel| r.name,
            ));
        }
        while i < self.repositories.len()
            invariant
                i <= self.repositories.len(),
                rows == views_of(self.repositories@),
                keep == (|r: RepositoryModel| !pub_only || r.is_public),
                string_views(out@) == rows.take(i as int).filter(keep).map_values(
                    |r: RepositoryModel| r.name,
                ),
            decreases self.repositories.len() - i,
        {
            proof {
                assert(rows.take(i + 1) =~= rows.take(i as int).push(rows[i as int]));
                lemma_filter_push(rows.take(i as int), rows[i as int], keep);
            }
            if !pub_only || self.repositories[i].is_public {
                let ghost before = out@;
                let name = self.repositories[i].name.clone();
                out.push(name);
                proof {
                    assert(string_views(out@) =~= string_views(before).push(name@));
                    assert(string_views(out@) =~= rows.take(i + 1).filter(keep).map_values(
                        |r: RepositoryModel| r.name,
                    ));
                }
            }
            i += 1;
        }
        proof {
            assert(rows.take(self.repositories.len() as int) =~= rows);
        }
        out
    }

    /// Whether repository `repo` holds the finished blob `digest`.
    pub fn blob_exists(&self, repo: u64, digest: &str) -> (out: bool)
        ensures
            out == self@.blob_exists(repo, digest@),
    {
        let probe = BlobAt { repo, digest: owned(digest) };
        position(&self.blobs, &probe).is_some()
    }

    /// Where the file of the finished blob `digest` of repository `repo` is stored.
    pub fn blob_path(&self, repo: u64, digest: &str) -> (out: Option<String>)
        ensures
            opt_text(out) == self@.blob_path(repo, digest@),
    {
        let probe = BlobAt { repo, digest: owned(digest) };
        match position(&self.blobs, &probe) {
            Some(i) => Some(self.blobs[i].file_path.clone()),
            None => None,
        }
    }

    /// Where the file of a finished blob `digest` is stored, in whichever repository holds
    /// it first.
    pub fn any_blob_path(&self, digest: &str) -> (out: Option<String>)
        ensures
            opt_text(out) == self@.any_blob_path(digest@),
    {
        let probe = BlobWithDigest { digest: owned(digest) };
        match position(&self.blobs, &probe) {
            Some(i) => Some(self.blobs[i].file_path.clone()),
            None => None,
        }
    }

    /// Whether some blob row names `path` as its file.
    pub fn path_in_use(&self, path: &str) -> (out: bool)
        ensures
            out == self@.path_in_use(path@),
    {
        let probe = BlobAtPath { path: owned(path) };
        position(&self.blobs, &probe).is_some()
    }

    /// Adds a blob row: a finished blob when `session` is `None`, else a chunk of that
    /// session that starts at offset `chunk`. The reference count starts at 0.
    pub fn insert_blob(
        &mut self,
        repo: u64,
        digest: &str,
        path: &str,
        session: Option<&str>,
        chunk: i64,
    )
        ensures
            final(self)@ == old(self)@.with_blob(
                BlobModel {
                    repository_id: repo,
                    digest: digest@,
                    file_path: path@,
                    ref_count: 0,
                    upload_session_id: match session {
                        Some(s) => Some(s@),
                        None => None,
                    },
                    chunk_count: chunk,
                },
            ),
    {
        let row = BlobRow {
            repository_id: repo,
            digest: owned(digest),
            file_path: owned(path),
            ref_count: 0,
            upload_session_id: match session {
                Some(s) => Some(owned(s)),
                None => None,
            },
            chunk_count: chunk,
        };
        proof {
            lemma_views_push(self.blobs@, row);
        }
        self.blobs.push(row);
    }

    /// The session `uuid`'s offset: the bytes received so far. `None` when there is no such
    /// session or it has been closed.
    pub fn upload_current_chunk(&self, uuid: &str) -> (out: Option<i64>)
        ensures
            out == self@.upload_current_chunk(uuid@),
    {
        let probe = UploadWith { uuid: owned(uuid) };
        match position(&self.uploads, &probe) {
            Some(i) => if self.uploads[i].finalized {
                None
            } else {
                Some(self.uploads[i].current_chunk)
            },
            None => None,
        }
    }

    /// Opens session `uuid` in repository `repo` at offset 0. An identifier that is taken is
    /// refused as `Duplicate`.
    pub fn upload_create(&mut self, repo: u64, uuid: &str) -> (out: Result<(), StorageError>)
        ensures
            out == (if old(self)@.upload(uuid@).is_some() {
                Err::<(), StorageError>(StorageError::MetadataError(MetadataFault::Duplicate))
            } else {
                Ok::<(), StorageError>(())
            }),
            final(self)@ == (if out.is_ok() {
                old(self)@.with_upload(repo, uuid@)
            } else {
                old(self)@
            }),
    {
        let probe = UploadWith { uuid: owned(uuid) };
        if position(&self.uploads, &probe).is_some() {
            return Err(StorageError::MetadataError(MetadataFault::Duplicate));
        }
        let row = UploadRow { repository_id: repo, uuid: owned(uuid), current_chunk: 0, finalized: false };
        proof {
            lemma_views_push(self.uploads@, row);
        }
        self.uploads.push(row);
        Ok(())
    }

    /// Moves session `uuid` to `offset`. Without such a session nothing changes.
    pub fn upload_advance(&mut self, uuid: &str, offset: i64)
        ensures
            final(self)@ == old(self)@.with_upload_at(uuid@, offset),
    {
        let probe = UploadWith { uuid: owned(uuid) };
        match position(&self.uploads, &probe) {
            Some(i) => {
                self.uploads[i].current_chunk = offset;
                assert(self@.uploads =~= old(self)@.uploads.update(
                    i as int,
                    UploadModel { current_chunk: offset, ..old(self)@.uploads[i as int] },
                ));
            },
            None => {},
        }
    }

    /// Closes session `uuid`. Without such a session nothing changes.
    pub fn upload_finalize(&mut self, uuid: &str)
        ensures
            final(self)@ == old(self)@.with_upload_closed(uuid@),
    {
        let probe = UploadWith { uuid: owned(uuid) };
        match position(&self.uploads, &probe) {
            Some(i) => {
                self.uploads[i].finalized = true;
                assert(self@.uploads =~= old(self)@.uploads.update(
                    i as int,
                    UploadModel { finalized: true, ..old(self)@.uploads[i as int] },
                ));
            },
            None => {},
        }
    }

    /// Removes session `uuid`.
    pub fn upload_delete(&mut self, uuid: &str)
        ensures
            final(self)@ == old(self)@.without_upload(uuid@),
    {
        let probe = UploadWithout { uuid: owned(uuid) };
        retain(&mut self.uploads, &probe);
    }

    /// Keeps the blob rows that meet `keep` and removes the others.
    pub fn keep_blobs<P: Probe<BlobRow>>(&mut self, keep: &P)
        ensures
            final(self)@ == old(self)@.keep_blobs(keep.cond()),
    {
        retain(&mut self.blobs, keep);
    }
}

} // verus!

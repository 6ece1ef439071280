//! Manifests, blobs and repositories in the content store: storing and deleting a
//! manifest, reading and deleting a blob, creating and deleting a repository, and the
//! collection of blobs that nothing references.
//!
//! Each operation keeps the rule of the store: a blob row names a stored file with the
//! row's digest. A file is removed only when no blob row names it.

use crate::accounts::{scope_outside, ScopeOutside};
use crate::database::{
    blob_at, blob_not_at, blob_outside, blob_referenced, owned, repo_not_named, upload_open,
    upload_outside, BlobNotAt, BlobOutside, BlobReferenced, DbConn, DbModel, RepoNotNamed,
    UploadOpen, UploadOutside,
};
use crate::digest::{add_sha_header, calculate_digest, digest_of, with_prefix};
use crate::error::{IoFault, MetadataFault, Missing, StorageError};
use crate::index::{
    blob_survives, bumped, dropped, layer_outside, manifest_outside, tag_outside, LayerOutside,
    ManifestOutside, TagOutside,
};
use crate::paths::{join, join_path, manifests_word, path_is_plain, plain_path, valid_reference};
use crate::rows::{BlobModel, BlobRow, ManifestModel};
use crate::shared::{ImageManifest, ImageManifestModel};
use crate::storage::{backed, lemma_backed_keep, lemma_backed_swept, swept, LocalStorageDriver};
use crate::table::{
    any_where, lemma_filter_push, lemma_first_where, position, retain, views_of, Probe,
};
use crate::text::string_views;
use crate::uploads::lemma_backed_same_blobs;
use vstd::prelude::*;

verus! {

/// The directory of the manifests of the repository named `name`, relative to the base
/// path.
pub open spec fn manifest_dir(name: Seq<char>) -> Seq<char> {
    join(name, manifests_word())
}

/// The file of the manifest stored under `reference` in the repository named `name`.
pub open spec fn manifest_file(root: Seq<char>, name: Seq<char>, reference: Seq<char>) -> Seq<char> {
    join(join(root, manifest_dir(name)), reference)
}

/// The row is the finished blob `digest` of `repo`, and some manifest references it.
pub open spec fn blob_held(repo: u64, digest: Seq<char>) -> spec_fn(BlobModel) -> bool {
    |b: BlobModel| b.is_blob(repo, digest) && b.ref_count > 0
}

/// The condition `blob_held` as a test that compiled code can run.
pub struct BlobHeld {
    pub repo: u64,
    pub digest: String,
}

impl Probe<BlobRow> for BlobHeld {
    open spec fn cond(&self) -> spec_fn(BlobModel) -> bool {
        blob_held(self.repo, self.digest@)
    }

    fn test(&self, row: &BlobRow) -> (b: bool) {
        row.upload_session_id.is_none() && row.repository_id == self.repo && row.digest
            == self.digest && row.ref_count > 0
    }
}

/// Why a manifest cannot be stored, if it cannot: the name makes no plain path or the
/// reference is neither a tag nor a content address, the bytes are no manifest, the path
/// holds the file of a blob, or the metadata store refuses.
pub open spec fn write_manifest_error(
    db: DbModel,
    root: Seq<char>,
    name: Seq<char>,
    reference: Seq<char>,
    parsed: Option<ImageManifestModel>,
) -> Option<StorageError> {
    if !(plain_path(manifest_dir(name)) && valid_reference(reference)) {
        Some(StorageError::IoError(IoFault::InvalidInput))
    } else {
        match parsed {
            None => Some(StorageError::InvalidInput),
            Some(m) => if db.path_in_use(manifest_file(root, name, reference)) {
                Some(StorageError::IoError(IoFault::InUse))
            } else {
                db.put_manifest_error(name, m)
            },
        }
    }
}

/// Why a blob cannot be read, if it cannot.
pub open spec fn read_blob_error(db: DbModel, files: Map<Seq<char>, Seq<u8>>, name: Seq<char>, digest: Seq<char>) -> Option<
    StorageError,
> {
    match db.repo_id(name) {
        None => Some(StorageError::NotFound(Missing::Repository)),
        Some(repo) => match db.blob_path(repo, with_prefix(digest)) {
            None => Some(StorageError::NotFound(Missing::Blob)),
            Some(path) => if files.contains_key(path) {
                None
            } else {
                Some(StorageError::IoError(IoFault::NotFound))
            },
        },
    }
}

/// Why a blob cannot be deleted, if it cannot: the repository or the blob is missing, or a
/// manifest still references the blob.
pub open spec fn delete_blob_error(db: DbModel, name: Seq<char>, digest: Seq<char>) -> Option<StorageError> {
    match db.repo_id(name) {
        None => Some(StorageError::NotFound(Missing::Repository)),
        Some(repo) => if !db.blob_exists(repo, with_prefix(digest)) {
            Some(StorageError::NotFound(Missing::Blob))
        } else if any_where(db.blobs, blob_held(repo, with_prefix(digest))) {
            Some(StorageError::MetadataError(MetadataFault::InUse))
        } else {
            None
        },
    }
}

impl DbModel {
    /// The paths that the blob rows name, in the order of the table.
    pub open spec fn blob_paths(self) -> Seq<Seq<char>> {
        self.blobs.map_values(|b: BlobModel| b.file_path)
    }

    /// The paths that the manifest rows name, in the order of the table.
    pub open spec fn manifest_paths(self) -> Seq<Seq<char>> {
        self.manifests.map_values(|m: ManifestModel| m.file_path)
    }

    /// The store without the finished blobs that nothing references and without the
    /// sessions that were closed.
    pub open spec fn collected(self) -> DbModel {
        DbModel {
            blobs: self.blobs.filter(blob_referenced()),
            uploads: self.uploads.filter(upload_open()),
            ..self
        }
    }

    /// The store without repository `repo`, named `name`, and all that belongs to it.
    pub open spec fn without_repository(self, repo: u64, name: Seq<char>) -> DbModel {
        DbModel {
            repositories: self.repositories.filter(repo_not_named(name)),
            blobs: self.blobs.filter(blob_outside(repo)),
            uploads: self.uploads.filter(upload_outside(repo)),
            manifests: self.manifests.filter(manifest_outside(repo)),
            manifest_layers: self.manifest_layers.filter(layer_outside(repo)),
            tags: self.tags.filter(tag_outside(repo)),
            repository_scopes: self.repository_scopes.filter(scope_outside(repo)),
            ..self
        }
    }
}

/// Adding references keeps the rows backed.
pub proof fn lemma_backed_refs_added(db: DbModel, files: Map<Seq<char>, Seq<u8>>, repo: u64, digests: Seq<Seq<char>>)
    requires
        backed(db, files),
    ensures
        backed(db.with_refs_added(repo, digests), files),
{
    let next = db.with_refs_added(repo, digests);
    assert forall|i: int| 0 <= i < next.blobs.len() implies files.contains_key((#[trigger] next.blobs[i]).file_path)
        && digest_of(files[next.blobs[i].file_path]) == next.blobs[i].digest by {
        assert(next.blobs[i] == bumped(db.blobs[i], repo, digests));
    }
}

/// Taking references away keeps the rows backed.
pub proof fn lemma_backed_refs_dropped(db: DbModel, files: Map<Seq<char>, Seq<u8>>, repo: u64, digests: Seq<Seq<char>>)
    requires
        backed(db, files),
    ensures
        backed(db.with_refs_dropped(repo, digests), files),
{
    let lowered = DbModel { blobs: db.blobs.map_values(|b: BlobModel| dropped(b, repo, digests)), ..db };
    assert forall|i: int| 0 <= i < lowered.blobs.len() implies files.contains_key((#[trigger] lowered.blobs[i]).file_path)
        && digest_of(files[lowered.blobs[i].file_path]) == lowered.blobs[i].digest by {
        assert(lowered.blobs[i] == dropped(db.blobs[i], repo, digests));
    }
    lemma_backed_keep(lowered, files, blob_survives(repo, digests));
    assert(lowered.keep_blobs(blob_survives(repo, digests)) == db.with_refs_dropped(repo, digests));
}

/// Writing a file at a path that no blob row names keeps the rows backed.
pub proof fn lemma_backed_free_write(db: DbModel, files: Map<Seq<char>, Seq<u8>>, path: Seq<char>, data: Seq<u8>)
    requires
        backed(db, files),
        !db.path_in_use(path),
    ensures
        backed(db, files.insert(path, data)),
{
    lemma_first_where(db.blobs, crate::database::blob_at_path(path));
    let next = files.insert(path, data);
    assert forall|i: int| 0 <= i < db.blobs.len() implies next.contains_key((#[trigger] db.blobs[i]).file_path)
        && digest_of(next[db.blobs[i].file_path]) == db.blobs[i].digest by {
        assert(!(crate::database::blob_at_path(path))(db.blobs[i]));
    }
}

fn manifest_dir_of(name: &str) -> (out: String)
    ensures
        out@ == manifest_dir(name@),
{
    proof {
        reveal_strlit("manifests");
        assert("manifests"@ =~= manifests_word());
    }
    join_path(name, "manifests")
}

impl DbConn {
    /// The paths that the blob rows name.
    pub fn blob_paths(&self) -> (out: Vec<String>)
        ensures
            string_views(out@) == self@.blob_paths(),
    {
        let ghost want = self@.blob_paths();
        let mut out: Vec<String> = Vec::new();
        let mut i: usize = 0;
        while i < self.blobs.len()
            invariant
                i <= self.blobs.len(),
                want == self@.blob_paths(),
                string_views(out@) == want.take(i as int),
            decreases self.blobs.len() - i,
        {
            let ghost before = out@;
            let path = self.blobs[i].file_path.clone();
            out.push(path);
            proof {
                assert(want[i as int] == path@);
                assert(string_views(out@) =~= string_views(before).push(path@));
                assert(string_views(out@) =~= want.take(i + 1));
            }
            i += 1;
        }
        proof {
            assert(want.take(self.blobs.len() as int) =~= want);
        }
        out
    }

    /// The paths that the manifest rows name.
    pub fn manifest_paths(&self) -> (out: Vec<String>)
        ensures
            string_views(out@) == self@.manifest_paths(),
    {
        let ghost want = self@.manifest_paths();
        let mut out: Vec<String> = Vec::new();
        let mut i: usize = 0;
        while i < self.manifests.len()
            invariant
                i <= self.manifests.len(),
                want == self@.manifest_paths(),
                string_views(out@) == want.take(i as int),
            decreases self.manifests.len() - i,
        {
            let ghost before = out@;
            let path = self.manifests[i].file_path.clone();
            out.push(path);
            proof {
                assert(want[i as int] == path@);
                assert(string_views(out@) =~= string_views(before).push(path@));
                assert(string_views(out@) =~= want.take(i + 1));
            }
            i += 1;
        }
        proof {
            assert(want.take(self.manifests.len() as int) =~= want);
        }
        out
    }

    /// Removes the finished blobs that nothing references and the sessions that were closed.
    pub fn collect(&mut self)
        ensures
            final(self)@ == old(self)@.collected(),
    {
        retain(&mut self.blobs, &BlobReferenced {  });
        retain(&mut self.uploads, &UploadOpen {  });
    }

    /// Removes repository `repo`, named `name`, and all that belongs to it.
    pub fn remove_repository(&mut self, repo: u64, name: &str)
        ensures
            final(self)@ == old(self)@.without_repository(repo, name@),
    {
        retain(&mut self.repositories, &RepoNotNamed { name: owned(name) });
        retain(&mut self.blobs, &BlobOutside { repo });
        retain(&mut self.uploads, &UploadOutside { repo });
        retain(&mut self.manifests, &ManifestOutside { repo });
        retain(&mut self.manifest_layers, &LayerOutside { repo });
        retain(&mut self.tags, &TagOutside { repo });
        retain(&mut self.repository_scopes, &ScopeOutside { repo });
    }
}

/// `a` followed by `b`.
pub fn concat_strings(a: Vec<String>, b: Vec<String>) -> (out: Vec<String>)
    ensures
        string_views(out@) == string_views(a@) + string_views(b@),
{
    let mut out = a;
    let mut i: usize = 0;
    proof {
        assert(string_views(out@) =~= string_views(a@) + string_views(b@).take(0));
    }
    while i < b.len()
        invariant
            i <= b.len(),
            string_views(out@) == string_views(a@) + string_views(b@).take(i as int),
        decreases b.len() - i,
    {
        let ghost before = out@;
        let item = b[i].clone();
        out.push(item);
        proof {
            assert(string_views(out@) =~= string_views(before).push(item@));
            assert(string_views(b@).take(i + 1) =~= string_views(b@).take(i as int).push(item@));
            assert(string_views(out@) =~= string_views(a@) + string_views(b@).take(i + 1));
        }
        i += 1;
    }
    proof {
        assert(string_views(b@).take(b.len() as int) =~= string_views(b@));
    }
    out
}

impl LocalStorageDriver {
    /// Adds the repository named `name`. A name that is no repository name is refused with
    /// `InvalidInput`, a name that is taken as `Duplicate`.
    pub fn create_repository(&self, pool: &mut DbConn, name: &str, is_pub: bool) -> (out: Result<
        (),
        StorageError,
    >)
        ensures
            out == (if !crate::paths::valid_namespace(name@) {
                Err::<(), StorageError>(StorageError::InvalidInput)
            } else if old(pool)@.repo_lookup(name@).is_some() {
                Err::<(), StorageError>(StorageError::MetadataError(MetadataFault::Duplicate))
            } else if old(pool)@.next_id == u64::MAX {
                Err::<(), StorageError>(StorageError::MetadataError(MetadataFault::OutOfRange))
            } else {
                Ok::<(), StorageError>(())
            }),
            final(pool)@ == (if out.is_ok() {
                old(pool)@.with_repository(name@, is_pub)
            } else {
                old(pool)@
            }),
            backed(old(pool)@, self.files()) ==> backed(final(pool)@, self.files()),
            old(pool)@.wf() ==> final(pool)@.wf(),
    {
        if !crate::paths::is_valid_namespace(name) {
            return Err(StorageError::InvalidInput);
        }
        proof {
            if backed(pool@, self.files()) {
                lemma_backed_same_blobs(pool@, pool@.with_repository(name@, is_pub), self.files());
            }
            if pool@.wf() && pool@.repo_lookup(name@).is_none() && pool@.next_id < u64::MAX {
                crate::wellformed::law_wf_with_repository(pool@, name@, is_pub);
            }
        }
        match pool.create_repository(name, is_pub) {
            Ok(_) => Ok(()),
            Err(e) => Err(e),
        }
    }

    /// Stores the manifest `data` of the repository named `name` under `reference`.
    /// `parsed` is what the bytes read as, `None` if they are no manifest. The manifest is
    /// recorded with the digest of its bytes, each layer is recorded and puts one reference
    /// on its blob, and the tag `reference` points at the manifest. Returns the digest. A
    /// refusal changes nothing: neither a file nor a row.
    pub fn write_manifest(
        &mut self,
        pool: &mut DbConn,
        name: &str,
        reference: &str,
        data: Vec<u8>,
        parsed: &Option<ImageManifest>,
    ) -> (out: Result<String, StorageError>)
        requires
            old(self).wf(),
        ensures
            final(self).wf(),
            final(self).root() == old(self).root(),
            match out {
                Ok(digest) => write_manifest_error(
                    old(pool)@,
                    old(self).root(),
                    name@,
                    reference@,
                    match *parsed {
                        Some(m) => Some(m@),
                        None => None,
                    },
                ).is_none() && digest@ == digest_of(data@) && ({
                    let path = manifest_file(old(self).root(), name@, reference@);
                    &&& final(self).files() == old(self).files().insert(path, data@)
                    &&& final(pool)@ == old(pool)@.put_manifest(
                        old(pool)@.repo_id(name@).unwrap(),
                        reference@,
                        digest_of(data@),
                        path,
                        parsed.unwrap()@,
                    )
                }),
                Err(e) => write_manifest_error(
                    old(pool)@,
                    old(self).root(),
                    name@,
                    reference@,
                    match *parsed {
                        Some(m) => Some(m@),
                        None => None,
                    },
                ) == Some(e) && final(self).files() == old(self).files() && final(pool)@ == old(pool)@,
            },
            backed(old(pool)@, old(self).files()) ==> backed(final(pool)@, final(self).files()),
            old(pool)@.wf() ==> final(pool)@.wf(),
    {
        let dir = manifest_dir_of(name);
        if !path_is_plain(dir.as_str()) || !crate::paths::is_valid_reference(reference) {
            return Err(StorageError::IoError(IoFault::InvalidInput));
        }
        proof {
            crate::paths::lemma_reference_is_plain(reference@);
        }
        let manifest = match parsed {
            Some(m) => m,
            None => {
                return Err(StorageError::InvalidInput);
            },
        };
        let full = join_path(join_path(self.base_path().as_str(), dir.as_str()).as_str(), reference);
        if pool.path_in_use(full.as_str()) {
            return Err(StorageError::IoError(IoFault::InUse));
        }
        let digest = calculate_digest(data.as_slice());
        proof {
            if pool@.wf() && pool@.put_manifest_error(name@, manifest@).is_none() {
                crate::wellformed::law_wf_put_manifest(pool@, name@, reference@, digest@, full@, manifest@);
            }
        }
        match pool.put_manifest(name, reference, digest.as_str(), full.as_str(), manifest) {
            Ok(_) => {},
            Err(e) => {
                return Err(e);
            },
        }
        proof {
            if backed(old(pool)@, self.files()) {
                let repo = old(pool)@.repo_id(name@).unwrap();
                let names = crate::index::layer_names(manifest@.layers);
                lemma_backed_free_write(old(pool)@, self.files(), full@, data@);
                lemma_backed_refs_added(old(pool)@, self.files().insert(full@, data@), repo, names);
                lemma_backed_same_blobs(
                    old(pool)@.with_refs_added(repo, names),
                    pool@,
                    self.files().insert(full@, data@),
                );
            }
        }
        proof {
            crate::paths::lemma_plain_path_normal(dir@);
        }
        match self.stream_to_file(dir.as_str(), reference, data) {
            Ok(_) => {},
            Err(e) => {
                return Err(e);
            },
        }
        Ok(digest)
    }

    /// The bytes of the blob `digest`, given with or without the `sha256:` prefix, of the
    /// repository named `name`. In a store that keeps its rule they hash to the digest.
    pub fn read_blob(&self, pool: &DbConn, name: &str, digest: &str) -> (out: Result<
        Vec<u8>,
        StorageError,
    >)
        requires
            self.wf(),
        ensures
            match out {
                Ok(data) => read_blob_error(pool@, self.files(), name@, digest@).is_none() && data@
                    == self.files()[pool@.blob_path(
                    pool@.repo_id(name@).unwrap(),
                    with_prefix(digest@),
                ).unwrap()] && (backed(pool@, self.files()) ==> digest_of(data@) == with_prefix(
                    digest@,
                )),
                Err(e) => read_blob_error(pool@, self.files(), name@, digest@) == Some(e),
            },
    {
        let repo = match pool.repo_lookup(name) {
            Some(found) => found.0,
            None => {
                return Err(StorageError::NotFound(Missing::Repository));
            },
        };
        let wanted = add_sha_header(digest);
        let path = match pool.blob_path(repo, wanted.as_str()) {
            Some(path) => path,
            None => {
                return Err(StorageError::NotFound(Missing::Blob));
            },
        };
        proof {
            lemma_first_where(pool@.blobs, blob_at(repo, wanted@));
        }
        self.read_file(path.as_str())
    }

    /// The bytes of the manifest stored at `path`; `IoError(NotFound)` without a file.
    pub fn read_manifest(&self, path: &str) -> (out: Result<Vec<u8>, StorageError>)
        requires
            self.wf(),
        ensures
            match out {
                Ok(data) => self.files().contains_key(path@) && data@ == self.files()[path@],
                Err(e) => !self.files().contains_key(path@) && e == StorageError::IoError(
                    IoFault::NotFound,
                ),
            },
    {
        self.read_file(path)
    }

    /// Deletes the blob `digest`, given with or without the `sha256:` prefix, from the
    /// repository named `name`. A blob that a manifest still references is not deleted: it
    /// is refused as `InUse`. The file goes unless another blob row names it.
    pub fn delete_blob(&mut self, pool: &mut DbConn, name: &str, digest: &str) -> (out: Result<
        (),
        StorageError,
    >)
        requires
            old(self).wf(),
        ensures
            final(self).wf(),
            final(self).root() == old(self).root(),
            out == (match delete_blob_error(old(pool)@, name@, digest@) {
                Some(e) => Err::<(), StorageError>(e),
                None => Ok::<(), StorageError>(()),
            }),
            out.is_err() ==> final(self).files() == old(self).files() && final(pool)@ == old(pool)@,
            out.is_ok() ==> ({
                let repo = old(pool)@.repo_id(name@).unwrap();
                &&& final(pool)@ == old(pool)@.keep_blobs(blob_not_at(repo, with_prefix(digest@)))
                &&& final(self).files() == swept(
                    old(self).files(),
                    final(pool)@,
                    seq![old(pool)@.blob_path(repo, with_prefix(digest@)).unwrap()],
                )
            }),
            backed(old(pool)@, old(self).files()) ==> backed(final(pool)@, final(self).files()),
            old(pool)@.wf() ==> final(pool)@.wf(),
    {
        let repo = match pool.repo_lookup(name) {
            Some(found) => found.0,
            None => {
                return Err(StorageError::NotFound(Missing::Repository));
            },
        };
        let wanted = add_sha_header(digest);
        let path = match pool.blob_path(repo, wanted.as_str()) {
            Some(path) => path,
            None => {
                return Err(StorageError::NotFound(Missing::Blob));
            },
        };
        if position(&pool.blobs, &BlobHeld { repo, digest: owned(wanted.as_str()) }).is_some() {
            return Err(StorageError::MetadataError(MetadataFault::InUse));
        }
        proof {
            if pool@.wf() {
                crate::wellformed::law_wf_blobs(pool@, pool@.keep_blobs(blob_not_at(repo, wanted@)));
            }
            if backed(pool@, self.files()) {
                lemma_backed_keep(pool@, self.files(), blob_not_at(repo, wanted@));
                lemma_backed_swept(
                    pool@.keep_blobs(blob_not_at(repo, wanted@)),
                    self.files(),
                    seq![path@],
                );
            }
        }
        pool.keep_blobs(&BlobNotAt { repo, digest: owned(wanted.as_str()) });
        let mut paths: Vec<String> = Vec::new();
        paths.push(path);
        assert(string_views(paths@) =~= seq![path@]);
        self.sweep(pool, &paths);
        Ok(())
    }

    /// Deletes the manifest that `reference` names in the repository named `name`: its row,
    /// its layer rows and the tags that point at it go, each of its layers loses one
    /// reference, and a blob whose count reaches 0 by it is removed. Then the files go that
    /// no blob row names any more: those of the removed blobs, and the manifest's own.
    /// Without the repository or the manifest nothing changes.
    pub fn delete_manifest(&mut self, pool: &mut DbConn, name: &str, reference: &str) -> (out: Result<
        (),
        StorageError,
    >)
        requires
            old(self).wf(),
        ensures
            final(self).wf(),
            final(self).root() == old(self).root(),
            match out {
                Ok(_) => old(pool)@.repo_id(name@).is_some() && old(pool)@.resolve(
                    old(pool)@.repo_id(name@).unwrap(),
                    reference@,
                ).is_some() && ({
                    let at = old(pool)@.resolve(old(pool)@.repo_id(name@).unwrap(), reference@).unwrap();
                    &&& final(pool)@ == old(pool)@.delete_manifest(at)
                    &&& final(self).files() == swept(
                        old(self).files(),
                        final(pool)@,
                        old(pool)@.blob_paths().push(old(pool)@.manifests[at].file_path),
                    )
                }),
                Err(e) => final(pool)@ == old(pool)@ && final(self).files() == old(self).files()
                    && (match old(pool)@.repo_id(name@) {
                    None => e == StorageError::NotFound(Missing::Repository),
                    Some(repo) => old(pool)@.resolve(repo, reference@).is_none() && e
                        == crate::index::missing_reference(reference@),
                }),
            },
            backed(old(pool)@, old(self).files()) ==> backed(final(pool)@, final(self).files()),
            old(pool)@.wf() ==> final(pool)@.wf(),
    {
        let mut paths = pool.blob_paths();
        let path = match pool.delete_manifest(name, reference) {
            Ok(path) => path,
            Err(e) => {
                return Err(e);
            },
        };
        let ghost before = string_views(paths@);
        paths.push(path);
        proof {
            assert(string_views(paths@) =~= before.push(path@));
            crate::index::lemma_resolve_in_range(
                old(pool)@,
                old(pool)@.repo_id(name@).unwrap(),
                reference@,
            );
            if old(pool)@.wf() {
                crate::wellformed::law_wf_delete_manifest(
                    old(pool)@,
                    old(pool)@.resolve(old(pool)@.repo_id(name@).unwrap(), reference@).unwrap(),
                );
            }
            if backed(old(pool)@, self.files()) {
                let at = old(pool)@.resolve(old(pool)@.repo_id(name@).unwrap(), reference@).unwrap();
                let m = old(pool)@.manifests[at];
                lemma_backed_refs_dropped(
                    old(pool)@,
                    self.files(),
                    m.repository_id,
                    old(pool)@.layer_digests(m.id),
                );
                lemma_backed_same_blobs(
                    old(pool)@.with_refs_dropped(m.repository_id, old(pool)@.layer_digests(m.id)),
                    pool@,
                    self.files(),
                );
                lemma_backed_swept(pool@, self.files(), string_views(paths@));
            }
        }
        self.sweep(pool, &paths);
        Ok(())
    }

    /// Deletes the repository named `name` with its blobs, sessions, manifests, tags and
    /// scopes, and every file of its blobs and manifests that no remaining blob row names.
    /// Without such a repository nothing changes.
    pub fn delete_repository(&mut self, name: &str, conn: &mut DbConn) -> (out: Result<(), StorageError>)
        requires
            old(self).wf(),
        ensures
            final(self).wf(),
            final(self).root() == old(self).root(),
            out.is_ok(),
            match old(conn)@.repo_id(name@) {
                Some(repo) => final(conn)@ == old(conn)@.without_repository(repo, name@)
                    && final(self).files() == swept(
                    old(self).files(),
                    final(conn)@,
                    old(conn)@.blob_paths() + old(conn)@.keep_manifests_of(repo).manifest_paths(),
                ),
                None => final(conn)@ == old(conn)@ && final(self).files() == old(self).files(),
            },
            backed(old(conn)@, old(self).files()) ==> backed(final(conn)@, final(self).files()),
            old(conn)@.wf() ==> final(conn)@.wf(),
    {
        let repo = match conn.repo_lookup(name) {
            Some(found) => found.0,
            None => {
                return Ok(());
            },
        };
        let blobs = conn.blob_paths();
        let manifests = conn.manifest_paths_of(repo);
        let paths = concat_strings(blobs, manifests);
        conn.remove_repository(repo, name);
        proof {
            if old(conn)@.wf() {
                crate::wellformed::law_wf_without_repository(old(conn)@, repo, name@);
            }
            if backed(old(conn)@, self.files()) {
                lemma_backed_keep(old(conn)@, self.files(), blob_outside(repo));
                lemma_backed_same_blobs(old(conn)@.keep_blobs(blob_outside(repo)), conn@, self.files());
                lemma_backed_swept(conn@, self.files(), string_views(paths@));
            }
        }
        self.sweep(conn, &paths);
        Ok(())
    }

    /// Removes every finished blob that no manifest references, with its file unless a
    /// remaining blob row names it, and every session that was closed. The chunks of
    /// sessions stay.
    pub fn run_garbage_collection(&mut self, pool: &mut DbConn) -> (out: Result<(), StorageError>)
        requires
            old(self).wf(),
        ensures
            final(self).wf(),
            final(self).root() == old(self).root(),
            out.is_ok(),
            final(pool)@ == old(pool)@.collected(),
            final(self).files() == swept(old(self).files(), final(pool)@, old(pool)@.blob_paths()),
            backed(old(pool)@, old(self).files()) ==> backed(final(pool)@, final(self).files()),
            old(pool)@.wf() ==> final(pool)@.wf(),
    {
        let paths = pool.blob_paths();
        pool.collect();
        proof {
            if old(pool)@.wf() {
                crate::wellformed::law_wf_collected(old(pool)@);
            }
            if backed(old(pool)@, self.files()) {
                lemma_backed_keep(old(pool)@, self.files(), blob_referenced());
                lemma_backed_same_blobs(old(pool)@.keep_blobs(blob_referenced()), pool@, self.files());
                lemma_backed_swept(pool@, self.files(), string_views(paths@));
            }
        }
        self.sweep(pool, &paths);
        Ok(())
    }
}

impl DbModel {
    /// The store with only the manifests of repository `repo`.
    pub open spec fn keep_manifests_of(self, repo: u64) -> DbModel {
        DbModel { manifests: self.manifests.filter(crate::index::manifest_in(repo)), ..self }
    }
}

impl DbConn {
    /// The paths that the manifest rows of repository `repo` name.
    pub fn manifest_paths_of(&self, repo: u64) -> (out: Vec<String>)
        ensures
            string_views(out@) == self@.keep_manifests_of(repo).manifest_paths(),
    {
        let ghost keep = crate::index::manifest_in(repo);
        let ghost rows = self@.manifests;
        let mut out: Vec<String> = Vec::new();
        let mut i: usize = 0;
        proof {
            assert(rows.take(0) =~= Seq::<ManifestModel>::empty());
            assert(rows.take(0).filter(keep) =~= Seq::<ManifestModel>::empty()) by {
                reveal(Seq::filter);
            }
            assert(string_views(out@) =~= rows.take(0).filter(keep).map_values(
                |m: ManifestModel| m.file_path,
            ));
        }
        while i < self.manifests.len()
            invariant
                i <= self.manifests.len(),
                rows == views_of(self.manifests@),
                keep == crate::index::manifest_in(repo),
                string_views(out@) == rows.take(i as int).filter(keep).map_values(
                    |m: ManifestModel| m.file_path,
                ),
            decreases self.manifests.len() - i,
        {
            proof {
                assert(rows.take(i + 1) =~= rows.take(i as int).push(rows[i as int]));
                lemma_filter_push(rows.take(i as int), rows[i as int], keep);
            }
            if self.manifests[i].repository_id == repo {
                let ghost before = out@;
                let path = self.manifests[i].file_path.clone();
                out.push(path);
                proof {
                    assert(string_views(out@) =~= string_views(before).push(path@));
                    assert(string_views(out@) =~= rows.take(i + 1).filter(keep).map_values(
                        |m: ManifestModel| m.file_path,
                    ));
                }
            }
            i += 1;
        }
        proof {
            assert(rows.take(self.manifests.len() as int) =~= rows);
        }
        out
    }
}

} // verus!

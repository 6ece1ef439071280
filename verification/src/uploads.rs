//! The upload engine: sessions, chunks and their assembly into blobs, uploads in one
//! piece, and mounting a blob of one repository in another.
//!
//! A session counts the bytes received so far. A chunk is accepted only where it starts at
//! that count; it is stored under the session, and the count moves past its last byte.
//! Closing the session joins the chunks in the order of their offsets, checks the digest
//! that the client announced and installs the blob.

use crate::chunks::{entry_views, in_order, order_chunks};
use crate::database::{
    blob_agrees, blob_off_path, chunk_of, not_chunk_of, owned, BlobAgrees, BlobOffPath, DbConn,
    DbModel, NotChunkOf,
};
use crate::digest::{add_sha_header, calculate_digest, digest_of, with_prefix};
use crate::error::{IoFault, MetadataFault, Missing, StorageError};
use crate::paths::{
    blobs_word, join, join_path, lemma_decimal_plain, lemma_digest_plain, path_is_plain, plain_name,
    valid_namespace, plain_path,
};
use crate::rows::BlobModel;
use crate::storage::{
    backed, lemma_backed_keep, lemma_backed_push, lemma_backed_write, LocalStorageDriver,
};
use crate::table::{lemma_filter_members, lemma_filter_push, views_of};
use crate::text::{decimal_i64, format_i64, string_of};
use vstd::prelude::*;

verus! {

/// Whether `c` can stand in the text of a UUID: a lower-case hexadecimal digit or a hyphen.
pub open spec fn is_uuid_char(c: char) -> bool {
    ('0' <= c && c <= '9') || ('a' <= c && c <= 'f') || c == '-'
}

/// Whether `s` has the form of a UUID in text: 36 characters, each a lower-case hexadecimal
/// digit or a hyphen.
pub open spec fn uuid_text(s: Seq<char>) -> bool {
    s.len() == 36 && forall|k: int| 0 <= k < 36 ==> is_uuid_char(#[trigger] s[k])
}

/// `uuid::Uuid::new_v4` draws a random version 4 UUID; its `to_string` writes it in the
/// hyphenated form, 36 characters that are lower-case hexadecimal digits or hyphens. Which
/// UUID comes out is not stated. On a machine that gives no random bytes `new_v4` does not
/// return: it panics.
#[verifier::external_body]
pub(crate) fn fresh_uuid() -> (out: String)
    ensures
        out@.len() == 36,
        forall|k: int| 0 <= k < 36 ==> is_uuid_char(#[trigger] out@[k]),
{
    uuid::Uuid::new_v4().to_string()
}

/// The text of a UUID is a plain name.
pub proof fn lemma_uuid_plain(id: Seq<char>)
    requires
        id.len() == 36,
        forall|k: int| 0 <= k < 36 ==> is_uuid_char(#[trigger] id[k]),
    ensures
        plain_name(id),
{
    assert(seq!['.'].len() == 1);
    assert(seq!['.', '.'].len() == 2);
    assert(!crate::text::has_char(id, '/')) by {
        if crate::text::has_char(id, '/') {
            let k = choose|k: int| 0 <= k < id.len() && id[k] == '/';
            assert(is_uuid_char(id[k]));
        }
    }
}

/// The directory of the blobs of the repository named `name`, relative to the base path.
pub open spec fn blob_dir(name: Seq<char>) -> Seq<char> {
    join(name, blobs_word())
}

/// The directory of the chunks of session `session`, relative to the base path.
pub open spec fn chunk_dir(name: Seq<char>, session: Seq<char>) -> Seq<char> {
    join(blob_dir(name), session)
}

/// The file of the chunk of session `session` that starts at offset `chunk`.
pub open spec fn chunk_file(root: Seq<char>, name: Seq<char>, session: Seq<char>, chunk: i64) -> Seq<
    char,
> {
    join(join(root, chunk_dir(name, session)), decimal_i64(chunk as int))
}

/// The file of the finished blob `digest` of the repository named `name`.
pub open spec fn blob_file(root: Seq<char>, name: Seq<char>, digest: Seq<char>) -> Seq<char> {
    join(join(root, blob_dir(name)), digest)
}

/// Where a chunk starts: at the start of its range, or at 0 without a range.
pub open spec fn chunk_start(range: Option<(i64, i64)>) -> i64 {
    match range {
        Some(r) => r.0,
        None => 0,
    }
}

/// The count of bytes after a chunk: one past the end of its range or, without a range, the
/// length of its content. Nothing when that leaves the range of the counter.
pub open spec fn chunk_next(range: Option<(i64, i64)>, content_length: i64) -> Option<i64> {
    match range {
        Some(r) => if r.1 < i64::MAX {
            Some((r.1 + 1) as i64)
        } else {
            None
        },
        None => Some(content_length),
    }
}

/// The contents of the files of `entries`, one after the other; nothing if a file is not
/// stored.
pub open spec fn gathered(files: Map<Seq<char>, Seq<u8>>, entries: Seq<(i64, Seq<char>)>) -> Option<
    Seq<u8>,
>
    decreases entries.len(),
{
    if entries.len() == 0 {
        Some(Seq::<u8>::empty())
    } else {
        match gathered(files, entries.drop_last()) {
            Some(head) => if files.contains_key(entries.last().1) {
                Some(head + files[entries.last().1])
            } else {
                None
            },
            None => None,
        }
    }
}

/// Once a file of a prefix of the entries is missing, nothing is gathered.
pub proof fn lemma_gathered_prefix(files: Map<Seq<char>, Seq<u8>>, entries: Seq<(i64, Seq<char>)>, j: int)
    requires
        0 <= j <= entries.len(),
        gathered(files, entries.take(j)).is_none(),
    ensures
        gathered(files, entries).is_none(),
    decreases entries.len() - j,
{
    if j < entries.len() {
        assert(entries.take(j + 1).drop_last() =~= entries.take(j));
        lemma_gathered_prefix(files, entries, j + 1);
    } else {
        assert(entries.take(j) =~= entries);
    }
}

/// The blob row of a finished blob that nothing references yet.
pub open spec fn new_blob(repo: u64, digest: Seq<char>, path: Seq<char>) -> BlobModel {
    BlobModel {
        repository_id: repo,
        digest,
        file_path: path,
        ref_count: 0,
        upload_session_id: None,
        chunk_count: 0,
    }
}

/// The blob row of a chunk.
pub open spec fn new_chunk(repo: u64, digest: Seq<char>, path: Seq<char>, session: Seq<char>, chunk: i64) -> BlobModel {
    BlobModel {
        repository_id: repo,
        digest,
        file_path: path,
        ref_count: 0,
        upload_session_id: Some(session),
        chunk_count: chunk,
    }
}

impl DbModel {
    /// The store with a repository named `name`: as it is if there is one, else with a new
    /// private one.
    pub open spec fn ensured_repo(self, name: Seq<char>) -> DbModel {
        if self.repo_id(name).is_some() {
            self
        } else {
            self.with_repository(name, false)
        }
    }

    /// The identifier of the repository named `name` in `ensured_repo`.
    pub open spec fn ensured_repo_id(self, name: Seq<char>) -> u64 {
        match self.repo_id(name) {
            Some(id) => id,
            None => self.next_id,
        }
    }

    /// Why the repository named `name` cannot be made sure of, if it cannot: it is missing,
    /// and its name is no repository name, or the store has used up its identifiers.
    pub open spec fn ensure_error(self, name: Seq<char>) -> Option<StorageError> {
        if self.repo_id(name).is_some() {
            None
        } else if !valid_namespace(name) {
            Some(StorageError::InvalidInput)
        } else if self.next_id == u64::MAX {
            Some(StorageError::MetadataError(MetadataFault::OutOfRange))
        } else {
            None
        }
    }

    /// Why no session `id` can be opened in the repository named `name`, if none can: the
    /// names make no plain path, the identifier is taken, or the repository cannot be made
    /// sure of.
    pub open spec fn session_error(self, name: Seq<char>, id: Seq<char>) -> Option<StorageError> {
        if !(plain_path(name) && plain_name(id)) {
            Some(StorageError::IoError(IoFault::InvalidInput))
        } else if self.upload(id).is_some() {
            Some(StorageError::MetadataError(MetadataFault::Duplicate))
        } else {
            self.ensure_error(name)
        }
    }

    /// The store with session `id` opened in the repository named `name`, which is created
    /// if it is missing.
    pub open spec fn with_session(self, name: Seq<char>, id: Seq<char>) -> DbModel {
        self.ensured_repo(name).with_upload(self.ensured_repo_id(name), id)
    }

    /// The count of the open session `uuid` of the repository named `name`.
    pub open spec fn session_in(self, name: Seq<char>, uuid: Seq<char>) -> Option<i64> {
        match (self.repo_id(name), self.upload(uuid)) {
            (Some(repo), Some(u)) => if u.repository_id == repo && !u.finalized {
                Some(u.current_chunk)
            } else {
                None
            },
            _ => None,
        }
    }

    /// The store with a chunk row at `path`, in place of any row that named that path.
    pub open spec fn with_chunk(
        self,
        repo: u64,
        digest: Seq<char>,
        path: Seq<char>,
        session: Seq<char>,
        chunk: i64,
    ) -> DbModel {
        self.keep_blobs(blob_off_path(path)).with_blob(new_chunk(repo, digest, path, session, chunk))
    }

    /// The store with the finished blob `digest` of `repo` at `path`: rows that name the
    /// path with another digest are gone, and the blob has a row, a new one if it had none.
    pub open spec fn installed(self, repo: u64, digest: Seq<char>, path: Seq<char>) -> DbModel {
        let cleared = self.keep_blobs(blob_agrees(path, digest));
        if cleared.blob_exists(repo, digest) {
            cleared
        } else {
            cleared.with_blob(new_blob(repo, digest, path))
        }
    }

    /// Why a chunk cannot be stored, if it cannot: the repository is unknown, it has no
    /// such open session, or the names make no plain path.
    pub open spec fn write_blob_error(self, name: Seq<char>, session: Seq<char>) -> Option<StorageError> {
        if self.repo_id(name).is_none() {
            Some(StorageError::NotFound(Missing::Repository))
        } else if self.session_in(name, session).is_none() {
            Some(StorageError::NotFound(Missing::Upload))
        } else if !plain_path(chunk_dir(name, session)) {
            Some(StorageError::IoError(IoFault::InvalidInput))
        } else {
            None
        }
    }

    /// Why a chunk is refused, if it is: there is no such open session in the repository or
    /// the chunk does not start at its count (`OutOfOrder`), the count would leave its range,
    /// or the names do not make a plain path.
    pub open spec fn chunk_error(
        self,
        name: Seq<char>,
        uuid: Seq<char>,
        content_length: i64,
        range: Option<(i64, i64)>,
    ) -> Option<StorageError> {
        match self.session_in(name, uuid) {
            None => Some(StorageError::OutOfOrder),
            Some(current) => if chunk_start(range) != current {
                Some(StorageError::OutOfOrder)
            } else if chunk_next(range, content_length).is_none() {
                Some(StorageError::MetadataError(MetadataFault::OutOfRange))
            } else if !plain_path(chunk_dir(name, uuid)) {
                Some(StorageError::IoError(IoFault::InvalidInput))
            } else {
                None
            },
        }
    }

    /// Offsets and paths of the chunks of session `uuid` in repository `repo`, in the order
    /// of the table.
    pub open spec fn chunk_entries(self, repo: u64, uuid: Seq<char>) -> Seq<(i64, Seq<char>)> {
        self.blobs.filter(chunk_of(repo, uuid)).map_values(|b: BlobModel| (b.chunk_count, b.file_path))
    }

    /// The store after session `uuid` was closed with the blob `digest` at `path`: without
    /// the rows of its chunks, with the blob installed, and the session closed.
    pub open spec fn finished(self, repo: u64, uuid: Seq<char>, digest: Seq<char>, path: Seq<char>) -> DbModel {
        self.keep_blobs(not_chunk_of(repo, uuid)).installed(repo, digest, path).with_upload_closed(uuid)
    }

    /// Where the blob `digest` can be mounted from: its file in the repository named
    /// `source` or, without a source, in the first repository that holds it.
    pub open spec fn source_path(self, digest: Seq<char>, source: Option<Seq<char>>) -> Option<Seq<char>> {
        match source {
            Some(s) => match self.repo_id(s) {
                Some(repo) => self.blob_path(repo, digest),
                None => None,
            },
            None => self.any_blob_path(digest),
        }
    }

    /// The store with the blob `digest` of `repo` recorded at `path`, unless the repository
    /// holds that blob already.
    pub open spec fn mounted(self, repo: u64, digest: Seq<char>, path: Seq<char>) -> DbModel {
        if self.blob_exists(repo, digest) {
            self
        } else {
            self.with_blob(new_blob(repo, digest, path))
        }
    }
}

/// The bytes of the chunks of session `uuid`, joined in the order of their offsets.
pub open spec fn combined(db: DbModel, files: Map<Seq<char>, Seq<u8>>, repo: u64, uuid: Seq<char>) -> Option<
    Seq<u8>,
> {
    gathered(files, in_order(db.chunk_entries(repo, uuid)))
}

/// Why a session cannot be closed, if it cannot: the repository or the open session is
/// missing, the name makes no plain path, the file of a chunk is missing, or the bytes do
/// not hash to the digest that was announced.
pub open spec fn finish_error(
    db: DbModel,
    files: Map<Seq<char>, Seq<u8>>,
    name: Seq<char>,
    uuid: Seq<char>,
    expected: Option<Seq<char>>,
) -> Option<StorageError> {
    match db.repo_id(name) {
        None => Some(StorageError::NotFound(Missing::Repository)),
        Some(repo) => if db.session_in(name, uuid).is_none() {
            Some(StorageError::NotFound(Missing::Upload))
        } else if !plain_path(blob_dir(name)) {
            Some(StorageError::IoError(IoFault::InvalidInput))
        } else {
            match combined(db, files, repo, uuid) {
                None => Some(StorageError::IoError(IoFault::NotFound)),
                Some(data) => match expected {
                    Some(e) => if with_prefix(e) != digest_of(data) {
                        Some(StorageError::DigestError)
                    } else {
                        None
                    },
                    None => None,
                },
            }
        },
    }
}

/// Why an upload in one piece is refused, if it is.
pub open spec fn monolithic_error(db: DbModel, name: Seq<char>, digest: Seq<char>, data: Seq<u8>) -> Option<
    StorageError,
> {
    if with_prefix(digest) != digest_of(data) {
        Some(StorageError::DigestError)
    } else if !plain_path(blob_dir(name)) {
        Some(StorageError::IoError(IoFault::InvalidInput))
    } else {
        db.ensure_error(name)
    }
}

/// Why a blob cannot be mounted, if it cannot.
pub open spec fn mount_error(db: DbModel, target: Seq<char>, digest: Seq<char>, source: Option<Seq<char>>) -> Option<
    StorageError,
> {
    if db.source_path(with_prefix(digest), source).is_none() {
        Some(StorageError::NotFound(Missing::Blob))
    } else {
        db.ensure_error(target)
    }
}

/// The metadata store after a chunk was taken.
pub open spec fn chunk_db(
    db: DbModel,
    root: Seq<char>,
    name: Seq<char>,
    uuid: Seq<char>,
    content_length: i64,
    range: Option<(i64, i64)>,
    data: Seq<u8>,
) -> DbModel {
    let current = db.session_in(name, uuid).unwrap();
    db.with_chunk(
        db.repo_id(name).unwrap(),
        digest_of(data),
        chunk_file(root, name, uuid, current),
        uuid,
        current,
    ).with_upload_at(uuid, chunk_next(range, content_length).unwrap())
}

/// The files after a chunk was taken.
pub open spec fn chunk_files(
    files: Map<Seq<char>, Seq<u8>>,
    db: DbModel,
    root: Seq<char>,
    name: Seq<char>,
    uuid: Seq<char>,
    data: Seq<u8>,
) -> Map<Seq<char>, Seq<u8>> {
    files.insert(chunk_file(root, name, uuid, db.session_in(name, uuid).unwrap()), data)
}

/// The digest of the blob that closing session `uuid` gives.
pub open spec fn finish_digest(db: DbModel, files: Map<Seq<char>, Seq<u8>>, name: Seq<char>, uuid: Seq<char>) -> Seq<
    char,
> {
    digest_of(combined(db, files, db.repo_id(name).unwrap(), uuid).unwrap())
}

/// The metadata store after session `uuid` was closed.
pub open spec fn finish_db(
    db: DbModel,
    files: Map<Seq<char>, Seq<u8>>,
    root: Seq<char>,
    name: Seq<char>,
    uuid: Seq<char>,
) -> DbModel {
    let digest = finish_digest(db, files, name, uuid);
    db.finished(db.repo_id(name).unwrap(), uuid, digest, blob_file(root, name, digest))
}

/// The files after session `uuid` was closed.
pub open spec fn finish_files(
    db: DbModel,
    files: Map<Seq<char>, Seq<u8>>,
    root: Seq<char>,
    name: Seq<char>,
    uuid: Seq<char>,
) -> Map<Seq<char>, Seq<u8>> {
    files.insert(
        blob_file(root, name, finish_digest(db, files, name, uuid)),
        combined(db, files, db.repo_id(name).unwrap(), uuid).unwrap(),
    )
}

/// Writing at a path keeps the rows backed once no row names the path.
pub proof fn lemma_backed_off_path(db: DbModel, files: Map<Seq<char>, Seq<u8>>, path: Seq<char>, data: Seq<u8>)
    requires
        backed(db, files),
    ensures
        backed(db.keep_blobs(blob_off_path(path)), files.insert(path, data)),
{
    let keep = blob_off_path(path);
    lemma_backed_keep(db, files, keep);
    lemma_filter_members(db.blobs, keep);
    let kept = db.blobs.filter(keep);
    let next = files.insert(path, data);
    assert forall|i: int| 0 <= i < kept.len() implies next.contains_key((#[trigger] kept[i]).file_path)
        && digest_of(next[kept[i].file_path]) == kept[i].digest by {
        assert(keep(kept[i]));
    }
}

/// Installing a blob whose digest is that of the bytes written keeps the rows backed.
pub proof fn lemma_backed_installed(db: DbModel, files: Map<Seq<char>, Seq<u8>>, repo: u64, path: Seq<char>, data: Seq<u8>)
    requires
        backed(db, files),
    ensures
        backed(db.installed(repo, digest_of(data), path), files.insert(path, data)),
{
    lemma_backed_write(db, files, path, data);
    let cleared = db.keep_blobs(blob_agrees(path, digest_of(data)));
    if !cleared.blob_exists(repo, digest_of(data)) {
        lemma_backed_push(cleared, files.insert(path, data), new_blob(repo, digest_of(data), path));
    }
}

/// Changing anything but the blob rows keeps the rows backed.
pub proof fn lemma_backed_same_blobs(a: DbModel, b: DbModel, files: Map<Seq<char>, Seq<u8>>)
    requires
        backed(a, files),
        a.blobs == b.blobs,
    ensures
        backed(b, files),
{
    assert forall|i: int| 0 <= i < b.blobs.len() implies files.contains_key((#[trigger] b.blobs[i]).file_path)
        && digest_of(files[b.blobs[i].file_path]) == b.blobs[i].digest by {
        assert(a.blobs[i] == b.blobs[i]);
    }
}

fn blob_dir_of(name: &str) -> (out: String)
    ensures
        out@ == blob_dir(name@),
{
    proof {
        reveal_strlit("blobs");
        assert("blobs"@ =~= blobs_word());
    }
    join_path(name, "blobs")
}

impl DbConn {
    /// The identifier of the repository named `name`, which is created as a private
    /// repository if it is missing. A missing repository whose name is no repository name is
    /// refused with `InvalidInput`; a store that has used up its identifiers refuses with
    /// `OutOfRange`.
    pub fn ensure_repository(&mut self, name: &str) -> (out: Result<u64, StorageError>)
        ensures
            out == (match old(self)@.ensure_error(name@) {
                Some(e) => Err::<u64, StorageError>(e),
                None => Ok::<u64, StorageError>(old(self)@.ensured_repo_id(name@)),
            }),
            final(self)@ == (if out.is_ok() {
                old(self)@.ensured_repo(name@)
            } else {
                old(self)@
            }),
    {
        match self.repo_lookup(name) {
            Some(found) => Ok(found.0),
            None => {
                if !crate::paths::is_valid_namespace(name) {
                    return Err(StorageError::InvalidInput);
                }
                self.create_repository(name, false)
            },
        }
    }

    /// Offsets and paths of the chunks of session `uuid` in repository `repo`.
    pub fn chunk_entries(&self, repo: u64, uuid: &str) -> (out: Vec<(i64, String)>)
        ensures
            entry_views(out@) == self@.chunk_entries(repo, uuid@),
    {
        let probe = crate::database::ChunkOf { repo, uuid: owned(uuid) };
        let ghost keep = chunk_of(repo, uuid@);
        let ghost rows = self@.blobs;
        let mut out: Vec<(i64, String)> = Vec::new();
        let mut i: usize = 0;
        proof {
            assert(rows.take(0) =~= Seq::<BlobModel>::empty());
            assert(rows.take(0).filter(keep) =~= Seq::<BlobModel>::empty()) by {
                reveal(Seq::filter);
            }
            assert(entry_views(out@) =~= rows.take(0).filter(keep).map_values(
                |b: BlobModel| (b.chunk_count, b.file_path),
            ));
        }
        while i < self.blobs.len()
            invariant
                i <= self.blobs.len(),
                rows == views_of(self.blobs@),
                keep == chunk_of(repo, uuid@),
                probe.repo == repo,
                probe.uuid@ == uuid@,
                entry_views(out@) == rows.take(i as int).filter(keep).map_values(
                    |b: BlobModel| (b.chunk_count, b.file_path),
                ),
            decreases self.blobs.len() - i,
        {
            proof {
                assert(rows.take(i + 1) =~= rows.take(i as int).push(rows[i as int]));
                lemma_filter_push(rows.take(i as int), rows[i as int], keep);
            }
            if crate::table::Probe::test(&probe, &self.blobs[i]) {
                let ghost before = out@;
                let entry = (self.blobs[i].chunk_count, self.blobs[i].file_path.clone());
                out.push(entry);
                proof {
                    assert(entry_views(out@) =~= entry_views(before).push((entry.0, entry.1@)));
                    assert(entry_views(out@) =~= rows.take(i + 1).filter(keep).map_values(
                        |b: BlobModel| (b.chunk_count, b.file_path),
                    ));
                }
            }
            i += 1;
        }
        proof {
            assert(rows.take(self.blobs.len() as int) =~= rows);
        }
        out
    }

    /// The count of the open session `uuid` of the repository named `name`.
    pub fn session_in(&self, name: &str, uuid: &str) -> (out: Option<i64>)
        ensures
            out == self@.session_in(name@, uuid@),
    {
        let repo = match self.repo_lookup(name) {
            Some(found) => found.0,
            None => {
                return None;
            },
        };
        match crate::table::position(&self.uploads, &crate::database::UploadWith { uuid: owned(uuid) }) {
            Some(i) => if self.uploads[i].repository_id == repo && !self.uploads[i].finalized {
                Some(self.uploads[i].current_chunk)
            } else {
                None
            },
            None => None,
        }
    }

    /// Records the finished blob `digest` of `repo` at `path`.
    pub fn install(&mut self, repo: u64, digest: &str, path: &str)
        ensures
            final(self)@ == old(self)@.installed(repo, digest@, path@),
    {
        self.keep_blobs(&BlobAgrees { path: owned(path), digest: owned(digest) });
        if !self.blob_exists(repo, digest) {
            self.insert_blob(repo, digest, path, None, 0);
        }
    }
}

impl LocalStorageDriver {
    /// Opens the upload session `session_id` in the repository named `name`, which is
    /// created if it is missing, and returns the identifier.
    pub fn new_session_with_id(&self, conn: &mut DbConn, name: &str, session_id: &str) -> (out: Result<
        String,
        StorageError,
    >)
        ensures
            match out {
                Ok(id) => old(conn)@.session_error(name@, session_id@).is_none() && id@
                    == session_id@ && final(conn)@ == old(conn)@.with_session(name@, session_id@),
                Err(e) => old(conn)@.session_error(name@, session_id@) == Some(e) && final(conn)@
                    == old(conn)@,
            },
            old(conn)@.wf() ==> final(conn)@.wf(),
    {
        proof {
            if conn@.wf() && conn@.session_error(name@, session_id@).is_none() {
                crate::wellformed::law_wf_with_session(conn@, name@, session_id@);
            }
        }
        if !path_is_plain(name) || !crate::paths::name_is_valid(session_id) {
            return Err(StorageError::IoError(IoFault::InvalidInput));
        }
        if crate::table::position(&conn.uploads, &crate::database::UploadWith { uuid: owned(session_id) }).is_some() {
            return Err(StorageError::MetadataError(MetadataFault::Duplicate));
        }
        let repo = match conn.ensure_repository(name) {
            Ok(repo) => repo,
            Err(e) => {
                return Err(e);
            },
        };
        match conn.upload_create(repo, session_id) {
            Ok(()) => Ok(owned(session_id)),
            Err(e) => Err(e),
        }
    }

    /// Opens an upload session with a fresh random identifier in the repository named
    /// `name`, which is created if it is missing, and returns the identifier. Whatever
    /// identifier was drawn, it has the form of a UUID, and the session is opened exactly
    /// when `session_error` has nothing against it.
    pub fn new_session(&self, conn: &mut DbConn, name: &str) -> (out: Result<String, StorageError>)
        ensures
            match out {
                Ok(id) => uuid_text(id@) && old(conn)@.session_error(name@, id@).is_none()
                    && final(conn)@ == old(conn)@.with_session(name@, id@),
                Err(e) => final(conn)@ == old(conn)@ && exists|id: Seq<char>|
                    uuid_text(id) && #[trigger] old(conn)@.session_error(name@, id) == Some(e),
            },
            old(conn)@.wf() ==> final(conn)@.wf(),
    {
        let id = fresh_uuid();
        proof {
            lemma_uuid_plain(id@);
        }
        self.new_session_with_id(conn, name, id.as_str())
    }

    /// Stores `data` as the chunk of session `session_id` that starts at offset `chunk`, and
    /// records it, in place of any blob row that named the same file. Returns the digest of
    /// the chunk. It is refused when the repository is unknown, when the repository has no
    /// such open session, and when the names do not make a plain path.
    pub fn write_blob(
        &mut self,
        name: &str,
        session_id: &str,
        chunk: i64,
        pool: &mut DbConn,
        data: Vec<u8>,
    ) -> (out: Result<String, StorageError>)
        requires
            old(self).wf(),
        ensures
            final(self).wf(),
            final(self).root() == old(self).root(),
            match out {
                Ok(digest) => old(pool)@.write_blob_error(name@, session_id@).is_none()
                    && digest@ == digest_of(data@)
                    && final(self).files() == old(self).files().insert(
                    chunk_file(old(self).root(), name@, session_id@, chunk),
                    data@,
                ) && final(pool)@ == old(pool)@.with_chunk(
                    old(pool)@.repo_id(name@).unwrap(),
                    digest_of(data@),
                    chunk_file(old(self).root(), name@, session_id@, chunk),
                    session_id@,
                    chunk,
                ),
                Err(e) => old(pool)@.write_blob_error(name@, session_id@) == Some(e)
                    && final(self).files() == old(self).files() && final(pool)@ == old(pool)@,
            },
            backed(old(pool)@, old(self).files()) ==> backed(final(pool)@, final(self).files()),
            old(pool)@.wf() ==> final(pool)@.wf(),
    {
        let repo = match pool.repo_lookup(name) {
            Some(found) => found.0,
            None => {
                return Err(StorageError::NotFound(Missing::Repository));
            },
        };
        if pool.session_in(name, session_id).is_none() {
            return Err(StorageError::NotFound(Missing::Upload));
        }
        let dir = join_path(blob_dir_of(name).as_str(), session_id);
        if !path_is_plain(dir.as_str()) {
            return Err(StorageError::IoError(IoFault::InvalidInput));
        }
        let filename = string_of(format_i64(chunk).as_slice());
        let digest = calculate_digest(data.as_slice());
        let full = join_path(join_path(self.base_path().as_str(), dir.as_str()).as_str(), filename.as_str());
        proof {
            lemma_decimal_plain(chunk as int);
            if pool@.wf() {
                crate::wellformed::law_wf_blobs(
                    pool@,
                    pool@.with_chunk(repo, digest@, full@, session_id@, chunk),
                );
            }
            if backed(pool@, self.files()) {
                lemma_backed_off_path(pool@, self.files(), full@, data@);
                lemma_backed_push(
                    pool@.keep_blobs(blob_off_path(full@)),
                    self.files().insert(full@, data@),
                    new_chunk(repo, digest@, full@, session_id@, chunk),
                );
            }
        }
        pool.keep_blobs(&BlobOffPath { path: owned(full.as_str()) });
        proof {
            crate::paths::lemma_plain_path_normal(dir@);
        }
        match self.stream_to_file(dir.as_str(), filename.as_str(), data) {
            Ok(_) => {},
            Err(e) => {
                return Err(e);
            },
        }
        pool.insert_blob(repo, digest.as_str(), full.as_str(), Some(session_id), chunk);
        Ok(digest)
    }

    /// Takes one chunk of session `uuid` in the repository named `name`. The chunk must
    /// start at the session's count, at the start of `content_range` or at 0 without a
    /// range; else it is `OutOfOrder`, as it is when the repository has no such open
    /// session. The chunk is stored and recorded at that offset, and the count moves one
    /// past the end of the range or, without a range, to `content_length`. A refused chunk
    /// changes nothing. Returns the digest of the chunk.
    pub fn upload_chunk(
        &mut self,
        pool: &mut DbConn,
        name: &str,
        uuid: &str,
        content_length: i64,
        content_range: Option<(i64, i64)>,
        data: Vec<u8>,
    ) -> (out: Result<String, StorageError>)
        requires
            old(self).wf(),
        ensures
            final(self).wf(),
            final(self).root() == old(self).root(),
            match out {
                Ok(digest) => old(pool)@.chunk_error(name@, uuid@, content_length, content_range).is_none()
                    && digest@ == digest_of(data@) && ({
                    let current = old(pool)@.session_in(name@, uuid@).unwrap();
                    let path = chunk_file(old(self).root(), name@, uuid@, current);
                    &&& final(self).files() == old(self).files().insert(path, data@)
                    &&& final(pool)@ == old(pool)@.with_chunk(
                        old(pool)@.repo_id(name@).unwrap(),
                        digest_of(data@),
                        path,
                        uuid@,
                        current,
                    ).with_upload_at(uuid@, chunk_next(content_range, content_length).unwrap())
                }),
                Err(e) => old(pool)@.chunk_error(name@, uuid@, content_length, content_range)
                    == Some(e) && final(self).files() == old(self).files() && final(pool)@ == old(pool)@,
            },
            backed(old(pool)@, old(self).files()) ==> backed(final(pool)@, final(self).files()),
            old(pool)@.wf() ==> final(pool)@.wf(),
    {
        let current = match pool.session_in(name, uuid) {
            Some(current) => current,
            None => {
                return Err(StorageError::OutOfOrder);
            },
        };
        let start = match content_range {
            Some(r) => r.0,
            None => 0,
        };
        if start != current {
            return Err(StorageError::OutOfOrder);
        }
        let next = match content_range {
            Some(r) => {
                if r.1 == i64::MAX {
                    return Err(StorageError::MetadataError(MetadataFault::OutOfRange));
                }
                r.1 + 1
            },
            None => content_length,
        };
        proof {
            if pool@.wf() && pool@.chunk_error(name@, uuid@, content_length, content_range).is_none() {
                crate::wellformed::law_wf_chunk(
                    pool@,
                    self.root(),
                    name@,
                    uuid@,
                    content_length,
                    content_range,
                    data@,
                );
            }
        }
        let digest = match self.write_blob(name, uuid, current, pool, data) {
            Ok(digest) => digest,
            Err(e) => {
                return Err(e);
            },
        };
        proof {
            if backed(pool@, self.files()) {
                lemma_backed_same_blobs(pool@, pool@.with_upload_at(uuid@, next), self.files());
            }
        }
        pool.upload_advance(uuid, next);
        Ok(digest)
    }

    fn gather(&self, entries: &Vec<(i64, String)>) -> (out: Option<Vec<u8>>)
        requires
            self.wf(),
        ensures
            match out {
                Some(data) => gathered(self.files(), entry_views(entries@)) == Some(data@),
                None => gathered(self.files(), entry_views(entries@)).is_none(),
            },
    {
        let ghost all = entry_views(entries@);
        let mut data: Vec<u8> = Vec::new();
        let mut i: usize = 0;
        proof {
            assert(all.take(0) =~= Seq::<(i64, Seq<char>)>::empty());
        }
        while i < entries.len()
            invariant
                i <= entries.len(),
                self.wf(),
                all == entry_views(entries@),
                gathered(self.files(), all.take(i as int)) == Some(data@),
            decreases entries.len() - i,
        {
            proof {
                assert(all.take(i + 1).drop_last() =~= all.take(i as int));
                assert(all.take(i + 1).last() == all[i as int]);
                assert(all[i as int].1 == entries@[i as int].1@);
            }
            match self.read_file(entries[i].1.as_str()) {
                Ok(mut part) => {
                    data.append(&mut part);
                },
                Err(_) => {
                    proof {
                        lemma_gathered_prefix(self.files(), all, i + 1);
                    }
                    return None;
                },
            }
            i += 1;
        }
        proof {
            assert(all.take(entries.len() as int) =~= all);
        }
        Some(data)
    }

    /// Closes session `session_id` of the repository named `name`: joins its chunks in the
    /// order of their offsets, checks the digest `expected` if one is given, with or without
    /// the `sha256:` prefix, stores the bytes as the blob of their digest, records the blob,
    /// removes the rows of the chunks and closes the session. Returns the digest. A refusal,
    /// `DigestError` among them, changes nothing.
    pub fn finish_session(
        &mut self,
        pool: &mut DbConn,
        name: &str,
        session_id: &str,
        expected: Option<&str>,
    ) -> (out: Result<String, StorageError>)
        requires
            old(self).wf(),
        ensures
            final(self).wf(),
            final(self).root() == old(self).root(),
            match out {
                Ok(digest) => finish_error(
                    old(pool)@,
                    old(self).files(),
                    name@,
                    session_id@,
                    match expected {
                        Some(e) => Some(e@),
                        None => None,
                    },
                ).is_none() && ({
                    let repo = old(pool)@.repo_id(name@).unwrap();
                    let data = combined(old(pool)@, old(self).files(), repo, session_id@).unwrap();
                    let path = blob_file(old(self).root(), name@, digest_of(data));
                    &&& digest@ == digest_of(data)
                    &&& final(self).files() == old(self).files().insert(path, data)
                    &&& final(pool)@ == old(pool)@.finished(repo, session_id@, digest_of(data), path)
                }),
                Err(e) => finish_error(
                    old(pool)@,
                    old(self).files(),
                    name@,
                    session_id@,
                    match expected {
                        Some(e) => Some(e@),
                        None => None,
                    },
                ) == Some(e) && final(self).files() == old(self).files() && final(pool)@ == old(pool)@,
            },
            backed(old(pool)@, old(self).files()) ==> backed(final(pool)@, final(self).files()),
            old(pool)@.wf() ==> final(pool)@.wf(),
    {
        let repo = match pool.repo_lookup(name) {
            Some(found) => found.0,
            None => {
                return Err(StorageError::NotFound(Missing::Repository));
            },
        };
        if pool.session_in(name, session_id).is_none() {
            return Err(StorageError::NotFound(Missing::Upload));
        }
        let dir = blob_dir_of(name);
        if !path_is_plain(dir.as_str()) {
            return Err(StorageError::IoError(IoFault::InvalidInput));
        }
        let entries = order_chunks(pool.chunk_entries(repo, session_id));
        let data = match self.gather(&entries) {
            Some(data) => data,
            None => {
                return Err(StorageError::IoError(IoFault::NotFound));
            },
        };
        let digest = calculate_digest(data.as_slice());
        match expected {
            Some(e) => {
                let wanted = add_sha_header(e);
                if !crate::text::str_eq(wanted.as_str(), digest.as_str()) {
                    return Err(StorageError::DigestError);
                }
            },
            None => {},
        }
        let full = join_path(join_path(self.base_path().as_str(), dir.as_str()).as_str(), digest.as_str());
        proof {
            lemma_digest_plain(data@);
            if pool@.wf() {
                crate::wellformed::law_wf_finished(pool@, repo, session_id@, digest@, full@);
            }
            let cleared = pool@.keep_blobs(not_chunk_of(repo, session_id@));
            if backed(pool@, self.files()) {
                lemma_backed_keep(pool@, self.files(), not_chunk_of(repo, session_id@));
                lemma_backed_installed(cleared, self.files(), repo, full@, data@);
                lemma_backed_same_blobs(
                    cleared.installed(repo, digest@, full@),
                    cleared.installed(repo, digest@, full@).with_upload_closed(session_id@),
                    self.files().insert(full@, data@),
                );
            }
        }
        pool.keep_blobs(&NotChunkOf { repo, uuid: owned(session_id) });
        pool.install(repo, digest.as_str(), full.as_str());
        proof {
            crate::paths::lemma_plain_path_normal(dir@);
        }
        match self.stream_to_file(dir.as_str(), digest.as_str(), data) {
            Ok(_) => {},
            Err(e) => {
                return Err(e);
            },
        }
        pool.upload_finalize(session_id);
        Ok(digest)
    }

    /// Closes session `session_id` without a digest to check: `finish_session` with no
    /// expected digest.
    pub fn combine_chunks(&mut self, pool: &mut DbConn, name: &str, session_id: &str) -> (out: Result<
        String,
        StorageError,
    >)
        requires
            old(self).wf(),
        ensures
            final(self).wf(),
            final(self).root() == old(self).root(),
            match out {
                Ok(digest) => finish_error(old(pool)@, old(self).files(), name@, session_id@, None).is_none()
                    && ({
                    let repo = old(pool)@.repo_id(name@).unwrap();
                    let data = combined(old(pool)@, old(self).files(), repo, session_id@).unwrap();
                    let path = blob_file(old(self).root(), name@, digest_of(data));
                    &&& digest@ == digest_of(data)
                    &&& final(self).files() == old(self).files().insert(path, data)
                    &&& final(pool)@ == old(pool)@.finished(repo, session_id@, digest_of(data), path)
                }),
                Err(e) => finish_error(old(pool)@, old(self).files(), name@, session_id@, None)
                    == Some(e) && final(self).files() == old(self).files() && final(pool)@ == old(pool)@,
            },
            backed(old(pool)@, old(self).files()) ==> backed(final(pool)@, final(self).files()),
            old(pool)@.wf() ==> final(pool)@.wf(),
    {
        self.finish_session(pool, name, session_id, None)
    }

    /// Takes a whole blob in one piece: checks that `data` hashes to `digest`, given with or
    /// without the `sha256:` prefix, stores it as the blob of that digest in the repository
    /// named `name`, which is created if it is missing, and records it. Returns the digest
    /// with its prefix. A refusal, `DigestError` among them, changes nothing.
    pub fn write_blob_without_session_id(
        &mut self,
        pool: &mut DbConn,
        name: &str,
        digest: &str,
        data: Vec<u8>,
    ) -> (out: Result<String, StorageError>)
        requires
            old(self).wf(),
        ensures
            final(self).wf(),
            final(self).root() == old(self).root(),
            match out {
                Ok(d) => monolithic_error(old(pool)@, name@, digest@, data@).is_none() && d@
                    == digest_of(data@) && ({
                    let path = blob_file(old(self).root(), name@, digest_of(data@));
                    &&& final(self).files() == old(self).files().insert(path, data@)
                    &&& final(pool)@ == old(pool)@.ensured_repo(name@).installed(
                        old(pool)@.ensured_repo_id(name@),
                        digest_of(data@),
                        path,
                    )
                }),
                Err(e) => monolithic_error(old(pool)@, name@, digest@, data@) == Some(e)
                    && final(self).files() == old(self).files() && final(pool)@ == old(pool)@,
            },
            backed(old(pool)@, old(self).files()) ==> backed(final(pool)@, final(self).files()),
            old(pool)@.wf() ==> final(pool)@.wf(),
    {
        let calculated = calculate_digest(data.as_slice());
        let wanted = add_sha_header(digest);
        if !crate::text::str_eq(wanted.as_str(), calculated.as_str()) {
            return Err(StorageError::DigestError);
        }
        let dir = blob_dir_of(name);
        if !path_is_plain(dir.as_str()) {
            return Err(StorageError::IoError(IoFault::InvalidInput));
        }
        let repo = match pool.ensure_repository(name) {
            Ok(repo) => repo,
            Err(e) => {
                return Err(e);
            },
        };
        let full = join_path(join_path(self.base_path().as_str(), dir.as_str()).as_str(), calculated.as_str());
        proof {
            lemma_digest_plain(data@);
            if old(pool)@.wf() {
                crate::wellformed::law_wf_installed(old(pool)@, name@, calculated@, full@);
            }
            if backed(old(pool)@, self.files()) {
                lemma_backed_same_blobs(old(pool)@, pool@, self.files());
                lemma_backed_installed(pool@, self.files(), repo, full@, data@);
            }
        }
        pool.install(repo, calculated.as_str(), full.as_str());
        proof {
            crate::paths::lemma_plain_path_normal(dir@);
        }
        match self.stream_to_file(dir.as_str(), calculated.as_str(), data) {
            Ok(_) => {},
            Err(e) => {
                return Err(e);
            },
        }
        Ok(calculated)
    }

    /// Makes the blob `digest` available in the repository named `target_name` without
    /// moving bytes: finds its file in the repository named `source_name` or, without a
    /// source, in any repository, and records it for the target, which is created if it is
    /// missing, unless the target holds the blob already. Returns the path of the file. No
    /// file changes.
    pub fn mount_blob(
        &self,
        pool: &mut DbConn,
        target_name: &str,
        digest: &str,
        source_name: Option<&str>,
    ) -> (out: Result<String, StorageError>)
        ensures
            match out {
                Ok(path) => mount_error(
                    old(pool)@,
                    target_name@,
                    digest@,
                    match source_name {
                        Some(s) => Some(s@),
                        None => None,
                    },
                ).is_none() && Some(path@) == old(pool)@.source_path(
                    with_prefix(digest@),
                    match source_name {
                        Some(s) => Some(s@),
                        None => None,
                    },
                ) && final(pool)@ == old(pool)@.ensured_repo(target_name@).mounted(
                    old(pool)@.ensured_repo_id(target_name@),
                    with_prefix(digest@),
                    path@,
                ),
                Err(e) => mount_error(
                    old(pool)@,
                    target_name@,
                    digest@,
                    match source_name {
                        Some(s) => Some(s@),
                        None => None,
                    },
                ) == Some(e) && final(pool)@ == old(pool)@,
            },
            backed(old(pool)@, self.files()) ==> backed(final(pool)@, self.files()),
            old(pool)@.wf() ==> final(pool)@.wf(),
    {
        let wanted = add_sha_header(digest);
        let found = match source_name {
            Some(s) => match pool.repo_lookup(s) {
                Some(source) => pool.blob_path(source.0, wanted.as_str()),
                None => None,
            },
            None => pool.any_blob_path(wanted.as_str()),
        };
        let path = match found {
            Some(path) => path,
            None => {
                return Err(StorageError::NotFound(Missing::Blob));
            },
        };
        proof {
            if backed(pool@, self.files()) {
                lemma_source_backed(
                    pool@,
                    self.files(),
                    wanted@,
                    match source_name {
                        Some(s) => Some(s@),
                        None => None,
                    },
                );
            }
        }
        let target = match pool.ensure_repository(target_name) {
            Ok(target) => target,
            Err(e) => {
                return Err(e);
            },
        };
        proof {
            if old(pool)@.wf() {
                crate::wellformed::law_wf_installed(old(pool)@, target_name@, wanted@, path@);
            }
            if backed(old(pool)@, self.files()) {
                lemma_backed_same_blobs(old(pool)@, pool@, self.files());
                if !pool@.blob_exists(target, wanted@) {
                    lemma_backed_push(pool@, self.files(), new_blob(target, wanted@, path@));
                }
            }
        }
        if !pool.blob_exists(target, wanted.as_str()) {
            pool.insert_blob(target, wanted.as_str(), path.as_str(), None, 0);
        }
        Ok(path)
    }
}

/// The file that a blob can be mounted from is stored and hashes to the blob's digest.
pub proof fn lemma_source_backed(db: DbModel, files: Map<Seq<char>, Seq<u8>>, digest: Seq<char>, source: Option<Seq<char>>)
    requires
        backed(db, files),
        db.source_path(digest, source).is_some(),
    ensures
        files.contains_key(db.source_path(digest, source).unwrap()),
        digest_of(files[db.source_path(digest, source).unwrap()]) == digest,
{
    match source {
        Some(s) => {
            let repo = db.repo_id(s).unwrap();
            crate::table::lemma_first_where(db.blobs, crate::database::blob_at(repo, digest));
            let i = crate::table::first_where(db.blobs, crate::database::blob_at(repo, digest));
            assert(db.blobs[i].is_blob(repo, digest));
        },
        None => {
            crate::table::lemma_first_where(db.blobs, crate::database::blob_with_digest(digest));
            let i = crate::table::first_where(db.blobs, crate::database::blob_with_digest(digest));
            assert(db.blobs[i].digest == digest);
        },
    }
}

} // verus!

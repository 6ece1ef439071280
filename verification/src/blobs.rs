//! The blob endpoints: fetching, checking and deleting a blob, and the three ways to
//! upload one: in a session of chunks, in one piece, or by mounting it from another
//! repository.

use crate::codes::Code;
use crate::database::{blob_not_at, DbConn, DbModel};
use crate::digest::{add_sha_header, digest_of, with_prefix};
use crate::error::{MetadataFault, StorageError};
use crate::manifest_store::{delete_blob_error, read_blob_error};
use crate::response::{error_reply, Body, BodyModel, Response, ResponseModel};
use crate::storage::{backed, swept, LocalStorageDriver};
use crate::text::{chars_of, decimal_i64, extend_chars, format_i64, string_of};
use crate::uploads::{
    blob_file, chunk_db, chunk_files, chunk_next, finish_db, finish_digest, finish_error,
    finish_files, monolithic_error, mount_error,
};
use crate::util::{content_length_of, content_range_of, parse_content_length, parse_content_range};
use vstd::prelude::*;

verus! {

/// The query of an upload request.
pub struct QueryParams {
    pub digest: Option<String>,
    pub mount: Option<String>,
    pub from: Option<String>,
}

/// Repository and session of an upload.
pub struct BlobUpload {
    pub name: String,
    pub session_id: String,
}

/// The characters of an optional text.
pub open spec fn text_of(o: Option<&str>) -> Option<Seq<char>> {
    match o {
        Some(s) => Some(s@),
        None => None,
    }
}

/// Where the blob `digest` of the repository named `name` is fetched.
pub open spec fn blob_location(name: Seq<char>, digest: Seq<char>) -> Seq<char> {
    "/v2/"@ + name + "/blobs/"@ + digest
}

/// Where the session `id` of the repository named `name` takes chunks.
pub open spec fn upload_location(name: Seq<char>, id: Seq<char>) -> Seq<char> {
    "/v2/"@ + name + "/blobs/uploads/"@ + id
}

fn blob_location_of(name: &str, digest: &str) -> (out: String)
    ensures
        out@ == blob_location(name@, digest@),
{
    let mut text = chars_of("/v2/");
    extend_chars(&mut text, chars_of(name).as_slice());
    extend_chars(&mut text, chars_of("/blobs/").as_slice());
    extend_chars(&mut text, chars_of(digest).as_slice());
    string_of(text.as_slice())
}

fn upload_location_of(name: &str, id: &str) -> (out: String)
    ensures
        out@ == upload_location(name@, id@),
{
    let mut text = chars_of("/v2/");
    extend_chars(&mut text, chars_of(name).as_slice());
    extend_chars(&mut text, chars_of("/blobs/uploads/").as_slice());
    extend_chars(&mut text, chars_of(id).as_slice());
    string_of(text.as_slice())
}

/// The answer to the fetch of a blob.
pub open spec fn get_blob_reply(db: DbModel, files: Map<Seq<char>, Seq<u8>>, name: Seq<char>, digest: Seq<char>) -> ResponseModel {
    match read_blob_error(db, files, name, digest) {
        None => ResponseModel {
            status: 200,
            headers: seq![("Docker-Content-Digest"@, with_prefix(digest))],
            body: BodyModel::Bytes(
                files[db.blob_path(db.repo_id(name).unwrap(), with_prefix(digest)).unwrap()],
            ),
        },
        Some(_) => error_reply(404, Code::BlobUnknown, "blob not found"@),
    }
}

/// Fetches the blob `digest` of the repository named `name`: 200 with the bytes and the
/// digest as `Docker-Content-Digest`, or 404 `BlobUnknown`.
pub fn get_blob(name: &str, digest: &str, conn: &DbConn, blob_storage: &LocalStorageDriver) -> (out: Response)
    requires
        blob_storage.wf(),
    ensures
        out@ == get_blob_reply(conn@, blob_storage.files(), name@, digest@),
{
    match blob_storage.read_blob(conn, name, digest) {
        Ok(data) => {
            let mut response = Response::new(200, Body::Bytes(data));
            response.push_header("Docker-Content-Digest", add_sha_header(digest).as_str());
            assert(response@.headers =~= seq![("Docker-Content-Digest"@, with_prefix(digest@))]);
            response
        },
        Err(_) => Response::error(404, Code::BlobUnknown, "blob not found"),
    }
}

/// Whether the repository named `name` holds the blob `digest`.
pub open spec fn blob_known(db: DbModel, name: Seq<char>, digest: Seq<char>) -> bool {
    db.repo_id(name).is_some() && db.blob_exists(db.repo_id(name).unwrap(), with_prefix(digest))
}

/// Checks whether the repository named `name` holds the blob `digest`: 200 or 404
/// `BlobUnknown`.
pub fn check_blob(name: &str, digest: &str, conn: &DbConn) -> (out: Response)
    ensures
        out@ == (if blob_known(conn@, name@, digest@) {
            ResponseModel { status: 200, headers: Seq::empty(), body: BodyModel::Text("true"@) }
        } else {
            error_reply(404, Code::BlobUnknown, "blob not found"@)
        }),
{
    let known = match conn.repo_lookup(name) {
        Some(found) => conn.blob_exists(found.0, add_sha_header(digest).as_str()),
        None => false,
    };
    if known {
        Response::text(200, "true")
    } else {
        Response::error(404, Code::BlobUnknown, "blob not found")
    }
}

/// The answer to the deletion of a blob.
pub open spec fn delete_blob_reply(error: Option<StorageError>) -> ResponseModel {
    match error {
        None => ResponseModel {
            status: 202,
            headers: Seq::empty(),
            body: BodyModel::Text("deleted successfully"@),
        },
        Some(StorageError::MetadataError(MetadataFault::InUse)) => error_reply(
            403,
            Code::Denied,
            "blob is referenced by a manifest"@,
        ),
        Some(_) => error_reply(404, Code::BlobUnknown, "blob not found"@),
    }
}

/// Deletes the blob `digest` of the repository named `name`: 202, or 404 `BlobUnknown`
/// without it. A blob that a manifest references is not deleted: 403 `Denied`, and nothing
/// changes.
pub fn delete_blob(name: &str, digest: &str, conn: &mut DbConn, storage: &mut LocalStorageDriver) -> (out: Response)
    requires
        old(storage).wf(),
    ensures
        final(storage).wf(),
        final(storage).root() == old(storage).root(),
        out@ == delete_blob_reply(delete_blob_error(old(conn)@, name@, digest@)),
        delete_blob_error(old(conn)@, name@, digest@).is_some() ==> final(conn)@ == old(conn)@
            && final(storage).files() == old(storage).files(),
        delete_blob_error(old(conn)@, name@, digest@).is_none() ==> ({
            let repo = old(conn)@.repo_id(name@).unwrap();
            &&& final(conn)@ == old(conn)@.keep_blobs(blob_not_at(repo, with_prefix(digest@)))
            &&& final(storage).files() == swept(
                old(storage).files(),
                final(conn)@,
                seq![old(conn)@.blob_path(repo, with_prefix(digest@)).unwrap()],
            )
        }),
        backed(old(conn)@, old(storage).files()) ==> backed(final(conn)@, final(storage).files()),
        old(conn)@.wf() ==> final(conn)@.wf(),
{
    match storage.delete_blob(conn, name, digest) {
        Ok(_) => Response::text(202, "deleted successfully"),
        Err(StorageError::MetadataError(MetadataFault::InUse)) => Response::error(
            403,
            Code::Denied,
            "blob is referenced by a manifest",
        ),
        Err(_) => Response::error(404, Code::BlobUnknown, "blob not found"),
    }
}

/// The end that the `Range` header reports after a chunk: the last byte received.
pub open spec fn range_end(next: i64) -> i64 {
    if next > 0 {
        (next - 1) as i64
    } else {
        0
    }
}

/// The status of an upload that failed for a reason that has no code of its own: 400 for
/// names that make no plain path, 500 when the content store or the metadata store failed,
/// else 404.
pub open spec fn failure_status(e: StorageError) -> u16 {
    match e {
        StorageError::IoError(crate::error::IoFault::InvalidInput) => 400,
        StorageError::IoError(_) => 500,
        StorageError::MetadataError(_) => 500,
        _ => 404,
    }
}

/// The status of an upload that failed for a reason that has no code of its own.
pub fn status_of_failure(e: StorageError) -> (out: u16)
    ensures
        out == failure_status(e),
{
    match e {
        StorageError::IoError(crate::error::IoFault::InvalidInput) => 400,
        StorageError::IoError(_) => 500,
        StorageError::MetadataError(_) => 500,
        _ => 404,
    }
}

/// The answer to a chunk that was refused: 416 for a chunk out of order.
pub open spec fn chunk_refusal(e: StorageError) -> ResponseModel {
    match e {
        StorageError::OutOfOrder => error_reply(416, Code::BlobUploadInvalid, "chunk out of order"@),
        _ => error_reply(failure_status(e), Code::BlobUploadUnknown, "unable to upload blob"@),
    }
}

/// The answer to a chunk.
pub open spec fn chunk_reply(
    name: Seq<char>,
    uuid: Seq<char>,
    content_length: i64,
    range: Option<(i64, i64)>,
    error: Option<StorageError>,
) -> ResponseModel {
    match error {
        None => ResponseModel {
            status: 202,
            headers: seq![
                ("Location"@, upload_location(name, uuid)),
                ("Range"@, "0-"@ + decimal_i64(range_end(chunk_next(range, content_length).unwrap()) as int)),
                ("Content-Length"@, "0"@),
                ("Docker-Upload-UUID"@, uuid),
            ],
            body: BodyModel::Empty,
        },
        Some(e) => chunk_refusal(e),
    }
}

/// The range that the headers of a chunk state: that of `Content-Range` if there is one.
pub open spec fn range_of(content_range: Option<Seq<char>>) -> Option<(i64, i64)> {
    match content_range {
        Some(v) => Some(content_range_of(Some(v))),
        None => None,
    }
}

fn refusal(e: StorageError) -> (out: Response)
    ensures
        out@ == chunk_refusal(e),
{
    match e {
        StorageError::OutOfOrder => Response::error(416, Code::BlobUploadInvalid, "chunk out of order"),
        _ => Response::error(status_of_failure(e), Code::BlobUploadUnknown, "unable to upload blob"),
    }
}

/// Takes one chunk of session `session_id`: `LocalStorageDriver::upload_chunk`.
pub fn upload_chunk(
    name: &str,
    session_id: &str,
    storage: &mut LocalStorageDriver,
    conn: &mut DbConn,
    content_length: i64,
    content_range: Option<(i64, i64)>,
    data: Vec<u8>,
) -> (out: Result<String, StorageError>)
    requires
        old(storage).wf(),
    ensures
        final(storage).wf(),
        final(storage).root() == old(storage).root(),
        match out {
            Ok(digest) => old(conn)@.chunk_error(name@, session_id@, content_length, content_range).is_none()
                && digest@ == digest_of(data@) && final(storage).files() == chunk_files(
                old(storage).files(),
                old(conn)@,
                old(storage).root(),
                name@,
                session_id@,
                data@,
            ) && final(conn)@ == chunk_db(
                old(conn)@,
                old(storage).root(),
                name@,
                session_id@,
                content_length,
                content_range,
                data@,
            ),
            Err(e) => old(conn)@.chunk_error(name@, session_id@, content_length, content_range)
                == Some(e) && final(storage).files() == old(storage).files() && final(conn)@ == old(conn)@,
        },
        backed(old(conn)@, old(storage).files()) ==> backed(final(conn)@, final(storage).files()),
        old(conn)@.wf() ==> final(conn)@.wf(),
{
    storage.upload_chunk(conn, name, session_id, content_length, content_range, data)
}

/// Takes one chunk of session `session_id` of the repository named `name`, with the values
/// of the `Content-Length` and `Content-Range` headers as they came. A chunk in order is
/// answered with 202, the location of the session, and in `Range` the bytes received so
/// far; a chunk out of order with 416, and nothing changes.
pub fn handle_upload_session_chunk(
    name: &str,
    session_id: &str,
    conn: &mut DbConn,
    storage: &mut LocalStorageDriver,
    content_length: Option<&str>,
    content_range: Option<&str>,
    body: Vec<u8>,
) -> (out: Response)
    requires
        old(storage).wf(),
    ensures
        final(storage).wf(),
        final(storage).root() == old(storage).root(),
        ({
            let len = content_length_of(text_of(content_length));
            let range = range_of(text_of(content_range));
            let error = old(conn)@.chunk_error(name@, session_id@, len, range);
            &&& out@ == chunk_reply(name@, session_id@, len, range, error)
            &&& error.is_some() ==> final(conn)@ == old(conn)@
                && final(storage).files() == old(storage).files()
            &&& error.is_none() ==> final(conn)@ == chunk_db(
                old(conn)@,
                old(storage).root(),
                name@,
                session_id@,
                len,
                range,
                body@,
            ) && final(storage).files() == chunk_files(
                old(storage).files(),
                old(conn)@,
                old(storage).root(),
                name@,
                session_id@,
                body@,
            )
        }),
        backed(old(conn)@, old(storage).files()) ==> backed(final(conn)@, final(storage).files()),
        old(conn)@.wf() ==> final(conn)@.wf(),
{
    let len = parse_content_length(content_length);
    let range = match content_range {
        Some(v) => Some(parse_content_range(Some(v))),
        None => None,
    };
    match upload_chunk(name, session_id, storage, conn, len, range, body) {
        Ok(_) => {
            let next = match range {
                Some(r) => r.1 + 1,
                None => len,
            };
            let end = if next > 0 {
                next - 1
            } else {
                0
            };
            let mut value = chars_of("0-");
            extend_chars(&mut value, format_i64(end).as_slice());
            let mut response = Response::new(202, Body::Empty);
            response.push_header("Location", upload_location_of(name, session_id).as_str());
            response.push_header("Range", string_of(value.as_slice()).as_str());
            response.push_header("Content-Length", "0");
            response.push_header("Docker-Upload-UUID", session_id);
            assert(response@.headers =~= seq![
                ("Location"@, upload_location(name@, session_id@)),
                ("Range"@, "0-"@ + decimal_i64(end as int)),
                ("Content-Length"@, "0"@),
                ("Docker-Upload-UUID"@, session_id@),
            ]);
            response
        },
        Err(e) => refusal(e),
    }
}

/// The answer to the close of a session that gave the blob `digest`.
pub open spec fn created_reply(name: Seq<char>, digest: Seq<char>) -> ResponseModel {
    ResponseModel {
        status: 201,
        headers: seq![("Location"@, blob_location(name, digest)), ("Docker-Content-Digest"@, digest)],
        body: BodyModel::Text("resource created"@),
    }
}

/// The answer to the close of a session that was refused.
pub open spec fn finish_refusal(e: StorageError) -> ResponseModel {
    match e {
        StorageError::DigestError => error_reply(400, Code::DigestInvalid, "digest did not match content"@),
        _ => error_reply(failure_status(e), Code::BlobUploadUnknown, "unable to upload blob"@),
    }
}

/// Answer, metadata store and files after the close of session `uuid` with the digest
/// `expected` announced, if any.
pub open spec fn finish_outcome(
    db: DbModel,
    files: Map<Seq<char>, Seq<u8>>,
    root: Seq<char>,
    name: Seq<char>,
    uuid: Seq<char>,
    expected: Option<Seq<char>>,
) -> (ResponseModel, DbModel, Map<Seq<char>, Seq<u8>>) {
    match finish_error(db, files, name, uuid, expected) {
        Some(e) => (finish_refusal(e), db, files),
        None => (
            created_reply(name, finish_digest(db, files, name, uuid)),
            finish_db(db, files, root, name, uuid),
            finish_files(db, files, root, name, uuid),
        ),
    }
}

fn created(name: &str, digest: &str) -> (out: Response)
    ensures
        out@ == created_reply(name@, digest@),
{
    let mut response = Response::text(201, "resource created");
    response.push_header("Location", blob_location_of(name, digest).as_str());
    response.push_header("Docker-Content-Digest", digest);
    assert(response@.headers =~= seq![
        ("Location"@, blob_location(name@, digest@)),
        ("Docker-Content-Digest"@, digest@),
    ]);
    response
}

fn finish(
    name: &str,
    session_id: &str,
    conn: &mut DbConn,
    storage: &mut LocalStorageDriver,
    expected: Option<&str>,
) -> (out: Response)
    requires
        old(storage).wf(),
    ensures
        final(storage).wf(),
        final(storage).root() == old(storage).root(),
        (out@, final(conn)@, final(storage).files()) == finish_outcome(
            old(conn)@,
            old(storage).files(),
            old(storage).root(),
            name@,
            session_id@,
            text_of(expected),
        ),
        backed(old(conn)@, old(storage).files()) ==> backed(final(conn)@, final(storage).files()),
        old(conn)@.wf() ==> final(conn)@.wf(),
{
    match storage.finish_session(conn, name, session_id, expected) {
        Ok(digest) => created(name, digest.as_str()),
        Err(StorageError::DigestError) => Response::error(
            400,
            Code::DigestInvalid,
            "digest did not match content",
        ),
        Err(e) => Response::error(status_of_failure(e), Code::BlobUploadUnknown, "unable to upload blob"),
    }
}

/// Closes session `session_id` without a digest to check: the chunks are joined and the
/// blob is installed. 201 with the location of the blob, or 404 `BlobUploadUnknown`.
pub fn finish_upload_session(name: &str, session_id: &str, conn: &mut DbConn, storage: &mut LocalStorageDriver) -> (out: Response)
    requires
        old(storage).wf(),
    ensures
        final(storage).wf(),
        final(storage).root() == old(storage).root(),
        (out@, final(conn)@, final(storage).files()) == finish_outcome(
            old(conn)@,
            old(storage).files(),
            old(storage).root(),
            name@,
            session_id@,
            None,
        ),
        backed(old(conn)@, old(storage).files()) ==> backed(final(conn)@, final(storage).files()),
        old(conn)@.wf() ==> final(conn)@.wf(),
{
    finish(name, session_id, conn, storage, None)
}

/// Answer, metadata store and files after a request to close session `uuid`: without a
/// digest it is refused with 400 `DigestInvalid`; with a body the body is taken as a last
/// chunk first; then the session is closed against the digest.
pub open spec fn put_outcome(
    db: DbModel,
    files: Map<Seq<char>, Seq<u8>>,
    root: Seq<char>,
    name: Seq<char>,
    uuid: Seq<char>,
    digest: Option<Seq<char>>,
    content_length: i64,
    range: Option<(i64, i64)>,
    data: Seq<u8>,
) -> (ResponseModel, DbModel, Map<Seq<char>, Seq<u8>>) {
    match digest {
        None => (error_reply(400, Code::DigestInvalid, "digest required to close session"@), db, files),
        Some(d) => if range.is_none() && content_length == 0 {
            finish_outcome(db, files, root, name, uuid, Some(d))
        } else {
            match db.chunk_error(name, uuid, content_length, range) {
                Some(e) => (chunk_refusal(e), db, files),
                None => finish_outcome(
                    chunk_db(db, root, name, uuid, content_length, range, data),
                    chunk_files(files, db, root, name, uuid, data),
                    root,
                    name,
                    uuid,
                    Some(d),
                ),
            }
        },
    }
}

/// Closes session `session_id` of the repository named `name` against the digest of the
/// query. A body, announced by a `Content-Range` or a `Content-Length` other than 0, is
/// taken as the last chunk first. The blob is published only if the joined chunks hash to
/// the digest: else the answer is 400 `DigestInvalid` and the session stays open.
pub fn put_upload_session_blob(
    name: &str,
    session_id: &str,
    query: &QueryParams,
    storage: &mut LocalStorageDriver,
    conn: &mut DbConn,
    content_length: Option<&str>,
    content_range: Option<&str>,
    body: Vec<u8>,
) -> (out: Response)
    requires
        old(storage).wf(),
    ensures
        final(storage).wf(),
        final(storage).root() == old(storage).root(),
        (out@, final(conn)@, final(storage).files()) == put_outcome(
            old(conn)@,
            old(storage).files(),
            old(storage).root(),
            name@,
            session_id@,
            match query.digest {
                Some(d) => Some(d@),
                None => None,
            },
            content_length_of(text_of(content_length)),
            range_of(text_of(content_range)),
            body@,
        ),
        backed(old(conn)@, old(storage).files()) ==> backed(final(conn)@, final(storage).files()),
        old(conn)@.wf() ==> final(conn)@.wf(),
{
    let digest = match &query.digest {
        Some(d) => d,
        None => {
            return Response::error(400, Code::DigestInvalid, "digest required to close session");
        },
    };
    let len = parse_content_length(content_length);
    let range = match content_range {
        Some(v) => Some(parse_content_range(Some(v))),
        None => None,
    };
    if range.is_none() && len == 0 {
        return finish(name, session_id, conn, storage, Some(digest.as_str()));
    }
    match upload_chunk(name, session_id, storage, conn, len, range, body) {
        Ok(_) => finish(name, session_id, conn, storage, Some(digest.as_str())),
        Err(e) => refusal(e),
    }
}

/// Takes the body as the last chunk of session `session_id`, at the session's count, and
/// closes the session against the digest of the `digest` header; without that header no
/// content matches. The answers are those of `put_upload_session_blob`.
pub fn put_upload_blob(
    name: &str,
    session_id: &str,
    storage: &mut LocalStorageDriver,
    conn: &mut DbConn,
    digest: Option<&str>,
    content_length: Option<&str>,
    body: Vec<u8>,
) -> (out: Response)
    requires
        old(storage).wf(),
    ensures
        final(storage).wf(),
        final(storage).root() == old(storage).root(),
        (out@, final(conn)@, final(storage).files()) == (match old(conn)@.chunk_error(
            name@,
            session_id@,
            content_length_of(text_of(content_length)),
            None,
        ) {
            Some(e) => (chunk_refusal(e), old(conn)@, old(storage).files()),
            None => finish_outcome(
                chunk_db(
                    old(conn)@,
                    old(storage).root(),
                    name@,
                    session_id@,
                    content_length_of(text_of(content_length)),
                    None,
                    body@,
                ),
                chunk_files(
                    old(storage).files(),
                    old(conn)@,
                    old(storage).root(),
                    name@,
                    session_id@,
                    body@,
                ),
                old(storage).root(),
                name@,
                session_id@,
                Some(
                    match digest {
                        Some(d) => d@,
                        None => "sha256:"@,
                    },
                ),
            ),
        }),
        backed(old(conn)@, old(storage).files()) ==> backed(final(conn)@, final(storage).files()),
        old(conn)@.wf() ==> final(conn)@.wf(),
{
    let expected = match digest {
        Some(d) => d,
        None => "sha256:",
    };
    let len = parse_content_length(content_length);
    match upload_chunk(name, session_id, storage, conn, len, None, body) {
        Ok(_) => finish(name, session_id, conn, storage, Some(expected)),
        Err(e) => refusal(e),
    }
}

/// The answer to a name that is no repository name.
pub open spec fn name_refusal() -> ResponseModel {
    error_reply(400, Code::NameInvalid, "invalid repository name"@)
}

/// The answer to a session that could not be opened: 400 `NameInvalid` for a name that is
/// no repository name or makes no plain path, else 404 `NameUnknown`.
pub open spec fn session_refusal(e: StorageError) -> ResponseModel {
    match e {
        StorageError::InvalidInput => name_refusal(),
        StorageError::IoError(crate::error::IoFault::InvalidInput) => name_refusal(),
        _ => error_reply(404, Code::NameUnknown, "repository name not found"@),
    }
}

/// The answer to a mount.
pub open spec fn mount_reply(name: Seq<char>, digest: Seq<char>, error: Option<StorageError>) -> ResponseModel {
    match error {
        None => ResponseModel {
            status: 201,
            headers: seq![("Location"@, blob_location(name, with_prefix(digest)))],
            body: BodyModel::Text("resource created"@),
        },
        Some(StorageError::InvalidInput) => name_refusal(),
        Some(_) => error_reply(404, Code::BlobUnknown, "blob not found"@),
    }
}

/// The answer to an upload in one piece.
pub open spec fn monolithic_reply(name: Seq<char>, data: Seq<u8>, error: Option<StorageError>) -> ResponseModel {
    match error {
        None => created_reply(name, digest_of(data)),
        Some(StorageError::DigestError) => error_reply(400, Code::DigestInvalid, "digest did not match content"@),
        Some(StorageError::InvalidInput) => name_refusal(),
        Some(StorageError::IoError(crate::error::IoFault::InvalidInput)) => name_refusal(),
        Some(e) => error_reply(failure_status(e), Code::BlobUploadUnknown, "unable to upload blob"@),
    }
}

/// What the opening of session `id` comes to: the session, or why it cannot be opened.
pub open spec fn session_outcome(db: DbModel, name: Seq<char>, id: Seq<char>) -> Result<Seq<char>, StorageError> {
    match db.session_error(name, id) {
        Some(e) => Err(e),
        None => Ok(id),
    }
}

/// The answer to the opening of a session: the session that was opened, or why none was.
pub open spec fn session_reply(name: Seq<char>, session: Result<Seq<char>, StorageError>) -> ResponseModel {
    match session {
        Ok(id) => ResponseModel {
            status: 202,
            headers: seq![("Location"@, upload_location(name, id)), ("Docker-Upload-UUID"@, id)],
            body: BodyModel::Empty,
        },
        Err(e) => session_refusal(e),
    }
}

/// Starts an upload to the repository named `name`, which is created if it is missing.
/// With `mount` in the query the blob is mounted from the repository `from`, or from any:
/// 201 and no bytes move. With `digest` in the query the body is the whole blob: 201 if it
/// hashes to the digest, else 400 `DigestInvalid` and nothing is stored. Otherwise a
/// session is opened: 202 with its location.
pub fn handle_upload_blob(
    name: &str,
    query: &QueryParams,
    storage: &mut LocalStorageDriver,
    conn: &mut DbConn,
    body: Vec<u8>,
) -> (out: Response)
    requires
        old(storage).wf(),
    ensures
        final(storage).wf(),
        final(storage).root() == old(storage).root(),
        match (query.mount, query.digest) {
            (Some(m), _) => {
                let from = match query.from {
                    Some(f) => Some(f@),
                    None => None,
                };
                &&& out@ == mount_reply(name@, m@, mount_error(old(conn)@, name@, m@, from))
                &&& final(storage).files() == old(storage).files()
                &&& final(conn)@ == (match mount_error(old(conn)@, name@, m@, from) {
                    None => old(conn)@.ensured_repo(name@).mounted(
                        old(conn)@.ensured_repo_id(name@),
                        with_prefix(m@),
                        old(conn)@.source_path(with_prefix(m@), from).unwrap(),
                    ),
                    Some(_) => old(conn)@,
                })
            },
            (None, Some(d)) => {
                &&& out@ == monolithic_reply(name@, body@, monolithic_error(old(conn)@, name@, d@, body@))
                &&& (match monolithic_error(old(conn)@, name@, d@, body@) {
                    None => final(storage).files() == old(storage).files().insert(
                        blob_file(old(storage).root(), name@, digest_of(body@)),
                        body@,
                    ) && final(conn)@ == old(conn)@.ensured_repo(name@).installed(
                        old(conn)@.ensured_repo_id(name@),
                        digest_of(body@),
                        blob_file(old(storage).root(), name@, digest_of(body@)),
                    ),
                    Some(_) => final(storage).files() == old(storage).files() && final(conn)@
                        == old(conn)@,
                })
            },
            (None, None) => {
                &&& final(storage).files() == old(storage).files()
                &&& exists|id: Seq<char>|
                    crate::paths::plain_name(id) && out@ == session_reply(
                        name@,
                        #[trigger] session_outcome(old(conn)@, name@, id),
                    ) && final(conn)@ == (match old(conn)@.session_error(name@, id) {
                        Some(_) => old(conn)@,
                        None => old(conn)@.with_session(name@, id),
                    })
            },
        },
        backed(old(conn)@, old(storage).files()) ==> backed(final(conn)@, final(storage).files()),
        old(conn)@.wf() ==> final(conn)@.wf(),
{
    match &query.mount {
        Some(m) => {
            let from = match &query.from {
                Some(f) => Some(f.as_str()),
                None => None,
            };
            return match storage.mount_blob(conn, name, m.as_str(), from) {
                Ok(_) => {
                    let mut response = Response::text(201, "resource created");
                    response.push_header(
                        "Location",
                        blob_location_of(name, add_sha_header(m.as_str()).as_str()).as_str(),
                    );
                    assert(response@.headers =~= seq![
                        ("Location"@, blob_location(name@, with_prefix(m@))),
                    ]);
                    response
                },
                Err(StorageError::InvalidInput) => Response::error(
                    400,
                    Code::NameInvalid,
                    "invalid repository name",
                ),
                Err(_) => Response::error(404, Code::BlobUnknown, "blob not found"),
            };
        },
        None => {},
    }
    match &query.digest {
        Some(sha) => {
            return match storage.write_blob_without_session_id(conn, name, sha.as_str(), body) {
                Ok(digest) => created(name, digest.as_str()),
                Err(StorageError::DigestError) => Response::error(
                    400,
                    Code::DigestInvalid,
                    "digest did not match content",
                ),
                Err(StorageError::InvalidInput) => Response::error(
                    400,
                    Code::NameInvalid,
                    "invalid repository name",
                ),
                Err(StorageError::IoError(crate::error::IoFault::InvalidInput)) => Response::error(
                    400,
                    Code::NameInvalid,
                    "invalid repository name",
                ),
                Err(e) => Response::error(status_of_failure(e), Code::BlobUploadUnknown, "unable to upload blob"),
            };
        },
        None => {},
    }
    match storage.new_session(conn, name) {
        Ok(id) => {
            proof {
                if backed(old(conn)@, storage.files()) {
                    crate::uploads::lemma_backed_same_blobs(old(conn)@, conn@, storage.files());
                }
            }
            let mut response = Response::new(202, Body::Empty);
            response.push_header("Location", upload_location_of(name, id.as_str()).as_str());
            response.push_header("Docker-Upload-UUID", id.as_str());
            assert(response@.headers =~= seq![
                ("Location"@, upload_location(name@, id@)),
                ("Docker-Upload-UUID"@, id@),
            ]);
            proof {
                assert(session_reply(name@, session_outcome(old(conn)@, name@, id@)) == response@);
                assert(old(conn)@.session_error(name@, id@).is_none());
            }
            response
        },
        Err(e) => {
            let response = match e {
                StorageError::InvalidInput => Response::error(400, Code::NameInvalid, "invalid repository name"),
                StorageError::IoError(crate::error::IoFault::InvalidInput) => Response::error(
                    400,
                    Code::NameInvalid,
                    "invalid repository name",
                ),
                _ => Response::error(404, Code::NameUnknown, "repository name not found"),
            };
            proof {
                let id = choose|id: Seq<char>|
                    crate::paths::plain_name(id) && #[trigger] old(conn)@.session_error(name@, id) == Some(e);
                assert(session_reply(name@, session_outcome(old(conn)@, name@, id)) == response@);
            }
            response
        },
    }
}

} // verus!

//! The manifest endpoints: pushing, fetching and deleting a manifest.

use crate::blobs::{failure_status, status_of_failure};
use crate::codes::Code;
use crate::database::{DbConn, DbModel};
use crate::digest::digest_of;
use crate::error::{Missing, StorageError};
use crate::manifest_store::{manifest_file, write_manifest_error};
use crate::response::{error_reply, Body, BodyModel, Response, ResponseModel};
use crate::shared::{ImageManifest, ImageManifestModel, MANIFEST_CONTENT_TYPE};
use crate::storage::{backed, swept, LocalStorageDriver};
use crate::text::{chars_of, decimal, extend_chars, format_u64, str_eq, string_of};
use vstd::prelude::*;

verus! {

/// Where the manifest `reference` of the repository named `name` is fetched.
pub open spec fn manifest_location(name: Seq<char>, reference: Seq<char>) -> Seq<char> {
    "/v2/"@ + name + "/manifests/"@ + reference
}

/// The views of an optional manifest.
pub open spec fn manifest_view(parsed: Option<ImageManifest>) -> Option<ImageManifestModel> {
    match parsed {
        Some(m) => Some(m@),
        None => None,
    }
}

/// The answer to a manifest that was refused: 400 `ManifestInvalid` for bytes that are no
/// manifest, 400 `ManifestBlobUnknown` for a layer that the repository lacks, 400
/// `NameInvalid` for a name or a reference that cannot be, 404 `NameUnknown` for an unknown
/// repository.
pub open spec fn push_refusal(e: StorageError) -> ResponseModel {
    match e {
        StorageError::InvalidInput => error_reply(400, Code::ManifestInvalid, "unable to read manifest"@),
        StorageError::IoError(crate::error::IoFault::InvalidInput) => error_reply(
            400,
            Code::NameInvalid,
            "invalid name or reference"@,
        ),
        StorageError::NotFound(Missing::Blob) => error_reply(
            400,
            Code::ManifestBlobUnknown,
            "manifest references an unknown blob"@,
        ),
        StorageError::NotFound(Missing::Repository) => error_reply(
            404,
            Code::NameUnknown,
            "repository name not found"@,
        ),
        _ => error_reply(failure_status(e), Code::ManifestUnknown, "unable to upload manifest"@),
    }
}

/// The answer to the push of a manifest.
pub open spec fn push_reply(name: Seq<char>, reference: Seq<char>, data: Seq<u8>, error: Option<StorageError>) -> ResponseModel {
    match error {
        None => ResponseModel {
            status: 201,
            headers: seq![
                ("Location"@, manifest_location(name, reference)),
                ("Docker-Content-Digest"@, digest_of(data)),
            ],
            body: BodyModel::Empty,
        },
        Some(e) => push_refusal(e),
    }
}

/// Stores the manifest `body` of the repository named `name` under `reference`; `parsed`
/// is what the bytes read as. The answer is 201 with the location and the digest of the
/// manifest. A manifest that cannot be read, or that names a layer which the repository
/// lacks, is answered with 400, and the store stays as it was.
pub fn push_manifest(
    name: &str,
    reference: &str,
    storage: &mut LocalStorageDriver,
    conn: &mut DbConn,
    body: Vec<u8>,
    parsed: &Option<ImageManifest>,
) -> (out: Response)
    requires
        old(storage).wf(),
    ensures
        final(storage).wf(),
        final(storage).root() == old(storage).root(),
        ({
            let error = write_manifest_error(
                old(conn)@,
                old(storage).root(),
                name@,
                reference@,
                manifest_view(*parsed),
            );
            let path = manifest_file(old(storage).root(), name@, reference@);
            &&& out@ == push_reply(name@, reference@, body@, error)
            &&& error.is_some() ==> final(conn)@ == old(conn)@
                && final(storage).files() == old(storage).files()
            &&& error.is_none() ==> final(storage).files() == old(storage).files().insert(path, body@)
                && final(conn)@ == old(conn)@.put_manifest(
                old(conn)@.repo_id(name@).unwrap(),
                reference@,
                digest_of(body@),
                path,
                parsed.unwrap()@,
            )
        }),
        backed(old(conn)@, old(storage).files()) ==> backed(final(conn)@, final(storage).files()),
        old(conn)@.wf() ==> final(conn)@.wf(),
{
    match storage.write_manifest(conn, name, reference, body, parsed) {
        Ok(digest) => {
            let mut location = chars_of("/v2/");
            extend_chars(&mut location, chars_of(name).as_slice());
            extend_chars(&mut location, chars_of("/manifests/").as_slice());
            extend_chars(&mut location, chars_of(reference).as_slice());
            let mut response = Response::new(201, Body::Empty);
            response.push_header("Location", string_of(location.as_slice()).as_str());
            response.push_header("Docker-Content-Digest", digest.as_str());
            assert(response@.headers =~= seq![
                ("Location"@, manifest_location(name@, reference@)),
                ("Docker-Content-Digest"@, digest_of(body@)),
            ]);
            response
        },
        Err(StorageError::InvalidInput) => Response::error(
            400,
            Code::ManifestInvalid,
            "unable to read manifest",
        ),
        Err(StorageError::IoError(crate::error::IoFault::InvalidInput)) => Response::error(
            400,
            Code::NameInvalid,
            "invalid name or reference",
        ),
        Err(StorageError::NotFound(Missing::Blob)) => Response::error(
            400,
            Code::ManifestBlobUnknown,
            "manifest references an unknown blob",
        ),
        Err(StorageError::NotFound(Missing::Repository)) => Response::error(
            404,
            Code::NameUnknown,
            "repository name not found",
        ),
        Err(e) => Response::error(status_of_failure(e), Code::ManifestUnknown, "unable to upload manifest"),
    }
}

/// The media type that a manifest is served with: the one recorded for it, else that of a
/// version 2 manifest.
pub open spec fn served_type(recorded: Option<Seq<char>>) -> Seq<char> {
    match recorded {
        Some(t) => t,
        None => MANIFEST_CONTENT_TYPE@,
    }
}

/// The answer to the fetch of a manifest; `head` when only the headers are asked for.
pub open spec fn manifest_reply(
    db: DbModel,
    files: Map<Seq<char>, Seq<u8>>,
    name: Seq<char>,
    reference: Seq<char>,
    head: bool,
) -> ResponseModel {
    let unknown = error_reply(404, Code::ManifestUnknown, "unable to find manifest for image"@);
    match db.repo_id(name) {
        None => unknown,
        Some(repo) => match db.resolve(repo, reference) {
            None => unknown,
            Some(at) => {
                let m = db.manifests[at];
                let headers = seq![
                    ("Docker-Content-Digest"@, m.digest),
                    ("Content-Type"@, served_type(m.media_type)),
                ];
                if head {
                    ResponseModel { status: 200, headers, body: BodyModel::Empty }
                } else if files.contains_key(m.file_path) {
                    ResponseModel {
                        status: 200,
                        headers: headers.push(
                            ("Content-Length"@, decimal(files[m.file_path].len())),
                        ),
                        body: BodyModel::Bytes(files[m.file_path]),
                    }
                } else {
                    unknown
                }
            },
        },
    }
}

/// Fetches the manifest that `reference`, a tag or a digest, names in the repository named
/// `name`: the tag is tried first, then the digest. The answer is 200 with the stored
/// bytes, the manifest's digest as `Docker-Content-Digest` and its media type; for the
/// method `HEAD` without the bytes. An unknown manifest is answered with 404
/// `ManifestUnknown`.
pub fn get_manifest(name: &str, reference: &str, blob_storage: &LocalStorageDriver, conn: &DbConn, method: &str) -> (out: Response)
    requires
        blob_storage.wf(),
    ensures
        out@ == manifest_reply(conn@, blob_storage.files(), name@, reference@, method@ == "HEAD"@),
{
    let repo = match conn.repo_lookup(name) {
        Some(found) => found.0,
        None => {
            return Response::error(404, Code::ManifestUnknown, "unable to find manifest for image");
        },
    };
    let at = match conn.resolve(repo, reference) {
        Some(at) => at,
        None => {
            return Response::error(404, Code::ManifestUnknown, "unable to find manifest for image");
        },
    };
    let row = &conn.manifests[at];
    assert(conn@.manifests[at as int] == row@);
    let head = str_eq(method, "HEAD");
    let data = if head {
        None
    } else {
        match blob_storage.read_manifest(row.file_path.as_str()) {
            Ok(data) => Some(data),
            Err(_) => {
                return Response::error(404, Code::ManifestUnknown, "unable to find manifest for image");
            },
        }
    };
    let length = match &data {
        Some(d) => Some(string_of(format_u64(d.len() as u64).as_slice())),
        None => None,
    };
    let mut response = Response::new(
        200,
        match data {
            Some(d) => Body::Bytes(d),
            None => Body::Empty,
        },
    );
    response.push_header("Docker-Content-Digest", row.digest.as_str());
    match &row.media_type {
        Some(t) => response.push_header("Content-Type", t.as_str()),
        None => response.push_header("Content-Type", MANIFEST_CONTENT_TYPE),
    }
    match length {
        Some(l) => {
            response.push_header("Content-Length", l.as_str());
            assert(response@.headers =~= seq![
                ("Docker-Content-Digest"@, row@.digest),
                ("Content-Type"@, served_type(row@.media_type)),
            ].push(("Content-Length"@, l@)));
        },
        None => {
            assert(response@.headers =~= seq![
                ("Docker-Content-Digest"@, row@.digest),
                ("Content-Type"@, served_type(row@.media_type)),
            ]);
        },
    }
    response
}

/// Deletes the manifest that `reference` names in the repository named `name`, with its
/// layer rows and the tags that point at it; each of its layers loses one reference, a blob
/// whose count reaches 0 is removed, and the files that no blob row names any more go.
/// The answer is 204, or 404 `ManifestUnknown` when there is no such manifest; then
/// nothing changes.
pub fn delete_manifest(name: &str, reference: &str, storage: &mut LocalStorageDriver, conn: &mut DbConn) -> (out: Response)
    requires
        old(storage).wf(),
    ensures
        final(storage).wf(),
        final(storage).root() == old(storage).root(),
        ({
            let found = old(conn)@.repo_id(name@).is_some() && old(conn)@.resolve(
                old(conn)@.repo_id(name@).unwrap(),
                reference@,
            ).is_some();
            &&& out@ == (if found {
                ResponseModel { status: 204, headers: Seq::empty(), body: BodyModel::Empty }
            } else {
                error_reply(404, Code::ManifestUnknown, "unable to delete manifest for image"@)
            })
            &&& !found ==> final(conn)@ == old(conn)@ && final(storage).files() == old(storage).files()
            &&& found ==> ({
                let at = old(conn)@.resolve(old(conn)@.repo_id(name@).unwrap(), reference@).unwrap();
                &&& final(conn)@ == old(conn)@.delete_manifest(at)
                &&& final(storage).files() == swept(
                    old(storage).files(),
                    final(conn)@,
                    old(conn)@.blob_paths().push(old(conn)@.manifests[at].file_path),
                )
            })
        }),
        backed(old(conn)@, old(storage).files()) ==> backed(final(conn)@, final(storage).files()),
        old(conn)@.wf() ==> final(conn)@.wf(),
{
    match storage.delete_manifest(conn, name, reference) {
        Ok(_) => Response::new(204, Body::Empty),
        Err(_) => Response::error(404, Code::ManifestUnknown, "unable to delete manifest for image"),
    }
}

} // verus!

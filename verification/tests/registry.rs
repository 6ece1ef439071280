use floundr::blobs::{
    check_blob, delete_blob, finish_upload_session, get_blob, handle_upload_blob,
    handle_upload_session_chunk, put_upload_blob, put_upload_session_blob, upload_chunk,
    QueryParams,
};
use floundr::codes::Code;
use floundr::content_discovery::{
    create_repository, delete_repository, get_tags_list, list_repositories, TagsQueryParams,
};
use floundr::database::DbConn;
use floundr::digest::calculate_digest;
use floundr::error::{IoFault, MetadataFault, Missing, StorageError};
use floundr::manifests::{delete_manifest, get_manifest, push_manifest};
use floundr::response::{Body, Response};
use floundr::shared::{Descriptor, ImageManifest};
use floundr::storage::LocalStorageDriver;
use floundr::storage_driver::{Backend, DriverType};

const EMPTY_DIGEST: &str = "sha256:e3b0c44298fc1c149afbf4c8996fb92427ae41e4649b934ca495991b7852b855";

const HELLOWORLD_DIGEST: &str =
    "sha256:936a185caaa266bb9cbe981e9e05cb78cd732b0b3280eb944412bb6f8f8f07af";

fn fresh() -> (DbConn, LocalStorageDriver) {
    (DbConn::new(), LocalStorageDriver::new("/srv/registry"))
}

fn query(digest: Option<&str>, mount: Option<&str>, from: Option<&str>) -> QueryParams {
    QueryParams {
        digest: digest.map(|s| s.to_string()),
        mount: mount.map(|s| s.to_string()),
        from: from.map(|s| s.to_string()),
    }
}

fn header(r: &Response, name: &str) -> Option<String> {
    r.header_value(name)
}

fn error_code(r: &Response) -> Option<Code> {
    match &r.body {
        Body::Error(e) => Some(e.code),
        _ => None,
    }
}

fn bytes(r: &Response) -> Option<Vec<u8>> {
    match &r.body {
        Body::Bytes(b) => Some(b.clone()),
        _ => None,
    }
}

fn push_blob(conn: &mut DbConn, storage: &mut LocalStorageDriver, repo: &str, data: &[u8]) -> String {
    let digest = calculate_digest(data);
    let r = handle_upload_blob(repo, &query(Some(&digest), None, None), storage, conn, data.to_vec());
    assert_eq!(r.status, 201);
    digest
}

fn manifest_of(layers: &[&str]) -> ImageManifest {
    ImageManifest {
        schema_version: 2,
        media_type: Some("application/vnd.docker.distribution.manifest.v2+json".to_string()),
        config: Some(Descriptor {
            media_type: Some("application/vnd.oci.image.config.v1+json".to_string()),
            size: 7,
            digest: "sha256:cfg".to_string(),
        }),
        layers: layers
            .iter()
            .map(|d| Descriptor {
                media_type: Some("application/vnd.oci.image.layer.v1.tar".to_string()),
                size: 3,
                digest: d.to_string(),
            })
            .collect(),
        annotations: None,
    }
}

fn ref_count(conn: &DbConn, digest: &str) -> Option<u64> {
    conn.blobs.iter().find(|b| b.digest == digest && b.upload_session_id.is_none()).map(|b| b.ref_count)
}

fn every_blob_is_backed(conn: &DbConn, storage: &LocalStorageDriver) -> bool {
    conn.blobs.iter().all(|b| match storage.read_file(&b.file_path) {
        Ok(data) => calculate_digest(&data) == b.digest,
        Err(_) => false,
    })
}

#[test]
fn monolithic_push_of_the_empty_blob() {
    let (mut conn, mut storage) = fresh();
    let r = handle_upload_blob(
        "library/alpine",
        &query(Some(EMPTY_DIGEST), None, None),
        &mut storage,
        &mut conn,
        Vec::new(),
    );
    assert_eq!(r.status, 201);
    assert_eq!(
        header(&r, "Location"),
        Some(format!("/v2/library/alpine/blobs/{}", EMPTY_DIGEST))
    );
    let got = get_blob("library/alpine", EMPTY_DIGEST, &conn, &storage);
    assert_eq!(got.status, 200);
    assert_eq!(bytes(&got), Some(Vec::new()));
    assert_eq!(header(&got, "Docker-Content-Digest"), Some(EMPTY_DIGEST.to_string()));
    assert_eq!(check_blob("library/alpine", EMPTY_DIGEST, &conn).status, 200);
    assert!(storage.file_exists(&format!("/srv/registry/library/alpine/blobs/{}", EMPTY_DIGEST)));
    assert!(every_blob_is_backed(&conn, &storage));
}

#[test]
fn monolithic_push_with_a_wrong_digest_stores_nothing() {
    let (mut conn, mut storage) = fresh();
    let r = handle_upload_blob(
        "library/alpine",
        &query(Some(EMPTY_DIGEST), None, None),
        &mut storage,
        &mut conn,
        b"not empty".to_vec(),
    );
    assert_eq!(r.status, 400);
    assert_eq!(error_code(&r), Some(Code::DigestInvalid));
    assert_eq!(conn.blobs.len(), 0);
    assert_eq!(conn.repositories.len(), 0);
    assert_eq!(get_blob("library/alpine", EMPTY_DIGEST, &conn, &storage).status, 404);
    assert_eq!(check_blob("library/alpine", EMPTY_DIGEST, &conn).status, 404);
}

#[test]
fn chunked_push_of_hello_world() {
    let (mut conn, mut storage) = fresh();
    let start = handle_upload_blob("library/alpine", &query(None, None, None), &mut storage, &mut conn, Vec::new());
    assert_eq!(start.status, 202);
    let location = header(&start, "Location").unwrap();
    let uuid = header(&start, "Docker-Upload-UUID").unwrap();
    assert_eq!(location, format!("/v2/library/alpine/blobs/uploads/{}", uuid));
    assert_eq!(uuid.len(), 36);

    let first = handle_upload_session_chunk(
        "library/alpine",
        &uuid,
        &mut conn,
        &mut storage,
        Some("5"),
        Some("0-4"),
        b"hello".to_vec(),
    );
    assert_eq!(first.status, 202);
    assert_eq!(header(&first, "Range"), Some("0-4".to_string()));
    assert_eq!(header(&first, "Location"), Some(location.clone()));
    assert_eq!(header(&first, "Docker-Upload-UUID"), Some(uuid.clone()));
    assert_eq!(conn.upload_current_chunk(&uuid), Some(5));

    let replay = handle_upload_session_chunk(
        "library/alpine",
        &uuid,
        &mut conn,
        &mut storage,
        Some("5"),
        Some("0-4"),
        b"hello".to_vec(),
    );
    assert_eq!(replay.status, 416);
    assert_eq!(error_code(&replay), Some(Code::BlobUploadInvalid));
    assert_eq!(conn.upload_current_chunk(&uuid), Some(5));
    assert_eq!(conn.blobs.len(), 1);

    let second = handle_upload_session_chunk(
        "library/alpine",
        &uuid,
        &mut conn,
        &mut storage,
        Some("5"),
        Some("5-9"),
        b"world".to_vec(),
    );
    assert_eq!(second.status, 202);
    assert_eq!(header(&second, "Range"), Some("0-9".to_string()));
    assert_eq!(conn.upload_current_chunk(&uuid), Some(10));
    assert!(every_blob_is_backed(&conn, &storage));

    let done = put_upload_session_blob(
        "library/alpine",
        &uuid,
        &query(Some(HELLOWORLD_DIGEST), None, None),
        &mut storage,
        &mut conn,
        None,
        None,
        Vec::new(),
    );
    assert_eq!(done.status, 201);
    assert_eq!(
        header(&done, "Location"),
        Some(format!("/v2/library/alpine/blobs/{}", HELLOWORLD_DIGEST))
    );
    assert_eq!(header(&done, "Docker-Content-Digest"), Some(HELLOWORLD_DIGEST.to_string()));
    let got = get_blob("library/alpine", HELLOWORLD_DIGEST, &conn, &storage);
    assert_eq!(bytes(&got), Some(b"helloworld".to_vec()));
    assert_eq!(conn.blobs.len(), 1);
    assert_eq!(conn.upload_current_chunk(&uuid), None);
    assert!(every_blob_is_backed(&conn, &storage));
}

#[test]
fn closing_a_session_with_a_wrong_digest_publishes_nothing() {
    let (mut conn, mut storage) = fresh();
    let uuid = storage.new_session(&mut conn, "alpha").ok().unwrap();
    storage.upload_chunk(&mut conn, "alpha", &uuid, 5, Some((0, 4)), b"hello".to_vec()).ok().unwrap();
    let bad = put_upload_session_blob(
        "alpha",
        &uuid,
        &query(Some(EMPTY_DIGEST), None, None),
        &mut storage,
        &mut conn,
        None,
        None,
        Vec::new(),
    );
    assert_eq!(bad.status, 400);
    assert_eq!(error_code(&bad), Some(Code::DigestInvalid));
    assert_eq!(check_blob("alpha", EMPTY_DIGEST, &conn).status, 404);
    assert_eq!(check_blob("alpha", &calculate_digest(b"hello"), &conn).status, 404);
    assert_eq!(conn.upload_current_chunk(&uuid), Some(5));
    assert_eq!(conn.blobs.len(), 1);
    assert_eq!(
        storage.finish_session(&mut conn, "alpha", &uuid, Some(EMPTY_DIGEST)).err(),
        Some(StorageError::DigestError)
    );
    let good = put_upload_session_blob(
        "alpha",
        &uuid,
        &query(Some(&calculate_digest(b"hello")), None, None),
        &mut storage,
        &mut conn,
        None,
        None,
        Vec::new(),
    );
    assert_eq!(good.status, 201);
}

#[test]
fn closing_without_a_digest_is_refused() {
    let (mut conn, mut storage) = fresh();
    let uuid = storage.new_session(&mut conn, "alpha").ok().unwrap();
    let r = put_upload_session_blob(
        "alpha",
        &uuid,
        &query(None, None, None),
        &mut storage,
        &mut conn,
        None,
        None,
        Vec::new(),
    );
    assert_eq!(r.status, 400);
    assert_eq!(error_code(&r), Some(Code::DigestInvalid));
    assert_eq!(conn.upload_current_chunk(&uuid), Some(0));
}

#[test]
fn a_put_with_a_body_takes_the_last_chunk_first() {
    let (mut conn, mut storage) = fresh();
    let uuid = storage.new_session(&mut conn, "alpha").ok().unwrap();
    storage.upload_chunk(&mut conn, "alpha", &uuid, 5, Some((0, 4)), b"hello".to_vec()).ok().unwrap();
    let done = put_upload_session_blob(
        "alpha",
        &uuid,
        &query(Some(HELLOWORLD_DIGEST), None, None),
        &mut storage,
        &mut conn,
        Some("5"),
        Some("5-9"),
        b"world".to_vec(),
    );
    assert_eq!(done.status, 201);
    assert_eq!(bytes(&get_blob("alpha", HELLOWORLD_DIGEST, &conn, &storage)), Some(b"helloworld".to_vec()));
}

#[test]
fn put_upload_blob_closes_against_the_digest_header() {
    let (mut conn, mut storage) = fresh();
    let uuid = storage.new_session(&mut conn, "alpha").ok().unwrap();
    let wrong = put_upload_blob("alpha", &uuid, &mut storage, &mut conn, None, Some("5"), b"hello".to_vec());
    assert_eq!(wrong.status, 400);
    let uuid2 = storage.new_session(&mut conn, "alpha").ok().unwrap();
    let digest = calculate_digest(b"hello");
    let right = put_upload_blob(
        "alpha",
        &uuid2,
        &mut storage,
        &mut conn,
        Some(&digest),
        Some("5"),
        b"hello".to_vec(),
    );
    assert_eq!(right.status, 201);
    assert_eq!(header(&right, "Docker-Content-Digest"), Some(digest));
}

#[test]
fn a_chunk_without_a_range_counts_its_length() {
    let (mut conn, mut storage) = fresh();
    let uuid = storage.new_session(&mut conn, "alpha").ok().unwrap();
    let r = handle_upload_session_chunk("alpha", &uuid, &mut conn, &mut storage, Some("3"), None, b"abc".to_vec());
    assert_eq!(r.status, 202);
    assert_eq!(header(&r, "Range"), Some("0-2".to_string()));
    assert_eq!(conn.upload_current_chunk(&uuid), Some(3));
    let again = handle_upload_session_chunk("alpha", &uuid, &mut conn, &mut storage, Some("3"), None, b"def".to_vec());
    assert_eq!(again.status, 416);
    let next = handle_upload_session_chunk(
        "alpha",
        &uuid,
        &mut conn,
        &mut storage,
        Some("3"),
        Some("3-5"),
        b"def".to_vec(),
    );
    assert_eq!(next.status, 202);
    let done = finish_upload_session("alpha", &uuid, &mut conn, &mut storage);
    assert_eq!(done.status, 201);
    assert_eq!(header(&done, "Docker-Content-Digest"), Some(calculate_digest(b"abcdef")));
}

#[test]
fn chunks_are_refused_without_their_session() {
    let (mut conn, mut storage) = fresh();
    assert_eq!(
        upload_chunk("alpha", "no-such-session", &mut storage, &mut conn, 1, None, b"x".to_vec()).err(),
        Some(StorageError::OutOfOrder)
    );
    let uuid = storage.new_session(&mut conn, "alpha").ok().unwrap();
    storage.create_repository(&mut conn, "beta", false).ok().unwrap();
    assert_eq!(
        upload_chunk("beta", &uuid, &mut storage, &mut conn, 1, None, b"x".to_vec()).err(),
        Some(StorageError::OutOfOrder)
    );
    assert_eq!(
        upload_chunk("alpha", &uuid, &mut storage, &mut conn, 1, Some((0, i64::MAX)), b"x".to_vec()).err(),
        Some(StorageError::MetadataError(MetadataFault::OutOfRange))
    );
    storage.finish_session(&mut conn, "alpha", &uuid, None).ok().unwrap();
    assert_eq!(
        upload_chunk("alpha", &uuid, &mut storage, &mut conn, 1, None, b"x".to_vec()).err(),
        Some(StorageError::OutOfOrder)
    );
    assert_eq!(
        storage.finish_session(&mut conn, "alpha", &uuid, None).err(),
        Some(StorageError::NotFound(Missing::Upload))
    );
    assert_eq!(
        storage.finish_session(&mut conn, "gamma", &uuid, None).err(),
        Some(StorageError::NotFound(Missing::Repository))
    );
}

#[test]
fn empty_chunks_add_nothing() {
    let (mut conn, mut storage) = fresh();
    let uuid = storage.new_session(&mut conn, "alpha").ok().unwrap();
    assert!(upload_chunk("alpha", &uuid, &mut storage, &mut conn, 0, None, Vec::new()).is_ok());
    assert_eq!(conn.upload_current_chunk(&uuid), Some(0));
    assert!(upload_chunk("alpha", &uuid, &mut storage, &mut conn, 5, Some((0, 4)), b"hello".to_vec()).is_ok());
    assert!(upload_chunk("alpha", &uuid, &mut storage, &mut conn, 0, Some((5, 4)), Vec::new()).is_ok());
    assert_eq!(conn.upload_current_chunk(&uuid), Some(5));
    assert!(upload_chunk("alpha", &uuid, &mut storage, &mut conn, 5, Some((5, 9)), b"world".to_vec()).is_ok());
    assert!(upload_chunk("alpha", &uuid, &mut storage, &mut conn, 0, Some((10, 9)), Vec::new()).is_ok());
    assert_eq!(conn.upload_current_chunk(&uuid), Some(10));
    let digest = storage.finish_session(&mut conn, "alpha", &uuid, None).ok().unwrap();
    assert_eq!(digest, calculate_digest(b"helloworld"));
    assert_eq!(storage.read_blob(&conn, "alpha", &digest).ok(), Some(b"helloworld".to_vec()));
    assert!(every_blob_is_backed(&conn, &storage));
    let none = storage.new_session(&mut conn, "alpha").ok().unwrap();
    let empty = storage.finish_session(&mut conn, "alpha", &none, None).ok().unwrap();
    assert_eq!(empty, calculate_digest(b""));
}

#[test]
fn chunks_are_joined_in_the_order_of_their_offsets() {
    let (mut conn, mut storage) = fresh();
    let uuid = storage.new_session(&mut conn, "alpha").ok().unwrap();
    storage.write_blob("alpha", &uuid, 7, &mut conn, b"C".to_vec()).ok().unwrap();
    storage.write_blob("alpha", &uuid, 0, &mut conn, b"A".to_vec()).ok().unwrap();
    storage.write_blob("alpha", &uuid, 3, &mut conn, b"B".to_vec()).ok().unwrap();
    storage.write_blob("alpha", &uuid, 3, &mut conn, b"b".to_vec()).ok().unwrap();
    assert_eq!(conn.blobs.len(), 3);
    let digest = storage.combine_chunks(&mut conn, "alpha", &uuid).ok().unwrap();
    assert_eq!(digest, calculate_digest(b"AbC"));
    assert_eq!(storage.read_blob(&conn, "alpha", &digest).ok(), Some(b"AbC".to_vec()));
}

#[test]
fn a_chunk_is_stored_only_under_an_open_session() {
    let (mut conn, mut storage) = fresh();
    assert_eq!(
        storage.write_blob("alpha", "s", 0, &mut conn, b"A".to_vec()).err(),
        Some(StorageError::NotFound(Missing::Repository))
    );
    let uuid = storage.new_session(&mut conn, "alpha").ok().unwrap();
    assert_eq!(
        storage.write_blob("alpha", "other", 0, &mut conn, b"A".to_vec()).err(),
        Some(StorageError::NotFound(Missing::Upload))
    );
    storage.create_repository(&mut conn, "beta", false).ok().unwrap();
    assert_eq!(
        storage.write_blob("beta", &uuid, 0, &mut conn, b"A".to_vec()).err(),
        Some(StorageError::NotFound(Missing::Upload))
    );
    assert_eq!(conn.blobs.len(), 0);
    assert_eq!(storage.paths().len(), 0);
    assert_eq!(
        storage.write_blob("alpha", &uuid, 0, &mut conn, b"A".to_vec()).ok(),
        Some(calculate_digest(b"A"))
    );
    storage.finish_session(&mut conn, "alpha", &uuid, None).ok().unwrap();
    assert_eq!(
        storage.write_blob("alpha", &uuid, 1, &mut conn, b"B".to_vec()).err(),
        Some(StorageError::NotFound(Missing::Upload))
    );
    assert!(every_blob_is_backed(&conn, &storage));
}

#[test]
fn sessions_get_different_identifiers() {
    let (mut conn, storage) = fresh();
    let a = storage.new_session(&mut conn, "alpha").ok().unwrap();
    let b = storage.new_session(&mut conn, "alpha").ok().unwrap();
    assert_ne!(a, b);
    assert_eq!(a.len(), 36);
    assert!(a.chars().all(|c| c == '-' || c.is_ascii_hexdigit() && !c.is_ascii_uppercase()));
    assert_eq!(a.matches('-').count(), 4);
    assert_eq!(conn.repositories.len(), 1);
    assert_eq!(conn.uploads.len(), 2);
    assert_eq!(
        storage.new_session_with_id(&mut conn, "alpha", &a).err(),
        Some(StorageError::MetadataError(MetadataFault::Duplicate))
    );
    assert_eq!(
        storage.new_session_with_id(&mut conn, "../alpha", "s").err(),
        Some(StorageError::IoError(IoFault::InvalidInput))
    );
    assert_eq!(
        storage.new_session(&mut conn, "/alpha").err(),
        Some(StorageError::IoError(IoFault::InvalidInput))
    );
}

#[test]
fn tag_and_digest_resolve_to_the_same_manifest() {
    let (mut conn, mut storage) = fresh();
    let layer = push_blob(&mut conn, &mut storage, "library/alpine", b"helloworld");
    assert_eq!(layer, HELLOWORLD_DIGEST);
    let body = br#"{"schemaVersion":2,"layers":[]}"#.to_vec();
    let pushed = push_manifest(
        "library/alpine",
        "v1",
        &mut storage,
        &mut conn,
        body.clone(),
        &Some(manifest_of(&[HELLOWORLD_DIGEST])),
    );
    assert_eq!(pushed.status, 201);
    let digest = calculate_digest(&body);
    assert_eq!(header(&pushed, "Location"), Some("/v2/library/alpine/manifests/v1".to_string()));
    assert_eq!(header(&pushed, "Docker-Content-Digest"), Some(digest.clone()));
    assert_eq!(ref_count(&conn, HELLOWORLD_DIGEST), Some(1));
    assert_eq!(conn.manifest_layers.len(), 1);
    assert_eq!(conn.manifest_layers[0].digest, HELLOWORLD_DIGEST);

    let by_tag = get_manifest("library/alpine", "v1", &storage, &conn, "GET");
    let by_digest = get_manifest("library/alpine", &digest, &storage, &conn, "GET");
    assert_eq!(by_tag.status, 200);
    assert_eq!(by_digest.status, 200);
    assert_eq!(bytes(&by_tag), Some(body.clone()));
    assert_eq!(bytes(&by_digest), Some(body.clone()));
    assert_eq!(header(&by_tag, "Docker-Content-Digest"), Some(digest.clone()));
    assert_eq!(header(&by_digest, "Docker-Content-Digest"), Some(digest.clone()));
    assert_eq!(
        header(&by_tag, "Content-Type"),
        Some("application/vnd.docker.distribution.manifest.v2+json".to_string())
    );
    assert_eq!(header(&by_tag, "Content-Length"), Some(body.len().to_string()));
    let head = get_manifest("library/alpine", "v1", &storage, &conn, "HEAD");
    assert_eq!(head.status, 200);
    assert!(matches!(head.body, Body::Empty));
    assert_eq!(get_manifest("library/alpine", "v2", &storage, &conn, "GET").status, 404);
    assert_eq!(get_manifest("library/other", "v1", &storage, &conn, "GET").status, 404);
}

#[test]
fn pushing_a_tag_again_moves_it() {
    let (mut conn, mut storage) = fresh();
    push_blob(&mut conn, &mut storage, "alpha", b"one");
    let first = b"first".to_vec();
    let second = b"second".to_vec();
    assert_eq!(push_manifest("alpha", "latest", &mut storage, &mut conn, first, &Some(manifest_of(&[]))).status, 201);
    assert_eq!(
        push_manifest("alpha", "latest", &mut storage, &mut conn, second.clone(), &Some(manifest_of(&[]))).status,
        201
    );
    assert_eq!(conn.tags.len(), 1);
    assert_eq!(conn.manifests.len(), 2);
    let got = get_manifest("alpha", "latest", &storage, &conn, "GET");
    assert_eq!(bytes(&got), Some(second.clone()));
    assert_eq!(header(&got, "Docker-Content-Digest"), Some(calculate_digest(&second)));
}

#[test]
fn a_manifest_with_an_unknown_layer_changes_nothing() {
    let (mut conn, mut storage) = fresh();
    let known = push_blob(&mut conn, &mut storage, "alpha", b"one");
    let unknown = calculate_digest(b"two");
    let r = push_manifest(
        "alpha",
        "v1",
        &mut storage,
        &mut conn,
        b"{}".to_vec(),
        &Some(manifest_of(&[&known, &unknown])),
    );
    assert_eq!(r.status, 400);
    assert_eq!(error_code(&r), Some(Code::ManifestBlobUnknown));
    assert_eq!(conn.manifests.len(), 0);
    assert_eq!(conn.manifest_layers.len(), 0);
    assert_eq!(conn.tags.len(), 0);
    assert_eq!(ref_count(&conn, &known), Some(0));
    assert!(!storage.file_exists("/srv/registry/alpha/manifests/v1"));
    assert_eq!(get_manifest("alpha", "v1", &storage, &conn, "GET").status, 404);
}

#[test]
fn a_manifest_that_cannot_be_read_is_invalid() {
    let (mut conn, mut storage) = fresh();
    push_blob(&mut conn, &mut storage, "alpha", b"one");
    let r = push_manifest("alpha", "v1", &mut storage, &mut conn, b"not json".to_vec(), &None);
    assert_eq!(r.status, 400);
    assert_eq!(error_code(&r), Some(Code::ManifestInvalid));
    assert_eq!(
        storage.write_manifest(&mut conn, "alpha", "v1", b"x".to_vec(), &None).err(),
        Some(StorageError::InvalidInput)
    );
    assert_eq!(
        storage.write_manifest(&mut conn, "alpha", "a/b", b"x".to_vec(), &Some(manifest_of(&[]))).err(),
        Some(StorageError::IoError(IoFault::InvalidInput))
    );
    let unknown = push_manifest("nowhere", "v1", &mut storage, &mut conn, b"x".to_vec(), &Some(manifest_of(&[])));
    assert_eq!(unknown.status, 404);
    assert_eq!(error_code(&unknown), Some(Code::NameUnknown));
    assert_eq!(conn.manifests.len(), 0);
}

#[test]
fn reference_counts_and_garbage_collection() {
    let (mut conn, mut storage) = fresh();
    let l1 = push_blob(&mut conn, &mut storage, "alpha", b"layer one");
    let l2 = push_blob(&mut conn, &mut storage, "alpha", b"layer two");
    let l3 = push_blob(&mut conn, &mut storage, "alpha", b"layer three");
    assert_eq!(
        push_manifest("alpha", "m1", &mut storage, &mut conn, b"M1".to_vec(), &Some(manifest_of(&[&l1, &l2]))).status,
        201
    );
    assert_eq!(
        push_manifest("alpha", "m2", &mut storage, &mut conn, b"M2".to_vec(), &Some(manifest_of(&[&l2, &l3]))).status,
        201
    );
    assert_eq!(ref_count(&conn, &l1), Some(1));
    assert_eq!(ref_count(&conn, &l2), Some(2));
    assert_eq!(ref_count(&conn, &l3), Some(1));
    assert_eq!(conn.manifest_layers.len(), 4);

    let deleted = delete_manifest("alpha", "m1", &mut storage, &mut conn);
    assert_eq!(deleted.status, 204);
    assert_eq!(ref_count(&conn, &l1), None);
    assert_eq!(ref_count(&conn, &l2), Some(1));
    assert_eq!(ref_count(&conn, &l3), Some(1));
    assert_eq!(conn.manifests.len(), 1);
    assert_eq!(conn.manifest_layers.len(), 2);
    assert_eq!(conn.tags.len(), 1);
    assert!(!storage.file_exists(&format!("/srv/registry/alpha/blobs/{}", l1)));
    assert!(!storage.file_exists("/srv/registry/alpha/manifests/m1"));
    assert!(storage.file_exists(&format!("/srv/registry/alpha/blobs/{}", l2)));
    assert_eq!(get_manifest("alpha", "m1", &storage, &conn, "GET").status, 404);
    assert_eq!(delete_manifest("alpha", "m1", &mut storage, &mut conn).status, 404);

    storage.run_garbage_collection(&mut conn).ok().unwrap();
    assert_eq!(ref_count(&conn, &l1), None);
    assert!(!storage.file_exists(&format!("/srv/registry/alpha/blobs/{}", l1)));
    assert_eq!(get_blob("alpha", &l1, &conn, &storage).status, 404);
    assert_eq!(ref_count(&conn, &l2), Some(1));
    assert_eq!(ref_count(&conn, &l3), Some(1));
    assert_eq!(get_blob("alpha", &l2, &conn, &storage).status, 200);
    assert_eq!(get_blob("alpha", &l3, &conn, &storage).status, 200);

    let loose = push_blob(&mut conn, &mut storage, "alpha", b"loose");
    assert_eq!(ref_count(&conn, &loose), Some(0));
    storage.run_garbage_collection(&mut conn).ok().unwrap();
    assert_eq!(ref_count(&conn, &loose), None);
    assert!(!storage.file_exists(&format!("/srv/registry/alpha/blobs/{}", loose)));
    assert_eq!(ref_count(&conn, &l2), Some(1));
    assert_eq!(conn.blobs.len(), 2);
    assert!(every_blob_is_backed(&conn, &storage));
}

#[test]
fn garbage_collection_keeps_open_sessions_and_removes_closed_ones() {
    let (mut conn, mut storage) = fresh();
    let open = storage.new_session(&mut conn, "alpha").ok().unwrap();
    storage.upload_chunk(&mut conn, "alpha", &open, 2, Some((0, 1)), b"ab".to_vec()).ok().unwrap();
    let closed = storage.new_session(&mut conn, "alpha").ok().unwrap();
    storage.finish_session(&mut conn, "alpha", &closed, Some(EMPTY_DIGEST)).ok().unwrap();
    assert_eq!(conn.uploads.len(), 2);
    storage.run_garbage_collection(&mut conn).ok().unwrap();
    assert_eq!(conn.uploads.len(), 1);
    assert_eq!(conn.upload_current_chunk(&open), Some(2));
    assert_eq!(conn.blobs.len(), 1);
    assert_eq!(check_blob("alpha", EMPTY_DIGEST, &conn).status, 404);
    let digest = storage.finish_session(&mut conn, "alpha", &open, None).ok().unwrap();
    assert_eq!(digest, calculate_digest(b"ab"));
}

#[test]
fn deleting_after_pushing_restores_the_counts() {
    let (mut conn, mut storage) = fresh();
    let l1 = push_blob(&mut conn, &mut storage, "alpha", b"one");
    let l2 = push_blob(&mut conn, &mut storage, "alpha", b"two");
    push_manifest("alpha", "base", &mut storage, &mut conn, b"B".to_vec(), &Some(manifest_of(&[&l1])));
    assert_eq!(ref_count(&conn, &l1), Some(1));
    push_manifest("alpha", "top", &mut storage, &mut conn, b"T".to_vec(), &Some(manifest_of(&[&l1, &l1, &l2])));
    assert_eq!(ref_count(&conn, &l1), Some(3));
    assert_eq!(ref_count(&conn, &l2), Some(1));
    delete_manifest("alpha", "top", &mut storage, &mut conn);
    assert_eq!(ref_count(&conn, &l1), Some(1));
    assert_eq!(ref_count(&conn, &l2), None);
    assert_eq!(conn.manifests.len(), 1);
    assert_eq!(conn.manifest_layers.len(), 1);
}

#[test]
fn a_manifest_can_be_deleted_by_its_digest() {
    let (mut conn, mut storage) = fresh();
    let l1 = push_blob(&mut conn, &mut storage, "alpha", b"one");
    push_manifest("alpha", "v1", &mut storage, &mut conn, b"M".to_vec(), &Some(manifest_of(&[&l1])));
    let digest = calculate_digest(b"M");
    assert_eq!(delete_manifest("alpha", &digest, &mut storage, &mut conn).status, 204);
    assert_eq!(conn.manifests.len(), 0);
    assert_eq!(conn.tags.len(), 0);
    assert_eq!(conn.delete_manifest("alpha", "v1").err(), Some(StorageError::NotFound(Missing::Tag)));
    assert_eq!(
        conn.delete_manifest("alpha", &digest).err(),
        Some(StorageError::NotFound(Missing::Manifest))
    );
    assert_eq!(
        conn.delete_manifest("beta", "v1").err(),
        Some(StorageError::NotFound(Missing::Repository))
    );
}

#[test]
fn a_blob_is_mounted_without_moving_bytes() {
    let (mut conn, mut storage) = fresh();
    let d = push_blob(&mut conn, &mut storage, "team/src", b"shared layer");
    let files_before = storage.get_dir_size("/srv/registry");
    let r = handle_upload_blob(
        "team/dst",
        &query(None, Some(&d), Some("team/src")),
        &mut storage,
        &mut conn,
        Vec::new(),
    );
    assert_eq!(r.status, 201);
    assert_eq!(header(&r, "Location"), Some(format!("/v2/team/dst/blobs/{}", d)));
    assert_eq!(storage.get_dir_size("/srv/registry"), files_before);
    assert_eq!(conn.blobs.len(), 2);
    assert_eq!(conn.blobs[0].file_path, conn.blobs[1].file_path);
    assert_ne!(conn.blobs[0].repository_id, conn.blobs[1].repository_id);
    assert_eq!(bytes(&get_blob("team/dst", &d, &conn, &storage)), Some(b"shared layer".to_vec()));
    let again = storage.mount_blob(&mut conn, "team/dst", &d, None).ok().unwrap();
    assert_eq!(again, conn.blobs[0].file_path);
    assert_eq!(conn.blobs.len(), 2);
    let missing = handle_upload_blob(
        "team/dst",
        &query(None, Some(EMPTY_DIGEST), Some("team/src")),
        &mut storage,
        &mut conn,
        Vec::new(),
    );
    assert_eq!(missing.status, 404);
    assert_eq!(
        storage.mount_blob(&mut conn, "team/dst", &d, Some("team/none")).err(),
        Some(StorageError::NotFound(Missing::Blob))
    );
    assert!(every_blob_is_backed(&conn, &storage));
}

#[test]
fn a_shared_file_stays_while_a_row_names_it() {
    let (mut conn, mut storage) = fresh();
    let d = push_blob(&mut conn, &mut storage, "src", b"shared");
    storage.mount_blob(&mut conn, "dst", &d, Some("src")).ok().unwrap();
    let path = conn.blobs[0].file_path.clone();
    assert_eq!(delete_blob("src", &d, &mut conn, &mut storage).status, 202);
    assert!(storage.file_exists(&path));
    assert_eq!(bytes(&get_blob("dst", &d, &conn, &storage)), Some(b"shared".to_vec()));
    assert_eq!(delete_blob("dst", &d, &mut conn, &mut storage).status, 202);
    assert!(!storage.file_exists(&path));
    assert!(every_blob_is_backed(&conn, &storage));
}

#[test]
fn a_referenced_blob_is_not_deleted() {
    let (mut conn, mut storage) = fresh();
    let l1 = push_blob(&mut conn, &mut storage, "alpha", b"one");
    push_manifest("alpha", "v1", &mut storage, &mut conn, b"M".to_vec(), &Some(manifest_of(&[&l1])));
    let r = delete_blob("alpha", &l1, &mut conn, &mut storage);
    assert_eq!(r.status, 403);
    assert_eq!(error_code(&r), Some(Code::Denied));
    assert_eq!(ref_count(&conn, &l1), Some(1));
    assert_eq!(get_blob("alpha", &l1, &conn, &storage).status, 200);
    assert_eq!(
        storage.delete_blob(&mut conn, "alpha", &l1).err(),
        Some(StorageError::MetadataError(MetadataFault::InUse))
    );
    delete_manifest("alpha", "v1", &mut storage, &mut conn);
    let l2 = push_blob(&mut conn, &mut storage, "alpha", b"two");
    assert_eq!(delete_blob("alpha", &l2, &mut conn, &mut storage).status, 202);
    assert_eq!(delete_blob("alpha", &l2, &mut conn, &mut storage).status, 404);
    assert_eq!(
        storage.delete_blob(&mut conn, "nowhere", &l2).err(),
        Some(StorageError::NotFound(Missing::Repository))
    );
    assert_eq!(
        storage.read_blob(&conn, "alpha", &l2).err(),
        Some(StorageError::NotFound(Missing::Blob))
    );
}

#[test]
fn tags_are_listed_in_order_and_in_pages() {
    let (mut conn, mut storage) = fresh();
    push_blob(&mut conn, &mut storage, "alpha", b"one");
    for tag in ["beta", "Alpha", "delta", "alpha", "Charlie", "echo"] {
        let r = push_manifest("alpha", tag, &mut storage, &mut conn, tag.as_bytes().to_vec(), &Some(manifest_of(&[])));
        assert_eq!(r.status, 201);
    }
    let all = get_tags_list(&conn, "alpha", &TagsQueryParams { n: None, last: None });
    assert_eq!(all.status, 200);
    let listed = match &all.body {
        Body::Tags(t) => {
            assert_eq!(t.name, "alpha");
            t.tags.clone()
        }
        _ => panic!("no tags"),
    };
    assert_eq!(listed, vec!["Alpha", "alpha", "beta", "Charlie", "delta", "echo"]);
    assert_eq!(header(&all, "Link"), None);

    let page = get_tags_list(&conn, "alpha", &TagsQueryParams { n: Some(2), last: None });
    let first = match &page.body {
        Body::Tags(t) => t.tags.clone(),
        _ => panic!("no tags"),
    };
    assert_eq!(first, vec!["Alpha", "alpha"]);
    assert_eq!(
        header(&page, "Link"),
        Some("</v2/alpha/tags/list?n=2&last=alpha>; rel=\"next\"".to_string())
    );
    let rest = get_tags_list(&conn, "alpha", &TagsQueryParams { n: None, last: Some("alpha".to_string()) });
    let rest_tags = match &rest.body {
        Body::Tags(t) => t.tags.clone(),
        _ => panic!("no tags"),
    };
    assert_eq!(rest_tags, vec!["beta", "Charlie", "delta", "echo"]);
    let last_page = get_tags_list(&conn, "alpha", &TagsQueryParams { n: Some(10), last: Some("delta".to_string()) });
    assert_eq!(header(&last_page, "Link"), None);
    let none = get_tags_list(&conn, "alpha", &TagsQueryParams { n: Some(0), last: None });
    assert_eq!(header(&none, "Link"), None);
    let unknown = get_tags_list(&conn, "nowhere", &TagsQueryParams { n: None, last: None });
    assert_eq!(unknown.status, 404);
    assert_eq!(error_code(&unknown), Some(Code::NameUnknown));
}

#[test]
fn repositories_are_created_listed_and_deleted() {
    let (mut conn, mut storage) = fresh();
    assert_eq!(create_repository(&mut conn, &storage, "open", "TRUE").status, 201);
    assert_eq!(create_repository(&mut conn, &storage, "closed", "no").status, 201);
    assert_eq!(create_repository(&mut conn, &storage, "open", "true").status, 400);
    assert_eq!(create_repository(&mut conn, &storage, "../x", "true").status, 400);
    assert_eq!(
        storage.create_repository(&mut conn, "open", true).err(),
        Some(StorageError::MetadataError(MetadataFault::Duplicate))
    );
    assert_eq!(conn.repo_lookup("open"), Some((1, true)));
    assert_eq!(conn.repo_lookup("closed"), Some((2, false)));
    assert_eq!(conn.get_repositories(false), vec!["open", "closed"]);
    assert_eq!(conn.get_repositories(true), vec!["open"]);
    let l = push_blob(&mut conn, &mut storage, "closed", b"layer");
    push_manifest("closed", "v1", &mut storage, &mut conn, b"M".to_vec(), &Some(manifest_of(&[&l])));
    let listing = list_repositories(&conn, &storage, None, 0);
    match &listing.body {
        Body::Repositories(list) => {
            assert_eq!(list.repositories.len(), 2);
            let closed = &list.repositories[1];
            assert_eq!(closed.name, "closed");
            assert_eq!(closed.blob_count, 1);
            assert_eq!(closed.manifest_count, 1);
            assert_eq!(closed.tag_count, 1);
            assert_eq!(closed.num_layers, 1);
            assert_eq!(closed.tags, vec!["v1"]);
            assert_eq!(closed.file_path, "/srv/registry/closed");
            assert_eq!(closed.disk_usage, 6);
            assert_eq!(closed.driver, DriverType::Local);
        }
        _ => panic!("no list"),
    }
    assert_eq!(delete_repository("closed", &mut conn, &mut storage).status, 200);
    assert_eq!(conn.repositories.len(), 1);
    assert_eq!(conn.blobs.len(), 0);
    assert_eq!(conn.manifests.len(), 0);
    assert_eq!(conn.tags.len(), 0);
    assert_eq!(conn.manifest_layers.len(), 0);
    assert_eq!(storage.get_dir_size("/srv/registry"), 0);
    assert_eq!(delete_repository("closed", &mut conn, &mut storage).status, 200);
}

#[test]
fn files_are_written_read_and_removed() {
    let mut storage = LocalStorageDriver::new("/base");
    assert_eq!(storage.base_path(), "/base");
    let path = storage.stream_to_file("a/b", "c", b"xyz".to_vec()).ok().unwrap();
    assert_eq!(path, "/base/a/b/c");
    assert_eq!(storage.read_file(&path).ok(), Some(b"xyz".to_vec()));
    assert_eq!(storage.read_manifest(&path).ok(), Some(b"xyz".to_vec()));
    storage.write_file(&path, b"12345".to_vec());
    assert_eq!(storage.read_file(&path).ok(), Some(b"12345".to_vec()));
    storage.stream_to_file("a", "d", b"12".to_vec()).ok().unwrap();
    assert_eq!(storage.get_dir_size("/base/a"), 7);
    assert_eq!(storage.get_dir_size("/base/a/b"), 5);
    assert_eq!(storage.get_dir_size("/base/a/b/c"), 0);
    assert_eq!(storage.get_dir_size("/other"), 0);
    assert_eq!(storage.stream_to_file("a//b/.", "c", b"12345".to_vec()).ok(), Some(path.clone()));
    assert_eq!(storage.paths().len(), 2);
    assert_eq!(
        storage.stream_to_file("/a", "c", Vec::new()).err(),
        Some(StorageError::IoError(IoFault::InvalidInput))
    );
    assert_eq!(
        storage.stream_to_file("a/../b", "c", Vec::new()).err(),
        Some(StorageError::IoError(IoFault::InvalidInput))
    );
    assert_eq!(
        storage.stream_to_file("a", "b/c", Vec::new()).err(),
        Some(StorageError::IoError(IoFault::InvalidInput))
    );
    assert_eq!(storage.delete_file(&path), Ok(()));
    assert_eq!(storage.delete_file(&path), Err(StorageError::IoError(IoFault::NotFound)));
    assert_eq!(storage.read_file(&path).err(), Some(StorageError::IoError(IoFault::NotFound)));
    assert!(!storage.file_exists(&path));
}

#[test]
fn a_manifest_does_not_take_the_file_of_a_blob() {
    let (mut conn, mut storage) = fresh();
    storage.create_repository(&mut conn, "a", false).ok().unwrap();
    storage.create_repository(&mut conn, "a/blobs", false).ok().unwrap();
    storage.new_session_with_id(&mut conn, "a", "manifests").ok().unwrap();
    storage.upload_chunk(&mut conn, "a", "manifests", 1, Some((0, 0)), b"x".to_vec()).ok().unwrap();
    assert_eq!(
        storage.write_manifest(&mut conn, "a/blobs", "0", b"M".to_vec(), &Some(manifest_of(&[]))).err(),
        Some(StorageError::IoError(IoFault::InUse))
    );
    assert!(every_blob_is_backed(&conn, &storage));
}

#[test]
fn identifiers_that_run_out_are_refused() {
    let (mut conn, mut storage) = fresh();
    push_blob(&mut conn, &mut storage, "alpha", b"one");
    conn.next_id = u64::MAX;
    assert_eq!(
        conn.create_repository("beta", false).err(),
        Some(StorageError::MetadataError(MetadataFault::OutOfRange))
    );
    assert_eq!(
        storage.write_manifest(&mut conn, "alpha", "v1", b"M".to_vec(), &Some(manifest_of(&[]))).err(),
        Some(StorageError::MetadataError(MetadataFault::OutOfRange))
    );
    assert_eq!(conn.manifests.len(), 0);
    assert!(!storage.file_exists("/srv/registry/alpha/manifests/v1"));
}

#[test]
fn the_backend_is_local_storage() {
    let backend = Backend::new(DriverType::Local, "/data");
    assert_eq!(backend.kind(), DriverType::Local);
    assert_eq!(backend.base_path(), "/data");
    assert_eq!(backend.driver().base_path(), "/data");
    assert!(Backend::open(DriverType::S3, "/data").is_none());
    assert!(Backend::open(DriverType::Local, "/data").is_some());
    assert_eq!(DriverType::from_str("local", false), Ok(DriverType::Local));
    assert_eq!(DriverType::from_str("S3", true), Ok(DriverType::S3));
    assert_eq!(DriverType::from_str("S3", false), Err("invalid storage driver: S3".to_string()));
    assert_eq!(DriverType::from_str("ftp", true), Err("invalid storage driver: ftp".to_string()));
    assert_eq!(DriverType::value_variants(), vec![DriverType::Local, DriverType::S3]);
    assert_eq!(DriverType::S3.to_possible_value(), Some("s3"));
    assert_eq!(DriverType::Local.to_possible_value(), Some("local"));
}

#[test]
fn names_that_are_no_repository_names_are_refused() {
    let (mut conn, mut storage) = fresh();
    let session = handle_upload_blob("Alpine", &query(None, None, None), &mut storage, &mut conn, Vec::new());
    assert_eq!(session.status, 400);
    assert_eq!(error_code(&session), Some(Code::NameInvalid));
    let whole = handle_upload_blob(
        "Alpine",
        &query(Some(EMPTY_DIGEST), None, None),
        &mut storage,
        &mut conn,
        Vec::new(),
    );
    assert_eq!(whole.status, 400);
    assert_eq!(error_code(&whole), Some(Code::NameInvalid));
    let d = push_blob(&mut conn, &mut storage, "src", b"layer");
    let mount = handle_upload_blob("Dst", &query(None, Some(&d), Some("src")), &mut storage, &mut conn, Vec::new());
    assert_eq!(mount.status, 400);
    assert_eq!(error_code(&mount), Some(Code::NameInvalid));
    let made = create_repository(&mut conn, &storage, "a..b", "true");
    assert_eq!(made.status, 400);
    assert_eq!(error_code(&made), Some(Code::NameInvalid));
    let rooted = handle_upload_blob("/alpine", &query(None, None, None), &mut storage, &mut conn, Vec::new());
    assert_eq!(rooted.status, 400);
    assert_eq!(error_code(&rooted), Some(Code::NameInvalid));
    assert_eq!(storage.create_repository(&mut conn, "UPPER", false).err(), Some(StorageError::InvalidInput));
    assert_eq!(storage.new_session(&mut conn, "a_-b").err(), Some(StorageError::InvalidInput));
    assert_eq!(conn.ensure_repository("x y").err(), Some(StorageError::InvalidInput));
    assert_eq!(conn.repositories.len(), 1);
    assert_eq!(conn.ensure_repository("src").ok(), Some(1));
    assert_eq!(conn.ensure_repository("dst").ok(), Some(2));
    let unknown = handle_upload_blob("gone", &query(None, Some(EMPTY_DIGEST), None), &mut storage, &mut conn, Vec::new());
    assert_eq!(unknown.status, 404);
    assert_eq!(error_code(&unknown), Some(Code::BlobUnknown));
}

#[test]
fn single_references_are_added_and_taken() {
    let (mut conn, mut storage) = fresh();
    let d = push_blob(&mut conn, &mut storage, "alpha", b"layer");
    assert_eq!(conn.inc_refcount(1, &d), Ok(()));
    assert_eq!(conn.inc_refcount(1, &d), Ok(()));
    assert_eq!(ref_count(&conn, &d), Some(2));
    conn.blobs[0].ref_count = u64::MAX;
    assert_eq!(conn.inc_refcount(1, &d), Err(StorageError::MetadataError(MetadataFault::OutOfRange)));
    conn.blobs[0].ref_count = 2;
    conn.dec_refcount(1, &d);
    assert_eq!(ref_count(&conn, &d), Some(1));
    conn.dec_refcount(2, &d);
    assert_eq!(ref_count(&conn, &d), Some(1));
    conn.dec_refcount(1, &d);
    assert_eq!(ref_count(&conn, &d), None);
}

#[test]
fn a_manifest_is_pushed_under_a_tag_or_its_digest() {
    let (mut conn, mut storage) = fresh();
    push_blob(&mut conn, &mut storage, "alpha", b"one");
    let body = b"by digest".to_vec();
    let digest = calculate_digest(&body);
    let by_digest = push_manifest("alpha", &digest, &mut storage, &mut conn, body.clone(), &Some(manifest_of(&[])));
    assert_eq!(by_digest.status, 201);
    assert_eq!(bytes(&get_manifest("alpha", &digest, &storage, &conn, "GET")), Some(body));
    for bad in ["bad tag", ".hidden", "sha256:abc", ""] {
        let r = push_manifest("alpha", bad, &mut storage, &mut conn, b"x".to_vec(), &Some(manifest_of(&[])));
        assert_eq!(r.status, 400, "{}", bad);
        assert_eq!(error_code(&r), Some(Code::NameInvalid));
    }
    assert_eq!(conn.manifests.len(), 1);
}

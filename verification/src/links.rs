//! The references between the tables of the metadata store: every blob, session and
//! manifest belongs to a repository of the store, every layer row and tag points at a
//! manifest of its own repository, and every chunk belongs to an open session of its
//! repository. A store without rows has no broken reference, and the changes that the
//! registry makes break none.

use crate::database::{repo_named, DbModel};
use crate::index::{
    layer_not_of, layer_outside, manifest_outside, manifest_without_id, tag_named, tag_not_of,
    tag_outside,
};
use crate::rows::{ManifestModel, RepositoryModel, TagModel};
use crate::shared::ImageManifestModel;
use crate::table::{first_where, lemma_filter_members, lemma_first_where};
use crate::wellformed::{pairwise, same_name};
use vstd::prelude::*;

verus! {

/// Whether `repos` holds a repository with the identifier `id`.
pub open spec fn has_repo(repos: Seq<RepositoryModel>, id: u64) -> bool {
    exists|i: int| 0 <= i < repos.len() && (#[trigger] repos[i]).id == id
}

/// Whether `manifests` holds the manifest `id` of repository `repo`.
pub open spec fn has_manifest(manifests: Seq<ManifestModel>, id: u64, repo: u64) -> bool {
    exists|i: int|
        0 <= i < manifests.len() && (#[trigger] manifests[i]).id == id && manifests[i].repository_id
            == repo
}

impl DbModel {
    /// No reference is broken: blobs, sessions and manifests belong to repositories of the
    /// store, and layer rows and tags point at manifests of their own repository.
    pub open spec fn linked(self) -> bool {
        &&& forall|i: int|
            0 <= i < self.blobs.len() ==> has_repo(self.repositories, (#[trigger] self.blobs[i]).repository_id)
        &&& forall|i: int|
            0 <= i < self.uploads.len() ==> has_repo(
                self.repositories,
                (#[trigger] self.uploads[i]).repository_id,
            )
        &&& forall|i: int|
            0 <= i < self.manifests.len() ==> has_repo(
                self.repositories,
                (#[trigger] self.manifests[i]).repository_id,
            )
        &&& forall|i: int|
            0 <= i < self.manifest_layers.len() ==> has_manifest(
                self.manifests,
                (#[trigger] self.manifest_layers[i]).manifest_id,
                self.manifest_layers[i].repository_id,
            )
        &&& forall|i: int|
            0 <= i < self.tags.len() ==> has_manifest(
                self.manifests,
                (#[trigger] self.tags[i]).manifest_id,
                self.tags[i].repository_id,
            )
    }
}

/// A store without rows has no broken reference.
pub proof fn law_linked_empty()
    ensures
        DbModel::empty().linked(),
{
}

/// The repository that a name is looked up to is a repository of the store.
pub proof fn lemma_lookup_has_repo(db: DbModel, name: Seq<char>)
    requires
        db.repo_id(name).is_some(),
    ensures
        has_repo(db.repositories, db.repo_id(name).unwrap()),
{
    lemma_first_where(db.repositories, repo_named(name));
    let i = first_where(db.repositories, repo_named(name));
    assert(db.repositories[i].id == db.repo_id(name).unwrap());
}

/// One more repository keeps every repository that was there.
pub proof fn lemma_has_repo_push(repos: Seq<RepositoryModel>, row: RepositoryModel)
    ensures
        has_repo(repos.push(row), row.id),
        forall|id: u64| has_repo(repos, id) ==> #[trigger] has_repo(repos.push(row), id),
{
    let next = repos.push(row);
    assert(next[repos.len() as int].id == row.id);
    assert forall|id: u64| has_repo(repos, id) implies #[trigger] has_repo(next, id) by {
        let i = choose|i: int| 0 <= i < repos.len() && (#[trigger] repos[i]).id == id;
        assert(next[i].id == id);
    }
}

/// One more manifest keeps every manifest that was there.
pub proof fn lemma_has_manifest_push(manifests: Seq<ManifestModel>, row: ManifestModel)
    ensures
        has_manifest(manifests.push(row), row.id, row.repository_id),
        forall|id: u64, repo: u64|
            has_manifest(manifests, id, repo) ==> #[trigger] has_manifest(manifests.push(row), id, repo),
{
    let next = manifests.push(row);
    assert(next[manifests.len() as int] == row);
    assert forall|id: u64, repo: u64| has_manifest(manifests, id, repo) implies #[trigger] has_manifest(
        next,
        id,
        repo,
    ) by {
        let i = choose|i: int|
            0 <= i < manifests.len() && (#[trigger] manifests[i]).id == id && manifests[i].repository_id
                == repo;
        assert(next[i] == manifests[i]);
    }
}

/// A change that keeps the repositories and the manifests, and leaves of the other tables
/// only rows that were there, breaks no reference.
pub proof fn law_linked_rows_taken(db: DbModel, after: DbModel)
    requires
        db.linked(),
        after.repositories == db.repositories,
        after.manifests == db.manifests,
        forall|i: int| 0 <= i < after.blobs.len() ==> has_repo(db.repositories, (#[trigger] after.blobs[i]).repository_id),
        forall|i: int| 0 <= i < after.uploads.len() ==> has_repo(db.repositories, (#[trigger] after.uploads[i]).repository_id),
        forall|i: int| 0 <= i < after.manifest_layers.len() ==> db.manifest_layers.contains(#[trigger] after.manifest_layers[i]),
        forall|i: int| 0 <= i < after.tags.len() ==> db.tags.contains(#[trigger] after.tags[i]),
    ensures
        after.linked(),
{
    assert forall|i: int| 0 <= i < after.manifest_layers.len() implies has_manifest(
        after.manifests,
        (#[trigger] after.manifest_layers[i]).manifest_id,
        after.manifest_layers[i].repository_id,
    ) by {
        let k = choose|k: int| 0 <= k < db.manifest_layers.len() && db.manifest_layers[k] == after.manifest_layers[i];
        assert(db.manifest_layers[k] == after.manifest_layers[i]);
    }
    assert forall|i: int| 0 <= i < after.tags.len() implies has_manifest(
        after.manifests,
        (#[trigger] after.tags[i]).manifest_id,
        after.tags[i].repository_id,
    ) by {
        let k = choose|k: int| 0 <= k < db.tags.len() && db.tags[k] == after.tags[i];
        assert(db.tags[k] == after.tags[i]);
    }
}

/// One more repository breaks no reference.
pub proof fn law_linked_with_repository(db: DbModel, name: Seq<char>, is_public: bool)
    requires
        db.linked(),
    ensures
        db.with_repository(name, is_public).linked(),
{
    let after = db.with_repository(name, is_public);
    lemma_has_repo_push(db.repositories, RepositoryModel { id: db.next_id, name, is_public });
    assert forall|i: int| 0 <= i < after.blobs.len() implies has_repo(
        after.repositories,
        (#[trigger] after.blobs[i]).repository_id,
    ) by {
        assert(has_repo(db.repositories, db.blobs[i].repository_id));
    }
    assert forall|i: int| 0 <= i < after.uploads.len() implies has_repo(
        after.repositories,
        (#[trigger] after.uploads[i]).repository_id,
    ) by {
        assert(has_repo(db.repositories, db.uploads[i].repository_id));
    }
    assert forall|i: int| 0 <= i < after.manifests.len() implies has_repo(
        after.repositories,
        (#[trigger] after.manifests[i]).repository_id,
    ) by {
        assert(has_repo(db.repositories, db.manifests[i].repository_id));
    }
}

/// Making sure that a repository is there breaks no reference, and the repository is there.
pub proof fn law_linked_ensured_repo(db: DbModel, name: Seq<char>)
    requires
        db.linked(),
    ensures
        db.ensured_repo(name).linked(),
        has_repo(db.ensured_repo(name).repositories, db.ensured_repo_id(name)),
{
    if db.repo_id(name).is_some() {
        lemma_lookup_has_repo(db, name);
    } else {
        law_linked_with_repository(db, name, false);
        lemma_has_repo_push(db.repositories, RepositoryModel { id: db.next_id, name, is_public: false });
    }
}

/// A change to the blob rows that leaves only rows of repositories of the store breaks no
/// reference.
pub proof fn law_linked_blobs(db: DbModel, after: DbModel)
    requires
        db.linked(),
        after == (DbModel { blobs: after.blobs, ..db }),
        forall|i: int| 0 <= i < after.blobs.len() ==> has_repo(db.repositories, (#[trigger] after.blobs[i]).repository_id),
    ensures
        after.linked(),
{
}

/// Blob rows that are left of the blob rows of a store without broken references belong to
/// repositories of the store.
pub proof fn lemma_kept_blobs_linked(db: DbModel, keep: spec_fn(crate::rows::BlobModel) -> bool)
    requires
        db.linked(),
    ensures
        db.keep_blobs(keep).linked(),
{
    lemma_filter_members(db.blobs, keep);
    let after = db.keep_blobs(keep);
    assert forall|i: int| 0 <= i < after.blobs.len() implies has_repo(
        db.repositories,
        (#[trigger] after.blobs[i]).repository_id,
    ) by {
        assert(db.blobs.contains(after.blobs[i]));
        let k = choose|k: int| 0 <= k < db.blobs.len() && db.blobs[k] == after.blobs[i];
        assert(has_repo(db.repositories, db.blobs[k].repository_id));
    }
    law_linked_blobs(db, after);
}

/// One more blob row of a repository of the store breaks no reference.
pub proof fn lemma_with_blob_linked(db: DbModel, row: crate::rows::BlobModel)
    requires
        db.linked(),
        has_repo(db.repositories, row.repository_id),
    ensures
        db.with_blob(row).linked(),
{
    let after = db.with_blob(row);
    assert forall|i: int| 0 <= i < after.blobs.len() implies has_repo(
        db.repositories,
        (#[trigger] after.blobs[i]).repository_id,
    ) by {
        if i < db.blobs.len() {
            assert(after.blobs[i] == db.blobs[i]);
        }
    }
    law_linked_blobs(db, after);
}

/// Opening a session breaks no reference.
pub proof fn law_linked_with_session(db: DbModel, name: Seq<char>, uuid: Seq<char>)
    requires
        db.linked(),
    ensures
        db.with_session(name, uuid).linked(),
{
    law_linked_ensured_repo(db, name);
    let base = db.ensured_repo(name);
    let after = db.with_session(name, uuid);
    assert forall|i: int| 0 <= i < after.uploads.len() implies has_repo(
        after.repositories,
        (#[trigger] after.uploads[i]).repository_id,
    ) by {
        if i < base.uploads.len() {
            assert(after.uploads[i] == base.uploads[i]);
        }
    }
}

/// Moving or closing a session breaks no reference.
pub proof fn law_linked_upload_set(db: DbModel, uuid: Seq<char>, next: crate::rows::UploadModel)
    requires
        db.linked(),
        db.upload(uuid) matches Some(u) && u.repository_id == next.repository_id,
    ensures
        db.with_upload_set(uuid, next).linked(),
{
    let after = db.with_upload_set(uuid, next);
    lemma_first_where(db.uploads, crate::database::upload_with(uuid));
    let at = first_where(db.uploads, crate::database::upload_with(uuid));
    assert forall|i: int| 0 <= i < after.uploads.len() implies has_repo(
        after.repositories,
        (#[trigger] after.uploads[i]).repository_id,
    ) by {
        if i != at {
            assert(after.uploads[i] == db.uploads[i]);
        } else {
            assert(has_repo(db.repositories, db.uploads[at].repository_id));
        }
    }
}

/// Taking a chunk breaks no reference.
pub proof fn law_linked_chunk(
    db: DbModel,
    root: Seq<char>,
    name: Seq<char>,
    uuid: Seq<char>,
    content_length: i64,
    range: Option<(i64, i64)>,
    data: Seq<u8>,
)
    requires
        db.linked(),
        db.chunk_error(name, uuid, content_length, range).is_none(),
    ensures
        crate::uploads::chunk_db(db, root, name, uuid, content_length, range, data).linked(),
{
    let current = db.session_in(name, uuid).unwrap();
    let repo = db.repo_id(name).unwrap();
    let path = crate::uploads::chunk_file(root, name, uuid, current);
    lemma_lookup_has_repo(db, name);
    lemma_kept_blobs_linked(db, crate::database::blob_off_path(path));
    let cleared = db.keep_blobs(crate::database::blob_off_path(path));
    lemma_with_blob_linked(
        cleared,
        crate::uploads::new_chunk(repo, crate::digest::digest_of(data), path, uuid, current),
    );
    let mid = db.with_chunk(repo, crate::digest::digest_of(data), path, uuid, current);
    let u = mid.upload(uuid).unwrap();
    law_linked_upload_set(
        mid,
        uuid,
        crate::rows::UploadModel {
            current_chunk: crate::uploads::chunk_next(range, content_length).unwrap(),
            ..u
        },
    );
}

/// Installing or mounting a blob in a repository of the store breaks no reference.
pub proof fn law_linked_installed(db: DbModel, repo: u64, digest: Seq<char>, path: Seq<char>)
    requires
        db.linked(),
        has_repo(db.repositories, repo),
    ensures
        db.installed(repo, digest, path).linked(),
        db.mounted(repo, digest, path).linked(),
{
    lemma_kept_blobs_linked(db, crate::database::blob_agrees(path, digest));
    let cleared = db.keep_blobs(crate::database::blob_agrees(path, digest));
    lemma_with_blob_linked(cleared, crate::uploads::new_blob(repo, digest, path));
    lemma_with_blob_linked(db, crate::uploads::new_blob(repo, digest, path));
}

/// Closing a session breaks no reference.
pub proof fn law_linked_finished(db: DbModel, name: Seq<char>, uuid: Seq<char>, digest: Seq<char>, path: Seq<char>)
    requires
        db.linked(),
        db.repo_id(name).is_some(),
    ensures
        db.finished(db.repo_id(name).unwrap(), uuid, digest, path).linked(),
{
    let repo = db.repo_id(name).unwrap();
    lemma_lookup_has_repo(db, name);
    lemma_kept_blobs_linked(db, crate::database::not_chunk_of(repo, uuid));
    let cleared = db.keep_blobs(crate::database::not_chunk_of(repo, uuid));
    law_linked_installed(cleared, repo, digest, path);
    let mid = cleared.installed(repo, digest, path);
    match mid.upload(uuid) {
        Some(u) => {
            law_linked_upload_set(mid, uuid, crate::rows::UploadModel { finalized: true, ..u });
        },
        None => {},
    }
}

/// Putting a manifest breaks no reference.
pub proof fn law_linked_put_manifest(
    db: DbModel,
    name: Seq<char>,
    reference: Seq<char>,
    digest: Seq<char>,
    path: Seq<char>,
    m: ImageManifestModel,
)
    requires
        db.linked(),
        db.put_manifest_error(name, m).is_none(),
    ensures
        db.put_manifest(db.repo_id(name).unwrap(), reference, digest, path, m).linked(),
{
    let repo = db.repo_id(name).unwrap();
    let after = db.put_manifest(repo, reference, digest, path, m);
    lemma_lookup_has_repo(db, name);
    let row = ManifestModel {
        id: db.next_id,
        repository_id: repo,
        digest,
        file_path: path,
        media_type: m.media_type,
        size: m.config_size(),
        schema_version: m.schema_version,
    };
    assert(after.manifests == db.manifests.push(row));
    lemma_has_manifest_push(db.manifests, row);
    assert(after.repositories == db.repositories);
    assert forall|i: int| 0 <= i < after.blobs.len() implies has_repo(
        after.repositories,
        (#[trigger] after.blobs[i]).repository_id,
    ) by {
        assert(after.blobs[i] == crate::index::bumped(db.blobs[i], repo, crate::index::layer_names(m.layers)));
        assert(has_repo(db.repositories, db.blobs[i].repository_id));
    }
    assert forall|i: int| 0 <= i < after.manifests.len() implies has_repo(
        after.repositories,
        (#[trigger] after.manifests[i]).repository_id,
    ) by {
        if i < db.manifests.len() {
            assert(after.manifests[i] == db.manifests[i]);
        }
    }
    assert forall|i: int| 0 <= i < after.manifest_layers.len() implies has_manifest(
        after.manifests,
        (#[trigger] after.manifest_layers[i]).manifest_id,
        after.manifest_layers[i].repository_id,
    ) by {
        if i < db.manifest_layers.len() {
            assert(after.manifest_layers[i] == db.manifest_layers[i]);
            assert(has_manifest(
                db.manifests,
                db.manifest_layers[i].manifest_id,
                db.manifest_layers[i].repository_id,
            ));
        } else {
            assert(after.manifest_layers[i] == crate::index::layer_rows(db.next_id, repo, m.layers)[i
                - db.manifest_layers.len()]);
        }
    }
    let cond = tag_named(repo, reference);
    lemma_first_where(db.tags, cond);
    let t = first_where(db.tags, cond);
    if t < db.tags.len() {
        assert(after.tags == db.tags.update(t, TagModel { manifest_id: db.next_id, ..db.tags[t] }));
    } else {
        assert(after.tags == db.tags.push(
            TagModel { repository_id: repo, tag: reference, manifest_id: db.next_id },
        ));
    }
    assert forall|i: int| 0 <= i < after.tags.len() implies has_manifest(
        after.manifests,
        (#[trigger] after.tags[i]).manifest_id,
        after.tags[i].repository_id,
    ) by {
        if i < db.tags.len() && i != t {
            assert(after.tags[i] == db.tags[i]);
            assert(has_manifest(db.manifests, db.tags[i].manifest_id, db.tags[i].repository_id));
        }
    }
}

/// The manifests that are left when those that miss a condition are taken out still hold
/// every manifest that meets the condition.
pub proof fn lemma_has_manifest_kept(manifests: Seq<ManifestModel>, keep: spec_fn(ManifestModel) -> bool, id: u64, repo: u64)
    requires
        exists|i: int|
            0 <= i < manifests.len() && (#[trigger] manifests[i]).id == id && manifests[i].repository_id
                == repo && keep(manifests[i]),
    ensures
        has_manifest(manifests.filter(keep), id, repo),
{
    let i = choose|i: int|
        0 <= i < manifests.len() && (#[trigger] manifests[i]).id == id && manifests[i].repository_id
            == repo && keep(manifests[i]);
    lemma_filter_members(manifests, keep);
    assert(manifests.filter(keep).contains(manifests[i]));
    let k = choose|k: int| 0 <= k < manifests.filter(keep).len() && manifests.filter(keep)[k] == manifests[i];
    assert(manifests.filter(keep)[k].id == id);
}

/// Deleting a manifest breaks no reference.
pub proof fn law_linked_delete_manifest(db: DbModel, at: int)
    requires
        db.linked(),
        0 <= at < db.manifests.len(),
    ensures
        db.delete_manifest(at).linked(),
{
    let after = db.delete_manifest(at);
    let id = db.manifests[at].id;
    let repo = db.manifests[at].repository_id;
    let keep = manifest_without_id(id);
    lemma_filter_members(db.manifests, keep);
    lemma_filter_members(db.manifest_layers, layer_not_of(id));
    lemma_filter_members(db.tags, tag_not_of(id));
    let digests = db.layer_digests(id);
    let lowered = db.blobs.map_values(|b: crate::rows::BlobModel| crate::index::dropped(b, repo, digests));
    lemma_filter_members(lowered, crate::index::blob_survives(repo, digests));
    assert forall|i: int| 0 <= i < after.blobs.len() implies has_repo(
        after.repositories,
        (#[trigger] after.blobs[i]).repository_id,
    ) by {
        assert(lowered.contains(after.blobs[i]));
        let k = choose|k: int| 0 <= k < lowered.len() && lowered[k] == after.blobs[i];
        assert(lowered[k] == crate::index::dropped(db.blobs[k], repo, digests));
        assert(has_repo(db.repositories, db.blobs[k].repository_id));
    }
    assert forall|i: int| 0 <= i < after.uploads.len() implies has_repo(
        after.repositories,
        (#[trigger] after.uploads[i]).repository_id,
    ) by {
        assert(has_repo(db.repositories, db.uploads[i].repository_id));
    }
    assert forall|i: int| 0 <= i < after.manifests.len() implies has_repo(
        after.repositories,
        (#[trigger] after.manifests[i]).repository_id,
    ) by {
        assert(db.manifests.contains(after.manifests[i]));
        let k = choose|k: int| 0 <= k < db.manifests.len() && db.manifests[k] == after.manifests[i];
        assert(has_repo(db.repositories, db.manifests[k].repository_id));
    }
    assert forall|i: int| 0 <= i < after.manifest_layers.len() implies has_manifest(
        after.manifests,
        (#[trigger] after.manifest_layers[i]).manifest_id,
        after.manifest_layers[i].repository_id,
    ) by {
        let row = after.manifest_layers[i];
        assert(db.manifest_layers.contains(row));
        let k = choose|k: int| 0 <= k < db.manifest_layers.len() && db.manifest_layers[k] == row;
        assert(has_manifest(db.manifests, db.manifest_layers[k].manifest_id, db.manifest_layers[k].repository_id));
        assert((layer_not_of(id))(row));
        let j = choose|j: int|
            0 <= j < db.manifests.len() && (#[trigger] db.manifests[j]).id == row.manifest_id
                && db.manifests[j].repository_id == row.repository_id;
        assert(keep(db.manifests[j]));
        lemma_has_manifest_kept(db.manifests, keep, row.manifest_id, row.repository_id);
    }
    assert forall|i: int| 0 <= i < after.tags.len() implies has_manifest(
        after.manifests,
        (#[trigger] after.tags[i]).manifest_id,
        after.tags[i].repository_id,
    ) by {
        let row = after.tags[i];
        assert(db.tags.contains(row));
        let k = choose|k: int| 0 <= k < db.tags.len() && db.tags[k] == row;
        assert(has_manifest(db.manifests, db.tags[k].manifest_id, db.tags[k].repository_id));
        assert((tag_not_of(id))(row));
        let j = choose|j: int|
            0 <= j < db.manifests.len() && (#[trigger] db.manifests[j]).id == row.manifest_id
                && db.manifests[j].repository_id == row.repository_id;
        assert(keep(db.manifests[j]));
        lemma_has_manifest_kept(db.manifests, keep, row.manifest_id, row.repository_id);
    }
}

/// Collecting garbage breaks no reference.
pub proof fn law_linked_collected(db: DbModel)
    requires
        db.linked(),
    ensures
        db.collected().linked(),
{
    let after = db.collected();
    lemma_filter_members(db.blobs, crate::database::blob_referenced());
    lemma_filter_members(db.uploads, crate::database::upload_open());
    assert forall|i: int| 0 <= i < after.blobs.len() implies has_repo(
        after.repositories,
        (#[trigger] after.blobs[i]).repository_id,
    ) by {
        assert(db.blobs.contains(after.blobs[i]));
        let k = choose|k: int| 0 <= k < db.blobs.len() && db.blobs[k] == after.blobs[i];
        assert(has_repo(db.repositories, db.blobs[k].repository_id));
    }
    assert forall|i: int| 0 <= i < after.uploads.len() implies has_repo(
        after.repositories,
        (#[trigger] after.uploads[i]).repository_id,
    ) by {
        assert(db.uploads.contains(after.uploads[i]));
        let k = choose|k: int| 0 <= k < db.uploads.len() && db.uploads[k] == after.uploads[i];
        assert(has_repo(db.repositories, db.uploads[k].repository_id));
    }
}

/// The repositories that are left when the one named `name` is taken out still hold every
/// repository with another identifier than that of the one named `name`.
pub proof fn lemma_has_repo_kept(db: DbModel, name: Seq<char>, id: u64)
    requires
        pairwise(db.repositories, same_name()),
        db.repo_id(name).is_some(),
        has_repo(db.repositories, id),
        id != db.repo_id(name).unwrap(),
    ensures
        has_repo(db.repositories.filter(crate::database::repo_not_named(name)), id),
{
    let keep = crate::database::repo_not_named(name);
    let i = choose|i: int| 0 <= i < db.repositories.len() && (#[trigger] db.repositories[i]).id == id;
    lemma_first_where(db.repositories, repo_named(name));
    let at = first_where(db.repositories, repo_named(name));
    if db.repositories[i].name == name {
        if i < at {
            assert(!(same_name())(db.repositories[i], db.repositories[at]));
        } else if at < i {
            assert(!(same_name())(db.repositories[at], db.repositories[i]));
        }
    }
    lemma_filter_members(db.repositories, keep);
    assert(keep(db.repositories[i]));
    assert(db.repositories.filter(keep).contains(db.repositories[i]));
    let k = choose|k: int|
        0 <= k < db.repositories.filter(keep).len() && db.repositories.filter(keep)[k] == db.repositories[i];
    assert(db.repositories.filter(keep)[k].id == id);
}

/// Deleting a repository breaks no reference.
pub proof fn law_linked_without_repository(db: DbModel, name: Seq<char>)
    requires
        db.linked(),
        pairwise(db.repositories, same_name()),
        db.repo_id(name).is_some(),
    ensures
        db.without_repository(db.repo_id(name).unwrap(), name).linked(),
{
    let repo = db.repo_id(name).unwrap();
    let after = db.without_repository(repo, name);
    let keep = manifest_outside(repo);
    lemma_filter_members(db.blobs, crate::database::blob_outside(repo));
    lemma_filter_members(db.uploads, crate::database::upload_outside(repo));
    lemma_filter_members(db.manifests, keep);
    lemma_filter_members(db.manifest_layers, layer_outside(repo));
    lemma_filter_members(db.tags, tag_outside(repo));
    assert forall|i: int| 0 <= i < after.blobs.len() implies has_repo(
        after.repositories,
        (#[trigger] after.blobs[i]).repository_id,
    ) by {
        let row = after.blobs[i];
        assert(db.blobs.contains(row));
        let k = choose|k: int| 0 <= k < db.blobs.len() && db.blobs[k] == row;
        assert(has_repo(db.repositories, db.blobs[k].repository_id));
        assert((crate::database::blob_outside(repo))(row));
        lemma_has_repo_kept(db, name, row.repository_id);
    }
    assert forall|i: int| 0 <= i < after.uploads.len() implies has_repo(
        after.repositories,
        (#[trigger] after.uploads[i]).repository_id,
    ) by {
        let row = after.uploads[i];
        assert(db.uploads.contains(row));
        let k = choose|k: int| 0 <= k < db.uploads.len() && db.uploads[k] == row;
        assert(has_repo(db.repositories, db.uploads[k].repository_id));
        assert((crate::database::upload_outside(repo))(row));
        lemma_has_repo_kept(db, name, row.repository_id);
    }
    assert forall|i: int| 0 <= i < after.manifests.len() implies has_repo(
        after.repositories,
        (#[trigger] after.manifests[i]).repository_id,
    ) by {
        let row = after.manifests[i];
        assert(db.manifests.contains(row));
        let k = choose|k: int| 0 <= k < db.manifests.len() && db.manifests[k] == row;
        assert(has_repo(db.repositories, db.manifests[k].repository_id));
        assert(keep(row));
        lemma_has_repo_kept(db, name, row.repository_id);
    }
    assert forall|i: int| 0 <= i < after.manifest_layers.len() implies has_manifest(
        after.manifests,
        (#[trigger] after.manifest_layers[i]).manifest_id,
        after.manifest_layers[i].repository_id,
    ) by {
        let row = after.manifest_layers[i];
        assert(db.manifest_layers.contains(row));
        let k = choose|k: int| 0 <= k < db.manifest_layers.len() && db.manifest_layers[k] == row;
        assert(has_manifest(db.manifests, db.manifest_layers[k].manifest_id, db.manifest_layers[k].repository_id));
        assert((layer_outside(repo))(row));
        let j = choose|j: int|
            0 <= j < db.manifests.len() && (#[trigger] db.manifests[j]).id == row.manifest_id
                && db.manifests[j].repository_id == row.repository_id;
        assert(keep(db.manifests[j]));
        lemma_has_manifest_kept(db.manifests, keep, row.manifest_id, row.repository_id);
    }
    assert forall|i: int| 0 <= i < after.tags.len() implies has_manifest(
        after.manifests,
        (#[trigger] after.tags[i]).manifest_id,
        after.tags[i].repository_id,
    ) by {
        let row = after.tags[i];
        assert(db.tags.contains(row));
        let k = choose|k: int| 0 <= k < db.tags.len() && db.tags[k] == row;
        assert(has_manifest(db.manifests, db.tags[k].manifest_id, db.tags[k].repository_id));
        assert((tag_outside(repo))(row));
        let j = choose|j: int|
            0 <= j < db.manifests.len() && (#[trigger] db.manifests[j]).id == row.manifest_id
                && db.manifests[j].repository_id == row.repository_id;
        assert(keep(db.manifests[j]));
        lemma_has_manifest_kept(db.manifests, keep, row.manifest_id, row.repository_id);
    }
}

/// Whether `uploads` holds the open session `uuid` of repository `repo`.
pub open spec fn has_open_session(uploads: Seq<crate::rows::UploadModel>, uuid: Seq<char>, repo: u64) -> bool {
    exists|i: int|
        0 <= i < uploads.len() && (#[trigger] uploads[i]).uuid == uuid && uploads[i].repository_id == repo
            && !uploads[i].finalized
}

impl DbModel {
    /// Every chunk belongs to an open session of its repository.
    pub open spec fn chunks_owned(self) -> bool {
        forall|i: int|
            0 <= i < self.blobs.len() && (#[trigger] self.blobs[i]).upload_session_id.is_some()
                ==> has_open_session(
                self.uploads,
                self.blobs[i].upload_session_id.unwrap(),
                self.blobs[i].repository_id,
            )
    }
}

/// In a store without rows every chunk belongs to an open session.
pub proof fn law_owned_empty()
    ensures
        DbModel::empty().chunks_owned(),
{
}

/// Where every chunk belongs to an open session, a session identifier that is free has no
/// chunks.
pub proof fn law_owned_fresh_session(db: DbModel, repo: u64, uuid: Seq<char>)
    requires
        db.chunks_owned(),
        db.upload(uuid).is_none(),
    ensures
        db.chunk_entries(repo, uuid).len() == 0,
{
    let is_chunk = crate::database::chunk_of(repo, uuid);
    lemma_first_where(db.uploads, crate::database::upload_with(uuid));
    assert forall|k: int| 0 <= k < db.blobs.len() implies !is_chunk(#[trigger] db.blobs[k]) by {
        if is_chunk(db.blobs[k]) {
            let i = choose|i: int|
                0 <= i < db.uploads.len() && (#[trigger] db.uploads[i]).uuid == uuid
                    && db.uploads[i].repository_id == db.blobs[k].repository_id && !db.uploads[i].finalized;
            assert((crate::database::upload_with(uuid))(db.uploads[i]));
        }
    }
    crate::laws::lemma_filter_none_all(db.blobs, is_chunk);
}

/// A change that keeps the sessions, and leaves or adds only chunks of sessions that had
/// chunks or are open, keeps every chunk with an open session.
pub proof fn law_owned_blobs(db: DbModel, after: DbModel)
    requires
        db.chunks_owned(),
        after.uploads == db.uploads,
        forall|i: int|
            0 <= i < after.blobs.len() && (#[trigger] after.blobs[i]).upload_session_id.is_some()
                ==> has_open_session(
                db.uploads,
                after.blobs[i].upload_session_id.unwrap(),
                after.blobs[i].repository_id,
            ),
    ensures
        after.chunks_owned(),
{
}

/// Blob rows that are left of the blob rows keep every chunk with an open session.
pub proof fn lemma_owned_kept(db: DbModel, keep: spec_fn(crate::rows::BlobModel) -> bool)
    requires
        db.chunks_owned(),
    ensures
        db.keep_blobs(keep).chunks_owned(),
{
    lemma_filter_members(db.blobs, keep);
    let after = db.keep_blobs(keep);
    assert forall|i: int|
        0 <= i < after.blobs.len() && (#[trigger] after.blobs[i]).upload_session_id.is_some() implies has_open_session(
        db.uploads,
        after.blobs[i].upload_session_id.unwrap(),
        after.blobs[i].repository_id,
    ) by {
        assert(db.blobs.contains(after.blobs[i]));
        let k = choose|k: int| 0 <= k < db.blobs.len() && db.blobs[k] == after.blobs[i];
        assert(db.blobs[k].upload_session_id.is_some());
    }
}

/// One more blob row that is no chunk, or a chunk of an open session, keeps every chunk with
/// an open session.
pub proof fn lemma_owned_with_blob(db: DbModel, row: crate::rows::BlobModel)
    requires
        db.chunks_owned(),
        row.upload_session_id matches Some(u) ==> has_open_session(db.uploads, u, row.repository_id),
    ensures
        db.with_blob(row).chunks_owned(),
{
    let after = db.with_blob(row);
    assert forall|i: int|
        0 <= i < after.blobs.len() && (#[trigger] after.blobs[i]).upload_session_id.is_some() implies has_open_session(
        after.uploads,
        after.blobs[i].upload_session_id.unwrap(),
        after.blobs[i].repository_id,
    ) by {
        if i < db.blobs.len() {
            assert(after.blobs[i] == db.blobs[i]);
        }
    }
}

/// One more session keeps every chunk with an open session.
pub proof fn law_owned_with_session(db: DbModel, name: Seq<char>, uuid: Seq<char>)
    requires
        db.chunks_owned(),
    ensures
        db.with_session(name, uuid).chunks_owned(),
{
    let after = db.with_session(name, uuid);
    assert forall|i: int|
        0 <= i < after.blobs.len() && (#[trigger] after.blobs[i]).upload_session_id.is_some() implies has_open_session(
        after.uploads,
        after.blobs[i].upload_session_id.unwrap(),
        after.blobs[i].repository_id,
    ) by {
        assert(after.blobs[i] == db.blobs[i]);
        let u = db.blobs[i].upload_session_id.unwrap();
        let k = choose|k: int|
            0 <= k < db.uploads.len() && (#[trigger] db.uploads[k]).uuid == u && db.uploads[k].repository_id
                == db.blobs[i].repository_id && !db.uploads[k].finalized;
        assert(after.uploads[k] == db.uploads[k]);
    }
}

/// Taking a chunk keeps every chunk with an open session.
pub proof fn law_owned_chunk(
    db: DbModel,
    root: Seq<char>,
    name: Seq<char>,
    uuid: Seq<char>,
    content_length: i64,
    range: Option<(i64, i64)>,
    data: Seq<u8>,
)
    requires
        db.chunks_owned(),
        db.chunk_error(name, uuid, content_length, range).is_none(),
    ensures
        crate::uploads::chunk_db(db, root, name, uuid, content_length, range, data).chunks_owned(),
{
    let current = db.session_in(name, uuid).unwrap();
    let repo = db.repo_id(name).unwrap();
    let path = crate::uploads::chunk_file(root, name, uuid, current);
    let with = crate::database::upload_with(uuid);
    lemma_first_where(db.uploads, with);
    let at = first_where(db.uploads, with);
    assert(db.uploads[at].uuid == uuid && db.uploads[at].repository_id == repo && !db.uploads[at].finalized);
    lemma_owned_kept(db, crate::database::blob_off_path(path));
    let cleared = db.keep_blobs(crate::database::blob_off_path(path));
    lemma_owned_with_blob(
        cleared,
        crate::uploads::new_chunk(repo, crate::digest::digest_of(data), path, uuid, current),
    );
    let mid = db.with_chunk(repo, crate::digest::digest_of(data), path, uuid, current);
    let after = crate::uploads::chunk_db(db, root, name, uuid, content_length, range, data);
    let moved = crate::rows::UploadModel {
        current_chunk: crate::uploads::chunk_next(range, content_length).unwrap(),
        ..db.uploads[at]
    };
    assert(after.uploads == db.uploads.update(at, moved));
    assert(after.blobs == mid.blobs);
    assert forall|i: int|
        0 <= i < after.blobs.len() && (#[trigger] after.blobs[i]).upload_session_id.is_some() implies has_open_session(
        after.uploads,
        after.blobs[i].upload_session_id.unwrap(),
        after.blobs[i].repository_id,
    ) by {
        let u = mid.blobs[i].upload_session_id.unwrap();
        let k = choose|k: int|
            0 <= k < mid.uploads.len() && (#[trigger] mid.uploads[k]).uuid == u && mid.uploads[k].repository_id
                == mid.blobs[i].repository_id && !mid.uploads[k].finalized;
        if k == at {
            assert(after.uploads[k] == moved);
        } else {
            assert(after.uploads[k] == db.uploads[k]);
        }
    }
}

/// Closing a session keeps every chunk with an open session: the chunks of the session are
/// gone.
pub proof fn law_owned_finished(db: DbModel, name: Seq<char>, uuid: Seq<char>, digest: Seq<char>, path: Seq<char>)
    requires
        db.chunks_owned(),
        pairwise(db.uploads, crate::wellformed::same_uuid()),
        db.session_in(name, uuid).is_some(),
    ensures
        db.finished(db.repo_id(name).unwrap(), uuid, digest, path).chunks_owned(),
{
    let repo = db.repo_id(name).unwrap();
    let with = crate::database::upload_with(uuid);
    lemma_first_where(db.uploads, with);
    let at = first_where(db.uploads, with);
    let keep = crate::database::not_chunk_of(repo, uuid);
    lemma_owned_kept(db, keep);
    lemma_filter_members(db.blobs, keep);
    let cleared = db.keep_blobs(keep);
    lemma_owned_kept(cleared, crate::database::blob_agrees(path, digest));
    let agreed = cleared.keep_blobs(crate::database::blob_agrees(path, digest));
    lemma_filter_members(cleared.blobs, crate::database::blob_agrees(path, digest));
    lemma_owned_with_blob(agreed, crate::uploads::new_blob(repo, digest, path));
    let mid = cleared.installed(repo, digest, path);
    let after = db.finished(repo, uuid, digest, path);
    let closed = crate::rows::UploadModel { finalized: true, ..db.uploads[at] };
    assert(after.uploads == db.uploads.update(at, closed));
    assert(after.blobs == mid.blobs);
    assert forall|i: int|
        0 <= i < after.blobs.len() && (#[trigger] after.blobs[i]).upload_session_id.is_some() implies has_open_session(
        after.uploads,
        after.blobs[i].upload_session_id.unwrap(),
        after.blobs[i].repository_id,
    ) by {
        let row = mid.blobs[i];
        let u = row.upload_session_id.unwrap();
        let k = choose|k: int|
            0 <= k < mid.uploads.len() && (#[trigger] mid.uploads[k]).uuid == u && mid.uploads[k].repository_id
                == row.repository_id && !mid.uploads[k].finalized;
        // the row is one of the rows that were kept
        assert(keep(row)) by {
            if mid.blobs == agreed.blobs {
                assert(agreed.blobs.contains(row));
            } else {
                assert(mid.blobs == agreed.blobs.push(crate::uploads::new_blob(repo, digest, path)));
                assert(i < agreed.blobs.len());
                assert(agreed.blobs[i] == row);
                assert(agreed.blobs.contains(row));
            }
            assert(cleared.blobs.contains(row));
            let j = choose|j: int| 0 <= j < cleared.blobs.len() && cleared.blobs[j] == row;
            assert(keep(cleared.blobs[j]));
        }
        if k == at {
            assert(row.is_chunk(repo, uuid));
        } else {
            assert(after.uploads[k] == db.uploads[k]);
        }
    }
}

/// Installing or mounting a blob keeps every chunk with an open session.
pub proof fn law_owned_installed(db: DbModel, repo: u64, digest: Seq<char>, path: Seq<char>)
    requires
        db.chunks_owned(),
    ensures
        db.installed(repo, digest, path).chunks_owned(),
        db.mounted(repo, digest, path).chunks_owned(),
{
    lemma_owned_kept(db, crate::database::blob_agrees(path, digest));
    let cleared = db.keep_blobs(crate::database::blob_agrees(path, digest));
    lemma_owned_with_blob(cleared, crate::uploads::new_blob(repo, digest, path));
    lemma_owned_with_blob(db, crate::uploads::new_blob(repo, digest, path));
}

/// Putting a manifest keeps every chunk with an open session.
pub proof fn law_owned_put_manifest(
    db: DbModel,
    repo: u64,
    reference: Seq<char>,
    digest: Seq<char>,
    path: Seq<char>,
    m: ImageManifestModel,
)
    requires
        db.chunks_owned(),
    ensures
        db.put_manifest(repo, reference, digest, path, m).chunks_owned(),
{
    let after = db.put_manifest(repo, reference, digest, path, m);
    assert(after.uploads == db.uploads);
    assert forall|i: int|
        0 <= i < after.blobs.len() && (#[trigger] after.blobs[i]).upload_session_id.is_some() implies has_open_session(
        after.uploads,
        after.blobs[i].upload_session_id.unwrap(),
        after.blobs[i].repository_id,
    ) by {
        assert(after.blobs[i] == crate::index::bumped(db.blobs[i], repo, crate::index::layer_names(m.layers)));
        assert(db.blobs[i].upload_session_id.is_some());
    }
}

/// Deleting a manifest keeps every chunk with an open session.
pub proof fn law_owned_delete_manifest(db: DbModel, at: int)
    requires
        db.chunks_owned(),
        0 <= at < db.manifests.len(),
    ensures
        db.delete_manifest(at).chunks_owned(),
{
    let after = db.delete_manifest(at);
    let id = db.manifests[at].id;
    let repo = db.manifests[at].repository_id;
    let digests = db.layer_digests(id);
    let lowered = db.blobs.map_values(|b: crate::rows::BlobModel| crate::index::dropped(b, repo, digests));
    lemma_filter_members(lowered, crate::index::blob_survives(repo, digests));
    assert forall|i: int|
        0 <= i < after.blobs.len() && (#[trigger] after.blobs[i]).upload_session_id.is_some() implies has_open_session(
        after.uploads,
        after.blobs[i].upload_session_id.unwrap(),
        after.blobs[i].repository_id,
    ) by {
        assert(lowered.contains(after.blobs[i]));
        let k = choose|k: int| 0 <= k < lowered.len() && lowered[k] == after.blobs[i];
        assert(lowered[k] == crate::index::dropped(db.blobs[k], repo, digests));
        assert(db.blobs[k].upload_session_id.is_some());
    }
}

/// The sessions that are left when those that miss a condition are taken out still hold
/// every open session that meets the condition.
pub proof fn lemma_open_session_kept(uploads: Seq<crate::rows::UploadModel>, keep: spec_fn(crate::rows::UploadModel) -> bool, uuid: Seq<char>, repo: u64)
    requires
        exists|i: int|
            0 <= i < uploads.len() && (#[trigger] uploads[i]).uuid == uuid && uploads[i].repository_id == repo
                && !uploads[i].finalized && keep(uploads[i]),
    ensures
        has_open_session(uploads.filter(keep), uuid, repo),
{
    let i = choose|i: int|
        0 <= i < uploads.len() && (#[trigger] uploads[i]).uuid == uuid && uploads[i].repository_id == repo
            && !uploads[i].finalized && keep(uploads[i]);
    lemma_filter_members(uploads, keep);
    assert(uploads.filter(keep).contains(uploads[i]));
    let k = choose|k: int| 0 <= k < uploads.filter(keep).len() && uploads.filter(keep)[k] == uploads[i];
    assert(uploads.filter(keep)[k].uuid == uuid);
}

/// Collecting garbage keeps every chunk with an open session.
pub proof fn law_owned_collected(db: DbModel)
    requires
        db.chunks_owned(),
    ensures
        db.collected().chunks_owned(),
{
    let after = db.collected();
    lemma_filter_members(db.blobs, crate::database::blob_referenced());
    assert forall|i: int|
        0 <= i < after.blobs.len() && (#[trigger] after.blobs[i]).upload_session_id.is_some() implies has_open_session(
        after.uploads,
        after.blobs[i].upload_session_id.unwrap(),
        after.blobs[i].repository_id,
    ) by {
        let row = after.blobs[i];
        assert(db.blobs.contains(row));
        let k = choose|k: int| 0 <= k < db.blobs.len() && db.blobs[k] == row;
        assert(db.blobs[k].upload_session_id.is_some());
        let u = row.upload_session_id.unwrap();
        let j = choose|j: int|
            0 <= j < db.uploads.len() && (#[trigger] db.uploads[j]).uuid == u && db.uploads[j].repository_id
                == row.repository_id && !db.uploads[j].finalized;
        assert((crate::database::upload_open())(db.uploads[j]));
        lemma_open_session_kept(db.uploads, crate::database::upload_open(), u, row.repository_id);
    }
}

/// Deleting a repository keeps every chunk with an open session.
pub proof fn law_owned_without_repository(db: DbModel, repo: u64, name: Seq<char>)
    requires
        db.chunks_owned(),
    ensures
        db.without_repository(repo, name).chunks_owned(),
{
    let after = db.without_repository(repo, name);
    lemma_filter_members(db.blobs, crate::database::blob_outside(repo));
    assert forall|i: int|
        0 <= i < after.blobs.len() && (#[trigger] after.blobs[i]).upload_session_id.is_some() implies has_open_session(
        after.uploads,
        after.blobs[i].upload_session_id.unwrap(),
        after.blobs[i].repository_id,
    ) by {
        let row = after.blobs[i];
        assert(db.blobs.contains(row));
        let k = choose|k: int| 0 <= k < db.blobs.len() && db.blobs[k] == row;
        assert(db.blobs[k].upload_session_id.is_some());
        assert((crate::database::blob_outside(repo))(row));
        let u = row.upload_session_id.unwrap();
        let j = choose|j: int|
            0 <= j < db.uploads.len() && (#[trigger] db.uploads[j]).uuid == u && db.uploads[j].repository_id
                == row.repository_id && !db.uploads[j].finalized;
        assert((crate::database::upload_outside(repo))(db.uploads[j]));
        lemma_open_session_kept(db.uploads, crate::database::upload_outside(repo), u, row.repository_id);
    }
}

} // verus!

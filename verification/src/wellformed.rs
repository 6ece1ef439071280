//! The well-formedness of the metadata store: identifiers below the next one to be given
//! out, and no repository name, identifier, tag or session twice. A store without rows is
//! well-formed, and every change that the registry makes keeps it so.

use crate::database::{repo_named, upload_with, DbModel};
use crate::index::{manifest_without_id, tag_named, tag_not_of};
use crate::order::tags_distinct;
use crate::rows::{ManifestModel, RepositoryModel, TagModel, UploadModel};
use crate::shared::ImageManifestModel;
use crate::table::{first_where, lemma_filter_members, lemma_first_where};
use vstd::prelude::*;

verus! {

/// Whether no two rows are the same in the sense of `same`.
pub open spec fn pairwise<M>(rows: Seq<M>, same: spec_fn(M, M) -> bool) -> bool {
    forall|i: int, j: int| 0 <= i < j < rows.len() ==> !same(rows[i], rows[j])
}

/// Rows that are left of rows without doubles are without doubles.
pub proof fn lemma_pairwise_filter<M>(rows: Seq<M>, keep: spec_fn(M) -> bool, same: spec_fn(M, M) -> bool)
    requires
        pairwise(rows, same),
    ensures
        pairwise(rows.filter(keep), same),
    decreases rows.len(),
{
    reveal(Seq::filter);
    if rows.len() > 0 {
        let init = rows.drop_last();
        let last = rows.last();
        assert(pairwise(init, same)) by {
            assert forall|i: int, j: int| 0 <= i < j < init.len() implies !same(init[i], init[j]) by {
                assert(!same(rows[i], rows[j]));
            }
        }
        lemma_pairwise_filter(init, keep, same);
        lemma_filter_members(init, keep);
        let kept = init.filter(keep);
        if keep(last) {
            let out = kept.push(last);
            assert forall|i: int, j: int| 0 <= i < j < out.len() implies !same(out[i], out[j]) by {
                if j < kept.len() {
                    assert(!same(kept[i], kept[j]));
                } else {
                    assert(init.contains(kept[i]));
                    let k = choose|k: int| 0 <= k < init.len() && init[k] == kept[i];
                    assert(!same(rows[k], rows[rows.len() - 1]));
                }
            }
        }
    }
}

/// One more row that is the same as none keeps rows without doubles.
pub proof fn lemma_pairwise_push<M>(rows: Seq<M>, row: M, same: spec_fn(M, M) -> bool)
    requires
        pairwise(rows, same),
        forall|i: int| 0 <= i < rows.len() ==> !same(#[trigger] rows[i], row),
    ensures
        pairwise(rows.push(row), same),
{
    let out = rows.push(row);
    assert forall|i: int, j: int| 0 <= i < j < out.len() implies !same(out[i], out[j]) by {
        if j < rows.len() {
            assert(!same(rows[i], rows[j]));
        } else {
            assert(!same(rows[i], row));
        }
    }
}

/// A row replaced by one that is the same as the rows that the old one was the same as
/// keeps rows without doubles.
pub proof fn lemma_pairwise_update<M>(rows: Seq<M>, at: int, row: M, same: spec_fn(M, M) -> bool)
    requires
        pairwise(rows, same),
        0 <= at < rows.len(),
        forall|k: int|
            0 <= k < rows.len() ==> same(row, #[trigger] rows[k]) == same(rows[at], rows[k]) && same(
                rows[k],
                row,
            ) == same(rows[k], rows[at]),
    ensures
        pairwise(rows.update(at, row), same),
{
    let out = rows.update(at, row);
    assert forall|i: int, j: int| 0 <= i < j < out.len() implies !same(out[i], out[j]) by {
        assert(!same(rows[i], rows[j]));
        assert(same(row, rows[j]) == same(rows[at], rows[j]));
        assert(same(rows[i], row) == same(rows[i], rows[at]));
    }
}

/// Two repositories have one name.
pub open spec fn same_name() -> spec_fn(RepositoryModel, RepositoryModel) -> bool {
    |a: RepositoryModel, b: RepositoryModel| a.name == b.name
}

/// Two repositories have one identifier.
pub open spec fn same_repo_id() -> spec_fn(RepositoryModel, RepositoryModel) -> bool {
    |a: RepositoryModel, b: RepositoryModel| a.id == b.id
}

/// Two manifests have one identifier.
pub open spec fn same_manifest_id() -> spec_fn(ManifestModel, ManifestModel) -> bool {
    |a: ManifestModel, b: ManifestModel| a.id == b.id
}

/// Two tags of one repository have one name.
pub open spec fn same_tag() -> spec_fn(TagModel, TagModel) -> bool {
    |a: TagModel, b: TagModel| a.repository_id == b.repository_id && a.tag == b.tag
}

/// Two sessions have one identifier.
pub open spec fn same_uuid() -> spec_fn(UploadModel, UploadModel) -> bool {
    |a: UploadModel, b: UploadModel| a.uuid == b.uuid
}

impl DbModel {
    /// The store is well-formed: every identifier in use lies below the next one, and no
    /// repository name, repository identifier, manifest identifier, tag of a repository or
    /// session identifier occurs twice.
    pub open spec fn wf(self) -> bool {
        &&& self.ids_below()
        &&& pairwise(self.repositories, same_name())
        &&& pairwise(self.repositories, same_repo_id())
        &&& pairwise(self.manifests, same_manifest_id())
        &&& pairwise(self.tags, same_tag())
        &&& pairwise(self.uploads, same_uuid())
    }
}

/// A store without rows is well-formed.
pub proof fn law_wf_empty()
    ensures
        DbModel::empty().wf(),
{
}

/// In a well-formed store the tags of a repository are distinct.
pub proof fn law_tags_distinct(db: DbModel, repo: u64)
    requires
        db.wf(),
    ensures
        tags_distinct(db.tags_of(repo)),
{
    let keep = crate::index::tag_in(repo);
    lemma_pairwise_filter(db.tags, keep, same_tag());
    lemma_filter_members(db.tags, keep);
    let kept = db.tags.filter(keep);
    let names = db.tags_of(repo);
    assert forall|i: int, j: int| 0 <= i < j < names.len() implies names[i] != names[j] by {
        assert(!(same_tag())(kept[i], kept[j]));
        assert(keep(kept[i]));
        assert(keep(kept[j]));
    }
}

/// Adding a repository under a name that is free keeps the store well-formed.
pub proof fn law_wf_with_repository(db: DbModel, name: Seq<char>, is_public: bool)
    requires
        db.wf(),
        db.repo_lookup(name).is_none(),
        db.next_id < u64::MAX,
    ensures
        db.with_repository(name, is_public).wf(),
{
    let row = RepositoryModel { id: db.next_id, name, is_public };
    lemma_first_where(db.repositories, repo_named(name));
    assert forall|i: int| 0 <= i < db.repositories.len() implies !(same_name())(
        #[trigger] db.repositories[i],
        row,
    ) by {
        assert(!(repo_named(name))(db.repositories[i]));
    }
    assert forall|i: int| 0 <= i < db.repositories.len() implies !(same_repo_id())(
        #[trigger] db.repositories[i],
        row,
    ) by {
        assert(db.repositories[i].id < db.next_id);
    }
    lemma_pairwise_push(db.repositories, row, same_name());
    lemma_pairwise_push(db.repositories, row, same_repo_id());
    let after = db.with_repository(name, is_public);
    assert forall|i: int| 0 <= i < after.repositories.len() implies (#[trigger] after.repositories[i]).id
        < after.next_id by {
        if i < db.repositories.len() {
            assert(after.repositories[i] == db.repositories[i]);
        }
    }
    assert forall|i: int| 0 <= i < after.manifests.len() implies (#[trigger] after.manifests[i]).id
        < after.next_id by {
        assert(db.manifests[i].id < db.next_id);
    }
    assert forall|i: int| 0 <= i < after.manifest_layers.len() implies (#[trigger] after.manifest_layers[i]).manifest_id
        < after.next_id by {
        assert(db.manifest_layers[i].manifest_id < db.next_id);
    }
    assert forall|i: int| 0 <= i < after.tags.len() implies (#[trigger] after.tags[i]).manifest_id
        < after.next_id by {
        assert(db.tags[i].manifest_id < db.next_id);
    }
}

/// Making sure that a repository is there keeps the store well-formed.
pub proof fn law_wf_ensured_repo(db: DbModel, name: Seq<char>)
    requires
        db.wf(),
        db.repo_id(name).is_some() || db.next_id < u64::MAX,
    ensures
        db.ensured_repo(name).wf(),
{
    if db.repo_id(name).is_none() {
        law_wf_with_repository(db, name, false);
    }
}

/// A change to the blob rows alone keeps the store well-formed.
pub proof fn law_wf_blobs(db: DbModel, after: DbModel)
    requires
        db.wf(),
        after == (DbModel { blobs: after.blobs, ..db }),
    ensures
        after.wf(),
{
}

/// A change to users, API keys without a new identifier, or scopes keeps the store
/// well-formed.
pub proof fn law_wf_accounts(db: DbModel, after: DbModel)
    requires
        db.wf(),
        after == (DbModel {
            users: after.users,
            clients: after.clients,
            repository_scopes: after.repository_scopes,
            ..db
        }),
    ensures
        after.wf(),
{
}

/// A new API key keeps the store well-formed.
pub proof fn law_wf_with_client(db: DbModel, client_id: Seq<char>, secret: Seq<char>, user_id: Seq<char>, created_at: i64)
    requires
        db.wf(),
        db.next_id < u64::MAX,
    ensures
        db.with_client(client_id, secret, user_id, created_at).wf(),
{
    let after = db.with_client(client_id, secret, user_id, created_at);
    assert forall|i: int| 0 <= i < after.repositories.len() implies (#[trigger] after.repositories[i]).id
        < after.next_id by {
        assert(db.repositories[i].id < db.next_id);
    }
    assert forall|i: int| 0 <= i < after.manifests.len() implies (#[trigger] after.manifests[i]).id
        < after.next_id by {
        assert(db.manifests[i].id < db.next_id);
    }
    assert forall|i: int| 0 <= i < after.manifest_layers.len() implies (#[trigger] after.manifest_layers[i]).manifest_id
        < after.next_id by {
        assert(db.manifest_layers[i].manifest_id < db.next_id);
    }
    assert forall|i: int| 0 <= i < after.tags.len() implies (#[trigger] after.tags[i]).manifest_id
        < after.next_id by {
        assert(db.tags[i].manifest_id < db.next_id);
    }
}

/// Opening a session keeps the store well-formed.
pub proof fn law_wf_with_session(db: DbModel, name: Seq<char>, uuid: Seq<char>)
    requires
        db.wf(),
        db.session_error(name, uuid).is_none(),
    ensures
        db.with_session(name, uuid).wf(),
{
    law_wf_ensured_repo(db, name);
    let base = db.ensured_repo(name);
    let row = UploadModel { repository_id: db.ensured_repo_id(name), uuid, current_chunk: 0, finalized: false };
    lemma_first_where(db.uploads, upload_with(uuid));
    assert forall|i: int| 0 <= i < base.uploads.len() implies !(same_uuid())(#[trigger] base.uploads[i], row) by {
        assert(!(upload_with(uuid))(db.uploads[i]));
    }
    lemma_pairwise_push(base.uploads, row, same_uuid());
}

/// Moving or closing a session keeps the store well-formed.
pub proof fn law_wf_upload_set(db: DbModel, uuid: Seq<char>, next: UploadModel)
    requires
        db.wf(),
        next.uuid == uuid,
    ensures
        db.with_upload_set(uuid, next).wf(),
{
    lemma_first_where(db.uploads, upload_with(uuid));
    let i = first_where(db.uploads, upload_with(uuid));
    if i < db.uploads.len() {
        lemma_pairwise_update(db.uploads, i, next, same_uuid());
    }
}

/// Taking a chunk keeps the store well-formed.
pub proof fn law_wf_chunk(
    db: DbModel,
    root: Seq<char>,
    name: Seq<char>,
    uuid: Seq<char>,
    content_length: i64,
    range: Option<(i64, i64)>,
    data: Seq<u8>,
)
    requires
        db.wf(),
        db.chunk_error(name, uuid, content_length, range).is_none(),
    ensures
        crate::uploads::chunk_db(db, root, name, uuid, content_length, range, data).wf(),
{
    let current = db.session_in(name, uuid).unwrap();
    let path = crate::uploads::chunk_file(root, name, uuid, current);
    let mid = db.with_chunk(db.repo_id(name).unwrap(), crate::digest::digest_of(data), path, uuid, current);
    law_wf_blobs(db, mid);
    lemma_first_where(mid.uploads, upload_with(uuid));
    let u = mid.upload(uuid).unwrap();
    law_wf_upload_set(
        mid,
        uuid,
        UploadModel { current_chunk: crate::uploads::chunk_next(range, content_length).unwrap(), ..u },
    );
}

/// Closing a session keeps the store well-formed.
pub proof fn law_wf_finished(db: DbModel, repo: u64, uuid: Seq<char>, digest: Seq<char>, path: Seq<char>)
    requires
        db.wf(),
    ensures
        db.finished(repo, uuid, digest, path).wf(),
{
    let mid = db.keep_blobs(crate::database::not_chunk_of(repo, uuid)).installed(repo, digest, path);
    law_wf_blobs(db, mid);
    match mid.upload(uuid) {
        Some(u) => {
            lemma_first_where(mid.uploads, upload_with(uuid));
            law_wf_upload_set(mid, uuid, UploadModel { finalized: true, ..u });
        },
        None => {},
    }
}

/// Installing or mounting a blob in a repository that is made sure of keeps the store
/// well-formed.
pub proof fn law_wf_installed(db: DbModel, name: Seq<char>, digest: Seq<char>, path: Seq<char>)
    requires
        db.wf(),
        db.repo_id(name).is_some() || db.next_id < u64::MAX,
    ensures
        db.ensured_repo(name).installed(db.ensured_repo_id(name), digest, path).wf(),
        db.ensured_repo(name).mounted(db.ensured_repo_id(name), digest, path).wf(),
{
    law_wf_ensured_repo(db, name);
    let base = db.ensured_repo(name);
    law_wf_blobs(base, base.installed(db.ensured_repo_id(name), digest, path));
    law_wf_blobs(base, base.mounted(db.ensured_repo_id(name), digest, path));
}

/// Putting a manifest keeps the store well-formed.
pub proof fn law_wf_put_manifest(
    db: DbModel,
    name: Seq<char>,
    reference: Seq<char>,
    digest: Seq<char>,
    path: Seq<char>,
    m: ImageManifestModel,
)
    requires
        db.wf(),
        db.put_manifest_error(name, m).is_none(),
    ensures
        db.put_manifest(db.repo_id(name).unwrap(), reference, digest, path, m).wf(),
{
    let repo = db.repo_id(name).unwrap();
    let after = db.put_manifest(repo, reference, digest, path, m);
    crate::laws::law_ids_below_put(db, name, reference, digest, path, m);
    crate::laws::lemma_put_resolves(db, repo, reference, digest, path, m);
    let row = after.manifests[db.manifests.len() as int];
    assert forall|i: int| 0 <= i < db.manifests.len() implies !(same_manifest_id())(
        #[trigger] db.manifests[i],
        row,
    ) by {
        assert(db.manifests[i].id < db.next_id);
    }
    lemma_pairwise_push(db.manifests, row, same_manifest_id());
    let cond = tag_named(repo, reference);
    lemma_first_where(db.tags, cond);
    let t = first_where(db.tags, cond);
    if t < db.tags.len() {
        let tag = TagModel { manifest_id: db.next_id, ..db.tags[t] };
        lemma_pairwise_update(db.tags, t, tag, same_tag());
        assert(after.tags == db.tags.update(t, tag));
    } else {
        let tag = TagModel { repository_id: repo, tag: reference, manifest_id: db.next_id };
        assert forall|i: int| 0 <= i < db.tags.len() implies !(same_tag())(#[trigger] db.tags[i], tag) by {
            assert(!cond(db.tags[i]));
        }
        lemma_pairwise_push(db.tags, tag, same_tag());
        assert(after.tags == db.tags.push(tag));
    }
    assert(after.repositories == db.repositories);
    assert(after.uploads == db.uploads);
}

/// Deleting a manifest keeps the store well-formed.
pub proof fn law_wf_delete_manifest(db: DbModel, at: int)
    requires
        db.wf(),
        0 <= at < db.manifests.len(),
    ensures
        db.delete_manifest(at).wf(),
{
    crate::laws::law_ids_below_delete(db, at);
    let id = db.manifests[at].id;
    lemma_pairwise_filter(db.manifests, manifest_without_id(id), same_manifest_id());
    lemma_pairwise_filter(db.tags, tag_not_of(id), same_tag());
}

/// Collecting garbage keeps the store well-formed.
pub proof fn law_wf_collected(db: DbModel)
    requires
        db.wf(),
    ensures
        db.collected().wf(),
{
    lemma_pairwise_filter(db.uploads, crate::database::upload_open(), same_uuid());
}

/// Deleting a repository keeps the store well-formed.
pub proof fn law_wf_without_repository(db: DbModel, repo: u64, name: Seq<char>)
    requires
        db.wf(),
    ensures
        db.without_repository(repo, name).wf(),
{
    let after = db.without_repository(repo, name);
    lemma_pairwise_filter(db.repositories, crate::database::repo_not_named(name), same_name());
    lemma_pairwise_filter(db.repositories, crate::database::repo_not_named(name), same_repo_id());
    lemma_pairwise_filter(db.manifests, crate::index::manifest_outside(repo), same_manifest_id());
    lemma_pairwise_filter(db.tags, crate::index::tag_outside(repo), same_tag());
    lemma_pairwise_filter(db.uploads, crate::database::upload_outside(repo), same_uuid());
    lemma_filter_members(db.repositories, crate::database::repo_not_named(name));
    lemma_filter_members(db.manifests, crate::index::manifest_outside(repo));
    lemma_filter_members(db.manifest_layers, crate::index::layer_outside(repo));
    lemma_filter_members(db.tags, crate::index::tag_outside(repo));
    assert forall|i: int| 0 <= i < after.repositories.len() implies (#[trigger] after.repositories[i]).id
        < after.next_id by {
        assert(db.repositories.contains(after.repositories[i]));
        let k = choose|k: int| 0 <= k < db.repositories.len() && db.repositories[k] == after.repositories[i];
        assert(db.repositories[k].id < db.next_id);
    }
    assert forall|i: int| 0 <= i < after.manifests.len() implies (#[trigger] after.manifests[i]).id
        < after.next_id by {
        assert(db.manifests.contains(after.manifests[i]));
        let k = choose|k: int| 0 <= k < db.manifests.len() && db.manifests[k] == after.manifests[i];
        assert(db.manifests[k].id < db.next_id);
    }
    assert forall|i: int| 0 <= i < after.manifest_layers.len() implies (#[trigger] after.manifest_layers[i]).manifest_id
        < after.next_id by {
        assert(db.manifest_layers.contains(after.manifest_layers[i]));
        let k = choose|k: int|
            0 <= k < db.manifest_layers.len() && db.manifest_layers[k] == after.manifest_layers[i];
        assert(db.manifest_layers[k].manifest_id < db.next_id);
    }
    assert forall|i: int| 0 <= i < after.tags.len() implies (#[trigger] after.tags[i]).manifest_id
        < after.next_id by {
        assert(db.tags.contains(after.tags[i]));
        let k = choose|k: int| 0 <= k < db.tags.len() && db.tags[k] == after.tags[i];
        assert(db.tags[k].manifest_id < db.next_id);
    }
}

} // verus!

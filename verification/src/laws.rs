//! What holds of the registry whatever its state: statements that relate several
//! operations, proved over the functions of the model that the operations compute.

use crate::database::{blob_at, repo_named, upload_with, DbModel};
use crate::digest::{digest_of, with_prefix};
use crate::error::StorageError;
use crate::index::{
    blob_survives, bumped, count_of, dropped, layer_names, layer_not_of, layer_of, layer_rows,
    lemma_count_of, manifest_with_id, manifest_without_id, tag_named,
};
use crate::manifest_store::{manifest_file, write_manifest_error};
use crate::manifests::manifest_reply;
use crate::paths::{
    blobs_word, lemma_join_valid, lemma_plain_is_valid, lemma_words_plain, plain_name, plain_path,
};
use crate::response::BodyModel;
use crate::rows::{
    BlobModel, ManifestLayerModel, ManifestModel, RepositoryModel, TagModel, UploadModel,
};
use crate::shared::{DescriptorModel, ImageManifestModel};
use crate::table::{first_where, lemma_first_where, lemma_first_where_is};
use crate::uploads::{chunk_db, chunk_dir};
use vstd::prelude::*;

verus! {

/// The first row that meets a condition, after one more row was appended.
pub proof fn lemma_first_where_push<M>(rows: Seq<M>, row: M, p: spec_fn(M) -> bool)
    ensures
        first_where(rows.push(row), p) == (if first_where(rows, p) < rows.len() {
            first_where(rows, p)
        } else if p(row) {
            rows.len() as int
        } else {
            rows.len() as int + 1
        }),
{
    lemma_first_where(rows, p);
    let next = rows.push(row);
    let i = first_where(rows, p);
    if i < rows.len() {
        assert forall|k: int| 0 <= k < i implies !p(#[trigger] next[k]) by {
            assert(next[k] == rows[k]);
        }
        assert(next[i] == rows[i]);
        lemma_first_where_is(next, p, i);
    } else {
        assert forall|k: int| 0 <= k < rows.len() implies !p(#[trigger] next[k]) by {
            assert(next[k] == rows[k]);
        }
        if p(row) {
            lemma_first_where_is(next, p, rows.len() as int);
        } else {
            assert forall|k: int| 0 <= k < next.len() implies !p(#[trigger] next[k]) by {
                if k < rows.len() {
                    assert(next[k] == rows[k]);
                }
            }
            lemma_first_where_is(next, p, next.len() as int);
        }
    }
}

/// The first row that meets a condition stays the first when a row is replaced by one
/// that meets the condition exactly if the old one did.
pub proof fn lemma_first_where_update<M>(rows: Seq<M>, i: int, row: M, p: spec_fn(M) -> bool)
    requires
        0 <= i < rows.len(),
        p(rows[i]) == p(row),
    ensures
        first_where(rows.update(i, row), p) == first_where(rows, p),
{
    lemma_first_where(rows, p);
    let next = rows.update(i, row);
    let j = first_where(rows, p);
    assert forall|k: int| 0 <= k < j implies !p(#[trigger] next[k]) by {
        if k != i {
            assert(next[k] == rows[k]);
        }
    }
    if j < rows.len() {
        if j != i {
            assert(next[j] == rows[j]);
        }
    }
    lemma_first_where_is(next, p, j);
}

/// A condition that no row meets keeps no row; one that every row meets keeps every row.
pub proof fn lemma_filter_none_all<M>(rows: Seq<M>, p: spec_fn(M) -> bool)
    ensures
        (forall|k: int| 0 <= k < rows.len() ==> !p(#[trigger] rows[k])) ==> rows.filter(p) == Seq::<M>::empty(),
        (forall|k: int| 0 <= k < rows.len() ==> p(#[trigger] rows[k])) ==> rows.filter(p) == rows,
    decreases rows.len(),
{
    reveal(Seq::filter);
    if rows.len() > 0 {
        let init = rows.drop_last();
        lemma_filter_none_all(init, p);
        if forall|k: int| 0 <= k < rows.len() ==> !p(#[trigger] rows[k]) {
            assert forall|k: int| 0 <= k < init.len() implies !p(#[trigger] init[k]) by {
                assert(init[k] == rows[k]);
            }
            assert(!p(rows[rows.len() - 1]));
        }
        if forall|k: int| 0 <= k < rows.len() ==> p(#[trigger] rows[k]) {
            assert forall|k: int| 0 <= k < init.len() implies p(#[trigger] init[k]) by {
                assert(init[k] == rows[k]);
            }
            assert(p(rows[rows.len() - 1]));
            assert(init.push(rows.last()) =~= rows);
        }
    }
}

impl DbModel {
    /// Every identifier in use lies below the next one to be given out.
    pub open spec fn ids_below(self) -> bool {
        &&& forall|i: int| 0 <= i < self.repositories.len() ==> (#[trigger] self.repositories[i]).id < self.next_id
        &&& forall|i: int| 0 <= i < self.manifests.len() ==> (#[trigger] self.manifests[i]).id < self.next_id
        &&& forall|i: int|
            0 <= i < self.manifest_layers.len() ==> (#[trigger] self.manifest_layers[i]).manifest_id
                < self.next_id
        &&& forall|i: int| 0 <= i < self.tags.len() ==> (#[trigger] self.tags[i]).manifest_id < self.next_id
    }
}

/// A store without rows keeps the rule of the content store, whatever files there are.
pub proof fn law_backed_empty(files: Map<Seq<char>, Seq<u8>>)
    ensures
        crate::storage::backed(DbModel::empty(), files),
{
}

/// A store without rows has every identifier below the next.
pub proof fn law_ids_below_empty()
    ensures
        DbModel::empty().ids_below(),
{
}

/// Putting a manifest keeps every identifier below the next.
pub proof fn law_ids_below_put(
    db: DbModel,
    name: Seq<char>,
    reference: Seq<char>,
    digest: Seq<char>,
    path: Seq<char>,
    m: ImageManifestModel,
)
    requires
        db.ids_below(),
        db.put_manifest_error(name, m).is_none(),
    ensures
        db.put_manifest(db.repo_id(name).unwrap(), reference, digest, path, m).ids_below(),
{
    let repo = db.repo_id(name).unwrap();
    let after = db.put_manifest(repo, reference, digest, path, m);
    assert forall|i: int| 0 <= i < after.manifests.len() implies (#[trigger] after.manifests[i]).id
        < after.next_id by {
        if i < db.manifests.len() {
            assert(after.manifests[i] == db.manifests[i]);
        }
    }
    assert forall|i: int| 0 <= i < after.manifest_layers.len() implies (#[trigger] after.manifest_layers[i]).manifest_id
        < after.next_id by {
        if i < db.manifest_layers.len() {
            assert(after.manifest_layers[i] == db.manifest_layers[i]);
        }
    }
    lemma_first_where(db.tags, tag_named(repo, reference));
    let t = first_where(db.tags, tag_named(repo, reference));
    if t < db.tags.len() {
        assert(after.tags == db.tags.update(t, TagModel { manifest_id: db.next_id, ..db.tags[t] }));
    } else {
        assert(after.tags == db.tags.push(
            TagModel { repository_id: repo, tag: reference, manifest_id: db.next_id },
        ));
    }
    assert forall|i: int| 0 <= i < after.tags.len() implies (#[trigger] after.tags[i]).manifest_id
        < after.next_id by {
        if i < db.tags.len() && i != t {
            assert(after.tags[i] == db.tags[i]);
        }
    }
}

/// Deleting a manifest keeps every identifier below the next.
pub proof fn law_ids_below_delete(db: DbModel, at: int)
    requires
        db.ids_below(),
        0 <= at < db.manifests.len(),
    ensures
        db.delete_manifest(at).ids_below(),
{
    let after = db.delete_manifest(at);
    let id = db.manifests[at].id;
    crate::table::lemma_filter_members(db.manifests, manifest_without_id(id));
    crate::table::lemma_filter_members(db.manifest_layers, layer_not_of(id));
    crate::table::lemma_filter_members(db.tags, crate::index::tag_not_of(id));
    assert forall|i: int| 0 <= i < after.manifests.len() implies (#[trigger] after.manifests[i]).id
        < after.next_id by {
        assert(db.manifests.contains(after.manifests[i]));
        let k = choose|k: int| 0 <= k < db.manifests.len() && db.manifests[k] == after.manifests[i];
        assert(db.manifests[k].id < db.next_id);
    }
    assert forall|i: int| 0 <= i < after.manifest_layers.len() implies (#[trigger] after.manifest_layers[i]).manifest_id
        < after.next_id by {
        assert(db.manifest_layers.contains(after.manifest_layers[i]));
        let k = choose|k: int|
            0 <= k < db.manifest_layers.len() && db.manifest_layers[k] == after.manifest_layers[i];
        assert(db.manifest_layers[k].manifest_id < db.next_id);
    }
    assert forall|i: int| 0 <= i < after.tags.len() implies (#[trigger] after.tags[i]).manifest_id
        < after.next_id by {
        assert(db.tags.contains(after.tags[i]));
        let k = choose|k: int| 0 <= k < db.tags.len() && db.tags[k] == after.tags[i];
        assert(db.tags[k].manifest_id < db.next_id);
    }
}

/// After a manifest was put, each of its layers has a row, and the blob of each layer is
/// referenced at least once.
pub proof fn law_put_manifest_layers(
    db: DbModel,
    name: Seq<char>,
    reference: Seq<char>,
    digest: Seq<char>,
    path: Seq<char>,
    m: ImageManifestModel,
    i: int,
)
    requires
        db.put_manifest_error(name, m).is_none(),
        0 <= i < m.layers.len(),
    ensures
        ({
            let repo = db.repo_id(name).unwrap();
            let after = db.put_manifest(repo, reference, digest, path, m);
            let layer = with_prefix(m.layers[i].digest);
            &&& exists|k: int|
                0 <= k < after.blobs.len() && (#[trigger] after.blobs[k]).is_blob(repo, layer)
                    && after.blobs[k].ref_count >= 1
            &&& exists|j: int|
                0 <= j < after.manifest_layers.len() && (#[trigger] after.manifest_layers[j])
                    == (ManifestLayerModel {
                    manifest_id: db.next_id,
                    repository_id: repo,
                    digest: layer,
                    size: m.layers[i].size as i64,
                    media_type: m.layers[i].media_type,
                })
        }),
{
    let repo = db.repo_id(name).unwrap();
    let after = db.put_manifest(repo, reference, digest, path, m);
    let layer = with_prefix(m.layers[i].digest);
    let names = layer_names(m.layers);
    assert(db.blob_exists(repo, layer));
    lemma_first_where(db.blobs, blob_at(repo, layer));
    let k = first_where(db.blobs, blob_at(repo, layer));
    assert(db.blobs[k].is_blob(repo, layer));
    assert(names[i] == layer);
    assert(names.contains(layer));
    lemma_count_of(names, layer);
    assert(after.blobs[k] == bumped(db.blobs[k], repo, names));
    assert(after.blobs[k].is_blob(repo, layer) && after.blobs[k].ref_count >= 1);
    let j = db.manifest_layers.len() + i;
    assert(after.manifest_layers[j] == layer_rows(db.next_id, repo, m.layers)[i]);
}

/// After a manifest was put under a reference, the reference names the new manifest.
pub proof fn lemma_put_resolves(
    db: DbModel,
    repo: u64,
    reference: Seq<char>,
    digest: Seq<char>,
    path: Seq<char>,
    m: ImageManifestModel,
)
    requires
        db.ids_below(),
        db.next_id < u64::MAX,
    ensures
        db.put_manifest(repo, reference, digest, path, m).resolve(repo, reference) == Some(
            db.manifests.len() as int,
        ),
        db.put_manifest(repo, reference, digest, path, m).manifests == db.manifests.push(
            ManifestModel {
                id: db.next_id,
                repository_id: repo,
                digest,
                file_path: path,
                media_type: m.media_type,
                size: m.config_size(),
                schema_version: m.schema_version,
            },
        ),
{
    let after = db.put_manifest(repo, reference, digest, path, m);
    let cond = tag_named(repo, reference);
    lemma_first_where(db.tags, cond);
    let t = first_where(db.tags, cond);
    if t < db.tags.len() {
        let row = TagModel { manifest_id: db.next_id, ..db.tags[t] };
        lemma_first_where_update(db.tags, t, row, cond);
        assert(after.tags == db.tags.update(t, row));
        assert(after.tags[t].manifest_id == db.next_id);
    } else {
        let row = TagModel { repository_id: repo, tag: reference, manifest_id: db.next_id };
        lemma_first_where_push(db.tags, row, cond);
        assert(after.tags == db.tags.push(row));
        assert(after.tags[t].manifest_id == db.next_id);
    }
    let with_id = manifest_with_id(db.next_id);
    assert forall|k: int| 0 <= k < db.manifests.len() implies !with_id(#[trigger] after.manifests[k]) by {
        assert(after.manifests[k] == db.manifests[k]);
        assert(db.manifests[k].id < db.next_id);
    }
    lemma_first_where_is(after.manifests, with_id, db.manifests.len() as int);
}

/// What a put adds to the tables of layers and blobs.
pub proof fn lemma_put_parts(
    db: DbModel,
    repo: u64,
    reference: Seq<char>,
    digest: Seq<char>,
    path: Seq<char>,
    m: ImageManifestModel,
)
    ensures
        db.put_manifest(repo, reference, digest, path, m).manifest_layers == db.manifest_layers
            + layer_rows(db.next_id, repo, m.layers),
        db.put_manifest(repo, reference, digest, path, m).blobs == db.blobs.map_values(
            |b: BlobModel| bumped(b, repo, layer_names(m.layers)),
        ),
        db.put_manifest(repo, reference, digest, path, m).repositories == db.repositories,
{
}

/// Without the manifest that was appended last, the manifests are those before.
pub proof fn lemma_manifests_restored(manifests: Seq<ManifestModel>, row: ManifestModel)
    requires
        forall|k: int| 0 <= k < manifests.len() ==> (#[trigger] manifests[k]).id != row.id,
    ensures
        manifests.push(row).filter(manifest_without_id(row.id)) == manifests,
{
    let without = manifest_without_id(row.id);
    crate::table::lemma_filter_push(manifests, row, without);
    assert forall|k: int| 0 <= k < manifests.len() implies without(#[trigger] manifests[k]) by {
        assert(manifests[k].id != row.id);
    }
    lemma_filter_none_all(manifests, without);
}

/// Among layer rows of older manifests followed by the rows of a new manifest, the rows of
/// the new manifest are exactly the new ones.
pub proof fn lemma_layers_restored(layers: Seq<ManifestLayerModel>, id: u64, repo: u64, added: Seq<DescriptorModel>)
    requires
        forall|k: int| 0 <= k < layers.len() ==> (#[trigger] layers[k]).manifest_id != id,
    ensures
        (layers + layer_rows(id, repo, added)).filter(layer_not_of(id)) == layers,
        (layers + layer_rows(id, repo, added)).filter(layer_of(id)) == layer_rows(id, repo, added),
{
    let fresh = layer_rows(id, repo, added);
    Seq::filter_distributes_over_add(layers, fresh, layer_not_of(id));
    Seq::filter_distributes_over_add(layers, fresh, layer_of(id));
    assert forall|k: int| 0 <= k < layers.len() implies (layer_not_of(id))(#[trigger] layers[k]) by {
        assert(layers[k].manifest_id != id);
    }
    assert forall|k: int| 0 <= k < layers.len() implies !(layer_of(id))(#[trigger] layers[k]) by {
        assert(layers[k].manifest_id != id);
    }
    assert forall|k: int| 0 <= k < fresh.len() implies !(layer_not_of(id))(#[trigger] fresh[k]) by {
    }
    assert forall|k: int| 0 <= k < fresh.len() implies (layer_of(id))(#[trigger] fresh[k]) by {
    }
    lemma_filter_none_all(layers, layer_not_of(id));
    lemma_filter_none_all(layers, layer_of(id));
    lemma_filter_none_all(fresh, layer_not_of(id));
    lemma_filter_none_all(fresh, layer_of(id));
    assert(layers + Seq::<ManifestLayerModel>::empty() =~= layers);
    assert(Seq::<ManifestLayerModel>::empty() + fresh =~= fresh);
}

/// The digests of the rows that record the layers of a manifest are the names of the
/// layers.
pub proof fn lemma_layer_row_digests(id: u64, repo: u64, added: Seq<DescriptorModel>)
    ensures
        layer_rows(id, repo, added).map_values(|l: ManifestLayerModel| l.digest) =~= layer_names(added),
{
}

/// Taking away the references that were just added gives every blob the count that it had.
pub proof fn lemma_counts_restored(blobs: Seq<BlobModel>, repo: u64, names: Seq<Seq<char>>)
    requires
        forall|i: int|
            0 <= i < blobs.len()
                && (#[trigger] blobs[i]).is_blob(repo, blobs[i].digest) ==> blobs[i].ref_count
                + count_of(names, blobs[i].digest) <= u64::MAX,
    ensures
        blobs.map_values(|b: BlobModel| bumped(b, repo, names)).map_values(
            |b: BlobModel| dropped(b, repo, names),
        ) == blobs,
{
    let raised = blobs.map_values(|b: BlobModel| bumped(b, repo, names));
    let lowered = raised.map_values(|b: BlobModel| dropped(b, repo, names));
    assert forall|k: int| 0 <= k < blobs.len() implies #[trigger] lowered[k] == blobs[k] by {
        assert(raised[k] == bumped(blobs[k], repo, names));
        assert(lowered[k] == dropped(raised[k], repo, names));
    }
    assert(lowered =~= blobs);
}

/// What a deletion leaves of the tables of manifests, layers and blobs.
pub proof fn lemma_delete_parts(db: DbModel, at: int)
    ensures
        db.delete_manifest(at).manifests == db.manifests.filter(manifest_without_id(db.manifests[at].id)),
        db.delete_manifest(at).manifest_layers == db.manifest_layers.filter(
            layer_not_of(db.manifests[at].id),
        ),
        db.delete_manifest(at).blobs == db.blobs.map_values(
            |b: BlobModel| dropped(b, db.manifests[at].repository_id, db.layer_digests(db.manifests[at].id)),
        ).filter(blob_survives(db.manifests[at].repository_id, db.layer_digests(db.manifests[at].id))),
{
}

/// Deleting a manifest right after it was put leaves the manifests that were there.
pub proof fn lemma_restored_manifests(
    db: DbModel,
    repo: u64,
    reference: Seq<char>,
    digest: Seq<char>,
    path: Seq<char>,
    m: ImageManifestModel,
)
    requires
        db.ids_below(),
        db.next_id < u64::MAX,
    ensures
        db.put_manifest(repo, reference, digest, path, m).delete_manifest(db.manifests.len() as int).manifests
            == db.manifests,
{
    let put = db.put_manifest(repo, reference, digest, path, m);
    let at = db.manifests.len() as int;
    lemma_put_resolves(db, repo, reference, digest, path, m);
    lemma_delete_parts(put, at);
    let row = put.manifests[at];
    assert forall|k: int| 0 <= k < db.manifests.len() implies (#[trigger] db.manifests[k]).id != row.id by {
        assert(db.manifests[k].id < db.next_id);
    }
    lemma_manifests_restored(db.manifests, row);
}

/// Deleting a manifest right after it was put leaves the layer rows that were there, and
/// the layers that the deletion takes references from are those of the manifest.
pub proof fn lemma_restored_layers(
    db: DbModel,
    repo: u64,
    reference: Seq<char>,
    digest: Seq<char>,
    path: Seq<char>,
    m: ImageManifestModel,
)
    requires
        db.ids_below(),
        db.next_id < u64::MAX,
    ensures
        db.put_manifest(repo, reference, digest, path, m).delete_manifest(db.manifests.len() as int).manifest_layers
            == db.manifest_layers,
        db.put_manifest(repo, reference, digest, path, m).layer_digests(db.next_id) == layer_names(
            m.layers,
        ),
{
    let put = db.put_manifest(repo, reference, digest, path, m);
    let at = db.manifests.len() as int;
    lemma_put_resolves(db, repo, reference, digest, path, m);
    lemma_put_parts(db, repo, reference, digest, path, m);
    lemma_delete_parts(put, at);
    assert(put.manifests[at].id == db.next_id);
    assert forall|k: int| 0 <= k < db.manifest_layers.len() implies (#[trigger] db.manifest_layers[k]).manifest_id
        != db.next_id by {
        assert(db.manifest_layers[k].manifest_id < db.next_id);
    }
    lemma_layers_restored(db.manifest_layers, db.next_id, repo, m.layers);
    let fresh = layer_rows(db.next_id, repo, m.layers);
    let kept = put.manifest_layers.filter(layer_of(db.next_id));
    assert(kept == fresh);
    lemma_layer_row_digests(db.next_id, repo, m.layers);
    assert(put.layer_digests(db.next_id) =~= fresh.map_values(|l: ManifestLayerModel| l.digest));
}

/// Deleting a manifest right after it was put gives every blob the count that it had, and
/// removes the blobs of its layers that nothing referenced before.
pub proof fn lemma_restored_blobs(
    db: DbModel,
    repo: u64,
    reference: Seq<char>,
    digest: Seq<char>,
    path: Seq<char>,
    m: ImageManifestModel,
)
    requires
        db.ids_below(),
        db.next_id < u64::MAX,
        db.refs_fit(repo, layer_names(m.layers)),
    ensures
        db.put_manifest(repo, reference, digest, path, m).delete_manifest(db.manifests.len() as int).blobs
            == db.blobs.filter(blob_survives(repo, layer_names(m.layers))),
{
    let put = db.put_manifest(repo, reference, digest, path, m);
    let at = db.manifests.len() as int;
    lemma_put_resolves(db, repo, reference, digest, path, m);
    lemma_put_parts(db, repo, reference, digest, path, m);
    lemma_restored_layers(db, repo, reference, digest, path, m);
    lemma_delete_parts(put, at);
    assert(put.manifests[at].id == db.next_id);
    assert(put.manifests[at].repository_id == repo);
    lemma_counts_restored(db.blobs, repo, layer_names(m.layers));
}

/// Deleting a manifest right after it was put takes back what the put added: the rows of
/// the manifest and of its layers are gone, and every blob has the reference count that it
/// had. Only a blob of one of the layers that nothing referenced before is gone as well: its
/// count has come back to 0.
pub proof fn law_delete_restores_counts(
    db: DbModel,
    name: Seq<char>,
    reference: Seq<char>,
    digest: Seq<char>,
    path: Seq<char>,
    m: ImageManifestModel,
)
    requires
        db.ids_below(),
        db.put_manifest_error(name, m).is_none(),
    ensures
        ({
            let repo = db.repo_id(name).unwrap();
            let put = db.put_manifest(repo, reference, digest, path, m);
            let at = db.manifests.len() as int;
            &&& put.resolve(repo, reference) == Some(at)
            &&& put.delete_manifest(at).manifests == db.manifests
            &&& put.delete_manifest(at).manifest_layers == db.manifest_layers
            &&& put.delete_manifest(at).blobs == db.blobs.filter(
                blob_survives(repo, layer_names(m.layers)),
            )
        }),
{
    let repo = db.repo_id(name).unwrap();
    lemma_put_resolves(db, repo, reference, digest, path, m);
    lemma_restored_manifests(db, repo, reference, digest, path, m);
    lemma_restored_layers(db, repo, reference, digest, path, m);
    lemma_restored_blobs(db, repo, reference, digest, path, m);
}

/// What was put as a manifest is what a fetch by the same reference returns, with the
/// digest of the bytes in `Docker-Content-Digest`.
pub proof fn law_manifest_round_trip(
    db: DbModel,
    files: Map<Seq<char>, Seq<u8>>,
    root: Seq<char>,
    name: Seq<char>,
    reference: Seq<char>,
    data: Seq<u8>,
    m: ImageManifestModel,
)
    requires
        db.ids_below(),
        write_manifest_error(db, root, name, reference, Some(m)).is_none(),
    ensures
        ({
            let path = manifest_file(root, name, reference);
            let after = db.put_manifest(db.repo_id(name).unwrap(), reference, digest_of(data), path, m);
            let reply = manifest_reply(after, files.insert(path, data), name, reference, false);
            &&& reply.status == 200
            &&& reply.body == BodyModel::Bytes(data)
            &&& reply.headers[0] == ("Docker-Content-Digest"@, digest_of(data))
        }),
{
    let repo = db.repo_id(name).unwrap();
    let path = manifest_file(root, name, reference);
    lemma_put_resolves(db, repo, reference, digest_of(data), path, m);
    let after = db.put_manifest(repo, reference, digest_of(data), path, m);
    assert(after.repositories == db.repositories);
    assert(after.repo_id(name) == Some(repo));
}

/// The push of a manifest to a repository with a proper name, under a tag or a digest, is
/// answered 201 with its location and the digest of its bytes, unless the path holds the
/// file of a blob or the metadata store refuses: the repository is unknown, a layer is
/// unknown, or a counter is full.
pub proof fn law_push_created(
    db: DbModel,
    root: Seq<char>,
    name: Seq<char>,
    reference: Seq<char>,
    data: Seq<u8>,
    m: ImageManifestModel,
)
    requires
        crate::paths::valid_namespace(name),
        crate::paths::valid_reference(reference),
        !db.path_in_use(manifest_file(root, name, reference)),
        db.put_manifest_error(name, m).is_none(),
    ensures
        write_manifest_error(db, root, name, reference, Some(m)).is_none(),
        crate::manifests::push_reply(
            name,
            reference,
            data,
            write_manifest_error(db, root, name, reference, Some(m)),
        ) == (crate::response::ResponseModel {
            status: 201,
            headers: seq![
                ("Location"@, crate::manifests::manifest_location(name, reference)),
                ("Docker-Content-Digest"@, digest_of(data)),
            ],
            body: BodyModel::Empty,
        }),
{
    crate::paths::law_namespace_is_path(name);
    lemma_words_plain();
    lemma_plain_is_valid(crate::paths::manifests_word());
    lemma_join_valid(name, crate::paths::manifests_word());
}

/// A manifest that was put under a reference is fetched by its digest as it is fetched by
/// the reference: the same status, headers and bytes. No tag of the repository is named
/// like the digest, and the repository had no manifest with that digest before.
pub proof fn law_fetch_by_digest(
    db: DbModel,
    files: Map<Seq<char>, Seq<u8>>,
    root: Seq<char>,
    name: Seq<char>,
    reference: Seq<char>,
    data: Seq<u8>,
    m: ImageManifestModel,
    head: bool,
)
    requires
        db.ids_below(),
        write_manifest_error(db, root, name, reference, Some(m)).is_none(),
        reference != digest_of(data),
        !crate::table::any_where(db.tags, tag_named(db.repo_id(name).unwrap(), digest_of(data))),
        !crate::table::any_where(
            db.manifests,
            crate::index::manifest_with_digest(db.repo_id(name).unwrap(), digest_of(data)),
        ),
    ensures
        ({
            let path = manifest_file(root, name, reference);
            let after = db.put_manifest(db.repo_id(name).unwrap(), reference, digest_of(data), path, m);
            manifest_reply(after, files.insert(path, data), name, digest_of(data), head) == manifest_reply(
                after,
                files.insert(path, data),
                name,
                reference,
                head,
            )
        }),
{
    let repo = db.repo_id(name).unwrap();
    let digest = digest_of(data);
    let path = manifest_file(root, name, reference);
    lemma_put_resolves(db, repo, reference, digest, path, m);
    let after = db.put_manifest(repo, reference, digest, path, m);
    assert(after.repositories == db.repositories);
    assert(after.repo_id(name) == Some(repo));
    // no tag is named like the digest
    let named = tag_named(repo, digest);
    let cond = tag_named(repo, reference);
    lemma_first_where(db.tags, cond);
    lemma_first_where(db.tags, named);
    let t = first_where(db.tags, cond);
    if t < db.tags.len() {
        let row = TagModel { manifest_id: db.next_id, ..db.tags[t] };
        assert(after.tags == db.tags.update(t, row));
        lemma_first_where_update(db.tags, t, row, named);
    } else {
        let row = TagModel { repository_id: repo, tag: reference, manifest_id: db.next_id };
        assert(after.tags == db.tags.push(row));
        lemma_first_where_push(db.tags, row, named);
    }
    assert(first_where(after.tags, named) == after.tags.len());
    // the new manifest is the first with the digest
    let with_digest = crate::index::manifest_with_digest(repo, digest);
    lemma_first_where(db.manifests, with_digest);
    lemma_first_where_push(db.manifests, after.manifests.last(), with_digest);
    assert(after.manifests == db.manifests.push(after.manifests.last()));
    assert(first_where(after.manifests, with_digest) == db.manifests.len());
    assert(after.resolve(repo, digest) == Some(db.manifests.len() as int));
}

/// Opening a session in a store gives the repository and the session: the session stands
/// at 0.
pub proof fn lemma_session_opened(db: DbModel, name: Seq<char>, uuid: Seq<char>)
    requires
        db.session_error(name, uuid).is_none(),
    ensures
        db.with_session(name, uuid).repo_id(name) == Some(db.ensured_repo_id(name)),
        db.with_session(name, uuid).session_in(name, uuid) == Some(0i64),
        db.with_session(name, uuid).upload(uuid) == Some(
            UploadModel {
                repository_id: db.ensured_repo_id(name),
                uuid,
                current_chunk: 0,
                finalized: false,
            },
        ),
        db.with_session(name, uuid).blobs == db.blobs,
{
    let after = db.with_session(name, uuid);
    let named = repo_named(name);
    lemma_first_where(db.repositories, named);
    if db.repo_id(name).is_none() {
        lemma_first_where_push(
            db.repositories,
            RepositoryModel { id: db.next_id, name, is_public: false },
            named,
        );
    }
    let with = upload_with(uuid);
    lemma_first_where(db.uploads, with);
    lemma_first_where_push(
        db.uploads,
        UploadModel { repository_id: db.ensured_repo_id(name), uuid, current_chunk: 0, finalized: false },
        with,
    );
}

/// The names of a session make a plain path for its chunks.
pub proof fn lemma_chunk_dir_valid(name: Seq<char>, uuid: Seq<char>)
    requires
        plain_path(name),
        plain_name(uuid),
    ensures
        plain_path(crate::uploads::blob_dir(name)),
        plain_path(chunk_dir(name, uuid)),
{
    lemma_words_plain();
    lemma_plain_is_valid(blobs_word());
    lemma_plain_is_valid(uuid);
    lemma_join_valid(name, blobs_word());
    lemma_join_valid(crate::uploads::blob_dir(name), uuid);
}

/// A first chunk with the range `0-n` is taken by a session that was just opened, and a
/// second chunk that starts at 0 again is out of order.
pub proof fn law_replay_out_of_order(
    db: DbModel,
    root: Seq<char>,
    name: Seq<char>,
    uuid: Seq<char>,
    first_length: i64,
    n: i64,
    data: Seq<u8>,
    second_length: i64,
    m: i64,
)
    requires
        db.session_error(name, uuid).is_none(),
        0 <= n < i64::MAX,
    ensures
        ({
            let opened = db.with_session(name, uuid);
            let taken = chunk_db(opened, root, name, uuid, first_length, Some((0i64, n)), data);
            &&& opened.chunk_error(name, uuid, first_length, Some((0i64, n))).is_none()
            &&& taken.chunk_error(name, uuid, second_length, Some((0i64, m))) == Some(
                StorageError::OutOfOrder,
            )
        }),
{
    let opened = db.with_session(name, uuid);
    lemma_session_opened(db, name, uuid);
    lemma_chunk_dir_valid(name, uuid);
    let taken = chunk_db(opened, root, name, uuid, first_length, Some((0i64, n)), data);
    let with = upload_with(uuid);
    lemma_first_where(opened.uploads, with);
    let i = first_where(opened.uploads, with);
    let moved = UploadModel { current_chunk: (n + 1) as i64, ..opened.uploads[i] };
    lemma_first_where_update(opened.uploads, i, moved, with);
    assert(taken.uploads == opened.uploads.update(i, moved));
    assert(taken.repositories == opened.repositories);
    assert(taken.session_in(name, uuid) == Some((n + 1) as i64));
}

} // verus!

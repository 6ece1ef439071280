//! The manifest index of the metadata store: manifests, their layers, the tags that point
//! at them, and the reference counts that manifests put on blobs.

use crate::database::{owned, DbConn, DbModel};
use crate::digest::{add_sha_header, with_prefix};
use crate::error::{MetadataFault, Missing, StorageError};
use crate::rows::{
    clone_opt, opt_text, BlobModel, BlobRow, ManifestLayerModel, ManifestLayerRow, ManifestModel,
    ManifestRow, TagModel, TagRow,
};
use crate::shared::{
    descriptor_views, Descriptor, DescriptorModel, ImageManifest, ImageManifestModel,
};
use crate::table::{
    first_where, lemma_filter_push, lemma_views_push, position, retain, views_of, Probe,
};
use crate::text::string_views;
use vstd::prelude::*;

verus! {

/// The tag `tag` of repository `repo`.
pub open spec fn tag_named(repo: u64, tag: Seq<char>) -> spec_fn(TagModel) -> bool {
    |t: TagModel| t.repository_id == repo && t.tag == tag
}

/// The tag does not point at manifest `manifest`.
pub open spec fn tag_not_of(manifest: u64) -> spec_fn(TagModel) -> bool {
    |t: TagModel| t.manifest_id != manifest
}

/// The tag belongs to repository `repo`.
pub open spec fn tag_in(repo: u64) -> spec_fn(TagModel) -> bool {
    |t: TagModel| t.repository_id == repo
}

/// The tag belongs to another repository than `repo`.
pub open spec fn tag_outside(repo: u64) -> spec_fn(TagModel) -> bool {
    |t: TagModel| t.repository_id != repo
}

/// The manifest has the identifier `id`.
pub open spec fn manifest_with_id(id: u64) -> spec_fn(ManifestModel) -> bool {
    |m: ManifestModel| m.id == id
}

/// The manifest has another identifier than `id`.
pub open spec fn manifest_without_id(id: u64) -> spec_fn(ManifestModel) -> bool {
    |m: ManifestModel| m.id != id
}

/// The manifest of repository `repo` with the digest `digest`.
pub open spec fn manifest_with_digest(repo: u64, digest: Seq<char>) -> spec_fn(
    ManifestModel,
) -> bool {
    |m: ManifestModel| m.repository_id == repo && m.digest == digest
}

/// The manifest belongs to repository `repo`.
pub open spec fn manifest_in(repo: u64) -> spec_fn(ManifestModel) -> bool {
    |m: ManifestModel| m.repository_id == repo
}

/// The manifest belongs to another repository than `repo`.
pub open spec fn manifest_outside(repo: u64) -> spec_fn(ManifestModel) -> bool {
    |m: ManifestModel| m.repository_id != repo
}

/// The layer row belongs to manifest `manifest`.
pub open spec fn layer_of(manifest: u64) -> spec_fn(ManifestLayerModel) -> bool {
    |l: ManifestLayerModel| l.manifest_id == manifest
}

/// The layer row belongs to another manifest than `manifest`.
pub open spec fn layer_not_of(manifest: u64) -> spec_fn(ManifestLayerModel) -> bool {
    |l: ManifestLayerModel| l.manifest_id != manifest
}

/// The layer row belongs to another repository than `repo`.
pub open spec fn layer_outside(repo: u64) -> spec_fn(ManifestLayerModel) -> bool {
    |l: ManifestLayerModel| l.repository_id != repo
}

/// How often `d` occurs among `digests`.
pub open spec fn count_of(digests: Seq<Seq<char>>, d: Seq<char>) -> nat
    decreases digests.len(),
{
    if digests.len() == 0 {
        0
    } else {
        count_of(digests.drop_last(), d) + if digests.last() == d {
            1nat
        } else {
            0nat
        }
    }
}

/// The count is at most the number of digests, and positive exactly when `d` is among them.
pub proof fn lemma_count_of(digests: Seq<Seq<char>>, d: Seq<char>)
    ensures
        count_of(digests, d) <= digests.len(),
        count_of(digests, d) > 0 <==> digests.contains(d),
    decreases digests.len(),
{
    if digests.len() > 0 {
        let init = digests.drop_last();
        lemma_count_of(init, d);
        if digests.contains(d) {
            let k = choose|k: int| 0 <= k < digests.len() && digests[k] == d;
            if k < init.len() {
                assert(init[k] == d);
            }
        }
        if init.contains(d) {
            let k = choose|k: int| 0 <= k < init.len() && init[k] == d;
            assert(digests[k] == d);
        }
        if digests.last() == d {
            assert(digests[digests.len() - 1] == d);
        }
    }
}

/// The digests that the layers of a manifest name, each with the `sha256:` prefix.
pub open spec fn layer_names(layers: Seq<DescriptorModel>) -> Seq<Seq<char>> {
    layers.map_values(|l: DescriptorModel| with_prefix(l.digest))
}

/// The rows that record the layers of manifest `manifest` in repository `repo`.
pub open spec fn layer_rows(manifest: u64, repo: u64, layers: Seq<DescriptorModel>) -> Seq<
    ManifestLayerModel,
> {
    layers.map_values(
        |l: DescriptorModel|
            ManifestLayerModel {
                manifest_id: manifest,
                repository_id: repo,
                digest: with_prefix(l.digest),
                size: l.size as i64,
                media_type: l.media_type,
            },
    )
}

/// A blob row after the manifests' references `digests` in repository `repo` were added.
pub open spec fn bumped(b: BlobModel, repo: u64, digests: Seq<Seq<char>>) -> BlobModel {
    if b.is_blob(repo, b.digest) {
        b.with_refs((b.ref_count + count_of(digests, b.digest)) as u64)
    } else {
        b
    }
}

/// A blob row after the references `digests` in repository `repo` were taken away.
pub open spec fn dropped(b: BlobModel, repo: u64, digests: Seq<Seq<char>>) -> BlobModel {
    if b.is_blob(repo, b.digest) {
        b.with_refs(
            if b.ref_count >= count_of(digests, b.digest) {
                (b.ref_count - count_of(digests, b.digest)) as u64
            } else {
                0
            },
        )
    } else {
        b
    }
}

/// The blob row stays after references were taken away: it is not a blob of `repo` named
/// by `digests` whose count has reached 0.
pub open spec fn blob_survives(repo: u64, digests: Seq<Seq<char>>) -> spec_fn(BlobModel) -> bool {
    |b: BlobModel| !(b.is_blob(repo, b.digest) && count_of(digests, b.digest) > 0 && b.ref_count == 0)
}

impl DbModel {
    /// The manifest that `reference` names in repository `repo`, as a position in the
    /// table: the manifest that the tag `reference` points at or, without such a tag, the
    /// first manifest with the digest `reference`.
    pub open spec fn resolve(self, repo: u64, reference: Seq<char>) -> Option<int> {
        let t = first_where(self.tags, tag_named(repo, reference));
        let by_tag = if t < self.tags.len() {
            first_where(self.manifests, manifest_with_id(self.tags[t].manifest_id))
        } else {
            self.manifests.len() as int
        };
        if by_tag < self.manifests.len() {
            Some(by_tag)
        } else {
            let d = first_where(self.manifests, manifest_with_digest(repo, reference));
            if d < self.manifests.len() {
                Some(d)
            } else {
                None
            }
        }
    }

    /// The digests of the layers recorded for manifest `manifest`.
    pub open spec fn layer_digests(self, manifest: u64) -> Seq<Seq<char>> {
        self.manifest_layers.filter(layer_of(manifest)).map_values(|l: ManifestLayerModel| l.digest)
    }

    /// The tags of repository `repo`, in the order of the table.
    pub open spec fn tags_of(self, repo: u64) -> Seq<Seq<char>> {
        self.tags.filter(tag_in(repo)).map_values(|t: TagModel| t.tag)
    }

    /// Whether repository `repo` holds a finished blob for every layer.
    pub open spec fn layers_known(self, repo: u64, layers: Seq<DescriptorModel>) -> bool {
        forall|i: int| 0 <= i < layers.len() ==> self.blob_exists(repo, with_prefix(#[trigger] layers[i].digest))
    }

    /// Whether the references `digests` can be added without a count leaving its range.
    pub open spec fn refs_fit(self, repo: u64, digests: Seq<Seq<char>>) -> bool {
        forall|i: int| 0 <= i < self.blobs.len()
            && (#[trigger] self.blobs[i]).is_blob(repo, self.blobs[i].digest)
            ==> self.blobs[i].ref_count + count_of(digests, self.blobs[i].digest) <= u64::MAX
    }

    /// The store with the references `digests` added to the blobs of `repo`.
    pub open spec fn with_refs_added(self, repo: u64, digests: Seq<Seq<char>>) -> DbModel {
        DbModel { blobs: self.blobs.map_values(|b: BlobModel| bumped(b, repo, digests)), ..self }
    }

    /// The store with the references `digests` taken from the blobs of `repo`, and without
    /// the blobs whose count has reached 0 by it.
    pub open spec fn with_refs_dropped(self, repo: u64, digests: Seq<Seq<char>>) -> DbModel {
        DbModel {
            blobs: self.blobs.map_values(|b: BlobModel| dropped(b, repo, digests)).filter(
                blob_survives(repo, digests),
            ),
            ..self
        }
    }

    /// The store with one more manifest, which gets the next identifier.
    pub open spec fn with_manifest(
        self,
        repo: u64,
        digest: Seq<char>,
        path: Seq<char>,
        media_type: Option<Seq<char>>,
        size: i64,
        schema_version: i32,
    ) -> DbModel {
        DbModel {
            manifests: self.manifests.push(
                ManifestModel {
                    id: self.next_id,
                    repository_id: repo,
                    digest,
                    file_path: path,
                    media_type,
                    size,
                    schema_version,
                },
            ),
            next_id: (self.next_id + 1) as u64,
            ..self
        }
    }

    /// The store with the layers of manifest `manifest` recorded.
    pub open spec fn with_layers(self, manifest: u64, repo: u64, layers: Seq<DescriptorModel>) -> DbModel {
        DbModel { manifest_layers: self.manifest_layers + layer_rows(manifest, repo, layers), ..self }
    }

    /// The store with the tag `tag` of `repo` pointing at `manifest`, whatever it pointed at.
    pub open spec fn with_tag(self, repo: u64, tag: Seq<char>, manifest: u64) -> DbModel {
        let t = first_where(self.tags, tag_named(repo, tag));
        if t < self.tags.len() {
            DbModel { tags: self.tags.update(t, TagModel { manifest_id: manifest, ..self.tags[t] }), ..self }
        } else {
            DbModel {
                tags: self.tags.push(TagModel { repository_id: repo, tag, manifest_id: manifest }),
                ..self
            }
        }
    }

    /// Why a manifest cannot be put, if it cannot: the repository is unknown, a layer names
    /// a blob that the repository lacks, or an identifier or a count would leave its range.
    pub open spec fn put_manifest_error(self, name: Seq<char>, manifest: ImageManifestModel) -> Option<
        StorageError,
    > {
        match self.repo_id(name) {
            None => Some(StorageError::NotFound(Missing::Repository)),
            Some(repo) => if !self.layers_known(repo, manifest.layers) {
                Some(StorageError::NotFound(Missing::Blob))
            } else if self.next_id == u64::MAX || !self.refs_fit(repo, layer_names(manifest.layers)) {
                Some(StorageError::MetadataError(MetadataFault::OutOfRange))
            } else {
                None
            },
        }
    }

    /// The store after a manifest was put into repository `repo` under `reference`: a new
    /// manifest row, a row for each layer, one more reference on the blob of each layer,
    /// and the tag `reference` pointing at the new manifest.
    pub open spec fn put_manifest(
        self,
        repo: u64,
        reference: Seq<char>,
        digest: Seq<char>,
        path: Seq<char>,
        manifest: ImageManifestModel,
    ) -> DbModel {
        self.with_manifest(
            repo,
            digest,
            path,
            manifest.media_type,
            manifest.config_size(),
            manifest.schema_version,
        ).with_layers(self.next_id, repo, manifest.layers).with_refs_added(
            repo,
            layer_names(manifest.layers),
        ).with_tag(repo, reference, self.next_id)
    }

    /// The store after the manifest at position `at` was deleted: without its layer rows,
    /// without the tags that point at it, with one reference less on the blob of each of its
    /// layers, without the blobs whose count has reached 0 by it, and without the manifest.
    pub open spec fn delete_manifest(self, at: int) -> DbModel {
        let m = self.manifests[at];
        let digests = self.layer_digests(m.id);
        DbModel {
            manifest_layers: self.manifest_layers.filter(layer_not_of(m.id)),
            tags: self.tags.filter(tag_not_of(m.id)),
            manifests: self.manifests.filter(manifest_without_id(m.id)),
            ..self.with_refs_dropped(m.repository_id, digests)
        }
    }
}

/// What is missing when `reference` names no manifest: the manifest, if the reference has
/// the form of a content address, else the tag.
pub open spec fn missing_reference(reference: Seq<char>) -> StorageError {
    if crate::paths::digest_form(reference) {
        StorageError::NotFound(Missing::Manifest)
    } else {
        StorageError::NotFound(Missing::Tag)
    }
}

/// A reference that names a manifest names a row of the table.
pub proof fn lemma_resolve_in_range(db: DbModel, repo: u64, reference: Seq<char>)
    ensures
        db.resolve(repo, reference) matches Some(at) ==> 0 <= at < db.manifests.len(),
{
    let t = first_where(db.tags, tag_named(repo, reference));
    crate::table::lemma_first_where(db.tags, tag_named(repo, reference));
    if t < db.tags.len() {
        crate::table::lemma_first_where(db.manifests, manifest_with_id(db.tags[t].manifest_id));
    }
    crate::table::lemma_first_where(db.manifests, manifest_with_digest(repo, reference));
}

/// The condition `tag_named` as a test that compiled code can run.
pub struct TagNamed {
    pub repo: u64,
    pub tag: String,
}

impl Probe<TagRow> for TagNamed {
    open spec fn cond(&self) -> spec_fn(TagModel) -> bool {
        tag_named(self.repo, self.tag@)
    }

    fn test(&self, row: &TagRow) -> (b: bool) {
        row.repository_id == self.repo && row.tag == self.tag
    }
}

/// The condition `tag_not_of` as a test that compiled code can run.
pub struct TagNotOf {
    pub manifest: u64,
}

impl Probe<TagRow> for TagNotOf {
    open spec fn cond(&self) -> spec_fn(TagModel) -> bool {
        tag_not_of(self.manifest)
    }

    fn test(&self, row: &TagRow) -> (b: bool) {
        row.manifest_id != self.manifest
    }
}

/// The condition `tag_outside` as a test that compiled code can run.
pub struct TagOutside {
    pub repo: u64,
}

impl Probe<TagRow> for TagOutside {
    open spec fn cond(&self) -> spec_fn(TagModel) -> bool {
        tag_outside(self.repo)
    }

    fn test(&self, row: &TagRow) -> (b: bool) {
        row.repository_id != self.repo
    }
}

/// The condition `manifest_with_id` as a test that compiled code can run.
pub struct ManifestWithId {
    pub id: u64,
}

impl Probe<ManifestRow> for ManifestWithId {
    open spec fn cond(&self) -> spec_fn(ManifestModel) -> bool {
        manifest_with_id(self.id)
    }

    fn test(&self, row: &ManifestRow) -> (b: bool) {
        row.id == self.id
    }
}

/// The condition `manifest_without_id` as a test that compiled code can run.
pub struct ManifestWithoutId {
    pub id: u64,
}

impl Probe<ManifestRow> for ManifestWithoutId {
    open spec fn cond(&self) -> spec_fn(ManifestModel) -> bool {
        manifest_without_id(self.id)
    }

    fn test(&self, row: &ManifestRow) -> (b: bool) {
        row.id != self.id
    }
}

/// The condition `manifest_with_digest` as a test that compiled code can run.
pub struct ManifestWithDigest {
    pub repo: u64,
    pub digest: String,
}

impl Probe<ManifestRow> for ManifestWithDigest {
    open spec fn cond(&self) -> spec_fn(ManifestModel) -> bool {
        manifest_with_digest(self.repo, self.digest@)
    }

    fn test(&self, row: &ManifestRow) -> (b: bool) {
        row.repository_id == self.repo && row.digest == self.digest
    }
}

/// The condition `manifest_outside` as a test that compiled code can run.
pub struct ManifestOutside {
    pub repo: u64,
}

impl Probe<ManifestRow> for ManifestOutside {
    open spec fn cond(&self) -> spec_fn(ManifestModel) -> bool {
        manifest_outside(self.repo)
    }

    fn test(&self, row: &ManifestRow) -> (b: bool) {
        row.repository_id != self.repo
    }
}

/// The condition `layer_not_of` as a test that compiled code can run.
pub struct LayerNotOf {
    pub manifest: u64,
}

impl Probe<ManifestLayerRow> for LayerNotOf {
    open spec fn cond(&self) -> spec_fn(ManifestLayerModel) -> bool {
        layer_not_of(self.manifest)
    }

    fn test(&self, row: &ManifestLayerRow) -> (b: bool) {
        row.manifest_id != self.manifest
    }
}

/// The condition `layer_outside` as a test that compiled code can run.
pub struct LayerOutside {
    pub repo: u64,
}

impl Probe<ManifestLayerRow> for LayerOutside {
    open spec fn cond(&self) -> spec_fn(ManifestLayerModel) -> bool {
        layer_outside(self.repo)
    }

    fn test(&self, row: &ManifestLayerRow) -> (b: bool) {
        row.repository_id != self.repo
    }
}

/// How often `d` occurs among `digests`.
pub fn count_in(digests: &Vec<String>, d: &String) -> (n: usize)
    ensures
        n == count_of(string_views(digests@), d@),
{
    let ghost all = string_views(digests@);
    let mut n: usize = 0;
    let mut i: usize = 0;
    while i < digests.len()
        invariant
            i <= digests.len(),
            all == string_views(digests@),
            n == count_of(all.take(i as int), d@),
            n <= i,
        decreases digests.len() - i,
    {
        proof {
            assert(all.take(i + 1).drop_last() =~= all.take(i as int));
            assert(all.take(i + 1).last() == digests@[i as int]@);
        }
        if digests[i] == *d {
            n += 1;
        }
        i += 1;
    }
    proof {
        assert(all.take(digests.len() as int) =~= all);
    }
    n
}

/// The condition `blob_survives` as a test that compiled code can run.
pub struct Survives<'a> {
    pub repo: u64,
    pub digests: &'a Vec<String>,
}

impl<'a> Probe<BlobRow> for Survives<'a> {
    open spec fn cond(&self) -> spec_fn(BlobModel) -> bool {
        blob_survives(self.repo, string_views(self.digests@))
    }

    fn test(&self, row: &BlobRow) -> (b: bool) {
        !(row.upload_session_id.is_none() && row.repository_id == self.repo && row.ref_count == 0
            && count_in(self.digests, &row.digest) > 0)
    }
}

/// The digests that `layers` name, each with the `sha256:` prefix.
pub fn names_of(layers: &Vec<Descriptor>) -> (out: Vec<String>)
    ensures
        string_views(out@) == layer_names(descriptor_views(layers@)),
{
    let ghost want = layer_names(descriptor_views(layers@));
    let mut out: Vec<String> = Vec::new();
    let mut i: usize = 0;
    while i < layers.len()
        invariant
            i <= layers.len(),
            want == layer_names(descriptor_views(layers@)),
            string_views(out@) == want.take(i as int),
        decreases layers.len() - i,
    {
        let name = add_sha_header(layers[i].digest.as_str());
        let ghost before = out@;
        out.push(name);
        proof {
            assert(want[i as int] == name@);
            assert(string_views(out@) =~= string_views(before).push(name@));
            assert(string_views(out@) =~= want.take(i + 1));
        }
        i += 1;
    }
    proof {
        assert(want.take(layers.len() as int) =~= want);
    }
    out
}

impl DbConn {
    /// The manifest that `reference` names in repository `repo`: by tag first, then by
    /// digest.
    pub fn resolve(&self, repo: u64, reference: &str) -> (out: Option<usize>)
        ensures
            match out {
                Some(i) => i < self.manifests.len() && self@.resolve(repo, reference@) == Some(i as int),
                None => self@.resolve(repo, reference@).is_none(),
            },
    {
        let by_tag = match position(&self.tags, &TagNamed { repo, tag: owned(reference) }) {
            Some(t) => position(&self.manifests, &ManifestWithId { id: self.tags[t].manifest_id }),
            None => None,
        };
        match by_tag {
            Some(i) => Some(i),
            None => position(&self.manifests, &ManifestWithDigest { repo, digest: owned(reference) }),
        }
    }

    /// The digests of the layers recorded for manifest `manifest`.
    pub fn layer_digests(&self, manifest: u64) -> (out: Vec<String>)
        ensures
            string_views(out@) == self@.layer_digests(manifest),
    {
        let ghost keep = layer_of(manifest);
        let ghost rows = self@.manifest_layers;
        let mut out: Vec<String> = Vec::new();
        let mut i: usize = 0;
        proof {
            assert(rows.take(0) =~= Seq::<ManifestLayerModel>::empty());
            assert(rows.take(0).filter(keep) =~= Seq::<ManifestLayerModel>::empty()) by {
                reveal(Seq::filter);
            }
            assert(string_views(out@) =~= rows.take(0).filter(keep).map_values(
                |l: ManifestLayerModel| l.digest,
            ));
        }
        while i < self.manifest_layers.len()
            invariant
                i <= self.manifest_layers.len(),
                rows == views_of(self.manifest_layers@),
                keep == layer_of(manifest),
                string_views(out@) == rows.take(i as int).filter(keep).map_values(
                    |l: ManifestLayerModel| l.digest,
                ),
            decreases self.manifest_layers.len() - i,
        {
            proof {
                assert(rows.take(i + 1) =~= rows.take(i as int).push(rows[i as int]));
                lemma_filter_push(rows.take(i as int), rows[i as int], keep);
            }
            if self.manifest_layers[i].manifest_id == manifest {
                let ghost before = out@;
                let digest = self.manifest_layers[i].digest.clone();
                out.push(digest);
                proof {
                    assert(string_views(out@) =~= string_views(before).push(digest@));
                    assert(string_views(out@) =~= rows.take(i + 1).filter(keep).map_values(
                        |l: ManifestLayerModel| l.digest,
                    ));
                }
            }
            i += 1;
        }
        proof {
            assert(rows.take(self.manifest_layers.len() as int) =~= rows);
        }
        out
    }

    /// The tags of repository `repo`, in the order of the table.
    pub fn tags_of(&self, repo: u64) -> (out: Vec<String>)
        ensures
            string_views(out@) == self@.tags_of(repo),
    {
        let ghost keep = tag_in(repo);
        let ghost rows = self@.tags;
        let mut out: Vec<String> = Vec::new();
        let mut i: usize = 0;
        proof {
            assert(rows.take(0) =~= Seq::<TagModel>::empty());
            assert(rows.take(0).filter(keep) =~= Seq::<TagModel>::empty()) by {
                reveal(Seq::filter);
            }
            assert(string_views(out@) =~= rows.take(0).filter(keep).map_values(|t: TagModel| t.tag));
        }
        while i < self.tags.len()
            invariant
                i <= self.tags.len(),
                rows == views_of(self.tags@),
                keep == tag_in(repo),
                string_views(out@) == rows.take(i as int).filter(keep).map_values(|t: TagModel| t.tag),
            decreases self.tags.len() - i,
        {
            proof {
                assert(rows.take(i + 1) =~= rows.take(i as int).push(rows[i as int]));
                lemma_filter_push(rows.take(i as int), rows[i as int], keep);
            }
            if self.tags[i].repository_id == repo {
                let ghost before = out@;
                let tag = self.tags[i].tag.clone();
                out.push(tag);
                proof {
                    assert(string_views(out@) =~= string_views(before).push(tag@));
                    assert(string_views(out@) =~= rows.take(i + 1).filter(keep).map_values(
                        |t: TagModel| t.tag,
                    ));
                }
            }
            i += 1;
        }
        proof {
            assert(rows.take(self.tags.len() as int) =~= rows);
        }
        out
    }

    /// Whether repository `repo` holds a finished blob for every layer.
    pub fn layers_known(&self, repo: u64, layers: &Vec<Descriptor>) -> (out: bool)
        ensures
            out == self@.layers_known(repo, descriptor_views(layers@)),
    {
        let ghost all = descriptor_views(layers@);
        let mut i: usize = 0;
        while i < layers.len()
            invariant
                i <= layers.len(),
                all == descriptor_views(layers@),
                forall|k: int| 0 <= k < i ==> self@.blob_exists(repo, with_prefix(#[trigger] all[k].digest)),
            decreases layers.len() - i,
        {
            let name = add_sha_header(layers[i].digest.as_str());
            assert(all[i as int].digest == layers@[i as int].digest@);
            if !self.blob_exists(repo, name.as_str()) {
                return false;
            }
            i += 1;
        }
        true
    }

    /// Whether the references `digests` can be added without a count leaving its range.
    pub fn refs_fit(&self, repo: u64, digests: &Vec<String>) -> (out: bool)
        ensures
            out == self@.refs_fit(repo, string_views(digests@)),
    {
        let mut i: usize = 0;
        while i < self.blobs.len()
            invariant
                i <= self.blobs.len(),
                forall|k: int| 0 <= k < i && (#[trigger] self@.blobs[k]).is_blob(repo, self@.blobs[k].digest)
                    ==> self@.blobs[k].ref_count + count_of(string_views(digests@), self@.blobs[k].digest)
                    <= u64::MAX,
            decreases self.blobs.len() - i,
        {
            let row = &self.blobs[i];
            assert(self@.blobs[i as int] == row@);
            if row.upload_session_id.is_none() && row.repository_id == repo {
                let c = count_in(digests, &row.digest) as u64;
                if row.ref_count > u64::MAX - c {
                    return false;
                }
            }
            i += 1;
        }
        true
    }

    /// Adds the references `digests` to the blobs of `repo`.
    pub(crate) fn add_refs(&mut self, repo: u64, digests: &Vec<String>)
        requires
            old(self)@.refs_fit(repo, string_views(digests@)),
        ensures
            final(self)@ == old(self)@.with_refs_added(repo, string_views(digests@)),
    {
        let ghost names = string_views(digests@);
        let ghost before = self@.blobs;
        let mut i: usize = 0;
        while i < self.blobs.len()
            invariant
                i <= self.blobs.len(),
                names == string_views(digests@),
                before == old(self)@.blobs,
                old(self)@.refs_fit(repo, names),
                self.blobs.len() == before.len(),
                forall|k: int| 0 <= k < i ==> (#[trigger] self@.blobs[k]) == bumped(before[k], repo, names),
                forall|k: int| i <= k < before.len() ==> (#[trigger] self@.blobs[k]) == before[k],
                self@ == (DbModel { blobs: self@.blobs, ..old(self)@ }),
            decreases self.blobs.len() - i,
        {
            assert(self@.blobs[i as int] == before[i as int]);
            assert(self@.blobs[i as int] == self.blobs@[i as int]@);
            if self.blobs[i].upload_session_id.is_none() && self.blobs[i].repository_id == repo {
                let c = count_in(digests, &self.blobs[i].digest) as u64;
                let ghost prior = self@.blobs;
                self.blobs[i].ref_count = self.blobs[i].ref_count + c;
                proof {
                    assert(self@.blobs =~= prior.update(i as int, bumped(before[i as int], repo, names)));
                }
            }
            i += 1;
        }
        proof {
            assert(self@.blobs =~= before.map_values(|b: BlobModel| bumped(b, repo, names)));
        }
    }

    /// Takes the references `digests` from the blobs of `repo` and removes the blobs whose
    /// count reaches 0 by it.
    pub fn drop_refs(&mut self, repo: u64, digests: &Vec<String>)
        ensures
            final(self)@ == old(self)@.with_refs_dropped(repo, string_views(digests@)),
    {
        let ghost names = string_views(digests@);
        let ghost before = self@.blobs;
        let mut i: usize = 0;
        while i < self.blobs.len()
            invariant
                i <= self.blobs.len(),
                names == string_views(digests@),
                before == old(self)@.blobs,
                self.blobs.len() == before.len(),
                forall|k: int| 0 <= k < i ==> (#[trigger] self@.blobs[k]) == dropped(before[k], repo, names),
                forall|k: int| i <= k < before.len() ==> (#[trigger] self@.blobs[k]) == before[k],
                self@ == (DbModel { blobs: self@.blobs, ..old(self)@ }),
            decreases self.blobs.len() - i,
        {
            assert(self@.blobs[i as int] == before[i as int]);
            assert(self@.blobs[i as int] == self.blobs@[i as int]@);
            if self.blobs[i].upload_session_id.is_none() && self.blobs[i].repository_id == repo {
                let c = count_in(digests, &self.blobs[i].digest) as u64;
                let ghost prior = self@.blobs;
                let rc = self.blobs[i].ref_count;
                self.blobs[i].ref_count = if rc >= c {
                    rc - c
                } else {
                    0
                };
                proof {
                    assert(self@.blobs =~= prior.update(i as int, dropped(before[i as int], repo, names)));
                }
            }
            i += 1;
        }
        proof {
            assert(self@.blobs =~= before.map_values(|b: BlobModel| dropped(b, repo, names)));
        }
        retain(&mut self.blobs, &Survives { repo, digests });
    }

    /// Puts one more reference on the blob `digest` of `repo`. A count that would leave its
    /// range is refused with `OutOfRange`, and nothing changes.
    pub fn inc_refcount(&mut self, repo: u64, digest: &str) -> (out: Result<(), StorageError>)
        ensures
            out == (if old(self)@.refs_fit(repo, seq![digest@]) {
                Ok::<(), StorageError>(())
            } else {
                Err::<(), StorageError>(StorageError::MetadataError(MetadataFault::OutOfRange))
            }),
            final(self)@ == (if out.is_ok() {
                old(self)@.with_refs_added(repo, seq![digest@])
            } else {
                old(self)@
            }),
    {
        let mut one: Vec<String> = Vec::new();
        one.push(owned(digest));
        assert(string_views(one@) =~= seq![digest@]);
        if !self.refs_fit(repo, &one) {
            return Err(StorageError::MetadataError(MetadataFault::OutOfRange));
        }
        self.add_refs(repo, &one);
        Ok(())
    }

    /// Takes one reference from the blob `digest` of `repo`, and removes the blob if its
    /// count reaches 0 by it.
    pub fn dec_refcount(&mut self, repo: u64, digest: &str)
        ensures
            final(self)@ == old(self)@.with_refs_dropped(repo, seq![digest@]),
    {
        let mut one: Vec<String> = Vec::new();
        one.push(owned(digest));
        assert(string_views(one@) =~= seq![digest@]);
        self.drop_refs(repo, &one);
    }

    /// Adds a manifest row. A store that has used up its identifiers refuses with
    /// `OutOfRange`.
    pub fn manifest_insert(
        &mut self,
        repo: u64,
        digest: &str,
        path: &str,
        media_type: &Option<String>,
        size: i64,
        schema_version: i32,
    ) -> (out: Result<u64, StorageError>)
        ensures
            out == (if old(self)@.next_id == u64::MAX {
                Err::<u64, StorageError>(StorageError::MetadataError(MetadataFault::OutOfRange))
            } else {
                Ok::<u64, StorageError>(old(self)@.next_id)
            }),
            final(self)@ == (if out.is_ok() {
                old(self)@.with_manifest(
                    repo,
                    digest@,
                    path@,
                    opt_text(*media_type),
                    size,
                    schema_version,
                )
            } else {
                old(self)@
            }),
    {
        if self.next_id == u64::MAX {
            return Err(StorageError::MetadataError(MetadataFault::OutOfRange));
        }
        let id = self.next_id;
        let row = ManifestRow {
            id,
            repository_id: repo,
            digest: owned(digest),
            file_path: owned(path),
            media_type: clone_opt(media_type),
            size,
            schema_version,
        };
        proof {
            lemma_views_push(self.manifests@, row);
        }
        self.manifests.push(row);
        self.next_id = id + 1;
        Ok(id)
    }

    /// Records the layers of manifest `manifest`.
    pub fn layer_insert(&mut self, manifest: u64, repo: u64, layers: &Vec<Descriptor>)
        ensures
            final(self)@ == old(self)@.with_layers(manifest, repo, descriptor_views(layers@)),
    {
        let ghost all = descriptor_views(layers@);
        let ghost want = layer_rows(manifest, repo, all);
        let ghost before = self@.manifest_layers;
        let mut i: usize = 0;
        proof {
            assert(before + want.take(0) =~= before);
        }
        while i < layers.len()
            invariant
                i <= layers.len(),
                all == descriptor_views(layers@),
                want == layer_rows(manifest, repo, all),
                before == old(self)@.manifest_layers,
                self@.manifest_layers == before + want.take(i as int),
                self@ == (DbModel { manifest_layers: self@.manifest_layers, ..old(self)@ }),
            decreases layers.len() - i,
        {
            let layer = &layers[i];
            let row = ManifestLayerRow {
                manifest_id: manifest,
                repository_id: repo,
                digest: add_sha_header(layer.digest.as_str()),
                size: layer.size as i64,
                media_type: clone_opt(&layer.media_type),
            };
            proof {
                assert(all[i as int] == layer@);
                assert(want[i as int] == row@);
                lemma_views_push(self.manifest_layers@, row);
                assert(before + want.take(i + 1) =~= (before + want.take(i as int)).push(row@));
            }
            self.manifest_layers.push(row);
            i += 1;
        }
        proof {
            assert(want.take(layers.len() as int) =~= want);
        }
    }

    /// Points the tag `tag` of repository `repo` at `manifest`, whatever it pointed at.
    pub fn tag_upsert(&mut self, repo: u64, tag: &str, manifest: u64)
        ensures
            final(self)@ == old(self)@.with_tag(repo, tag@, manifest),
    {
        match position(&self.tags, &TagNamed { repo, tag: owned(tag) }) {
            Some(t) => {
                self.tags[t].manifest_id = manifest;
                assert(self@.tags =~= old(self)@.tags.update(
                    t as int,
                    TagModel { manifest_id: manifest, ..old(self)@.tags[t as int] },
                ));
            },
            None => {
                let row = TagRow { repository_id: repo, tag: owned(tag), manifest_id: manifest };
                proof {
                    lemma_views_push(self.tags@, row);
                }
                self.tags.push(row);
            },
        }
    }

    /// Puts a manifest into the repository named `name` under `reference`, all or nothing.
    /// It is refused when the repository is unknown (`NotFound(Repository)`), when the
    /// repository lacks the blob of one of the layers (`NotFound(Blob)`), and when an
    /// identifier or a reference count would leave its range (`OutOfRange`). On success the
    /// result is the identifier of the new manifest.
    pub fn put_manifest(
        &mut self,
        name: &str,
        reference: &str,
        digest: &str,
        path: &str,
        manifest: &ImageManifest,
    ) -> (out: Result<u64, StorageError>)
        ensures
            out == (match old(self)@.put_manifest_error(name@, manifest@) {
                Some(e) => Err::<u64, StorageError>(e),
                None => Ok::<u64, StorageError>(old(self)@.next_id),
            }),
            final(self)@ == (if out.is_ok() {
                old(self)@.put_manifest(
                    old(self)@.repo_id(name@).unwrap(),
                    reference@,
                    digest@,
                    path@,
                    manifest@,
                )
            } else {
                old(self)@
            }),
    {
        let repo = match self.repo_lookup(name) {
            Some(found) => found.0,
            None => {
                return Err(StorageError::NotFound(Missing::Repository));
            },
        };
        if !self.layers_known(repo, &manifest.layers) {
            return Err(StorageError::NotFound(Missing::Blob));
        }
        let names = names_of(&manifest.layers);
        if self.next_id == u64::MAX || !self.refs_fit(repo, &names) {
            return Err(StorageError::MetadataError(MetadataFault::OutOfRange));
        }
        let id = match self.manifest_insert(
            repo,
            digest,
            path,
            &manifest.media_type,
            manifest.config_size(),
            manifest.schema_version,
        ) {
            Ok(id) => id,
            Err(e) => {
                return Err(e);
            },
        };
        self.layer_insert(id, repo, &manifest.layers);
        self.add_refs(repo, &names);
        self.tag_upsert(repo, reference, id);
        Ok(id)
    }

    /// Deletes the manifest that `reference` names in the repository named `name`, with
    /// everything that hangs on it, and returns the path of its file. It fails with
    /// `NotFound(Repository)`, or with `NotFound(Manifest)` for a content address and
    /// `NotFound(Tag)` for any other reference that names nothing, and then changes nothing.
    pub fn delete_manifest(&mut self, name: &str, reference: &str) -> (out: Result<
        String,
        StorageError,
    >)
        ensures
            match out {
                Ok(path) => old(self)@.repo_id(name@).is_some() && old(self)@.resolve(
                    old(self)@.repo_id(name@).unwrap(),
                    reference@,
                ).is_some() && ({
                    let at = old(self)@.resolve(old(self)@.repo_id(name@).unwrap(), reference@).unwrap();
                    &&& path@ == old(self)@.manifests[at].file_path
                    &&& final(self)@ == old(self)@.delete_manifest(at)
                }),
                Err(e) => final(self)@ == old(self)@ && (match old(self)@.repo_id(name@) {
                    None => e == StorageError::NotFound(Missing::Repository),
                    Some(repo) => old(self)@.resolve(repo, reference@).is_none() && e
                        == missing_reference(reference@),
                }),
            },
    {
        let repo = match self.repo_lookup(name) {
            Some(found) => found.0,
            None => {
                return Err(StorageError::NotFound(Missing::Repository));
            },
        };
        let at = match self.resolve(repo, reference) {
            Some(at) => at,
            None => {
                return Err(
                    if crate::paths::is_digest_reference(reference) {
                        StorageError::NotFound(Missing::Manifest)
                    } else {
                        StorageError::NotFound(Missing::Tag)
                    },
                );
            },
        };
        let id = self.manifests[at].id;
        let owner = self.manifests[at].repository_id;
        let path = self.manifests[at].file_path.clone();
        let digests = self.layer_digests(id);
        retain(&mut self.manifest_layers, &LayerNotOf { manifest: id });
        retain(&mut self.tags, &TagNotOf { manifest: id });
        self.drop_refs(owner, &digests);
        retain(&mut self.manifests, &ManifestWithoutId { id });
        Ok(path)
    }
}

} // verus!

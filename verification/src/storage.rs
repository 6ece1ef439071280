//! The content store: files addressed by path, held in memory, and the rule that ties it to
//! the metadata store: every blob row names a stored file whose content hashes to the row's
//! digest.
//!
//! The store is flat. It holds no directories: a directory is there exactly when a file
//! lies below it, and its size is the size of those files.

use crate::assoc::{
    keys_distinct, lemma_map_of_at, lemma_map_of_dom, lemma_map_of_remove, lemma_map_of_update,
    lemma_push_distinct, map_of,
};
use crate::database::{blob_agrees, owned, DbConn, DbModel};
use crate::digest::digest_of;
use crate::error::{IoFault, StorageError};
use crate::paths::{
    join, join_path, name_is_valid, normal_form, normal_path, path_is_valid, plain_name, valid_path,
};
use crate::rows::BlobModel;
use crate::table::lemma_filter_members;
use crate::text::{is_prefix, string_views};
use vstd::prelude::*;

verus! {

/// One stored file.
pub struct StoredFile {
    pub path: String,
    pub data: Vec<u8>,
}

/// The content store on local storage: a base path and the files below it.
pub struct LocalStorageDriver {
    base_path: String,
    files: Vec<StoredFile>,
}

/// Paths and contents of `files` as plain values.
pub open spec fn file_pairs(files: Seq<StoredFile>) -> Seq<(Seq<char>, Seq<u8>)> {
    files.map_values(|f: StoredFile| (f.path@, f.data@))
}

/// Every blob row names a stored file, and the file's content hashes to the row's digest.
pub open spec fn backed(db: DbModel, files: Map<Seq<char>, Seq<u8>>) -> bool {
    forall|i: int|
        0 <= i < db.blobs.len() ==> files.contains_key((#[trigger] db.blobs[i]).file_path)
            && digest_of(files[db.blobs[i].file_path]) == db.blobs[i].digest
}

/// `files` without every path of `paths` that no blob row of `db` names.
pub open spec fn swept(files: Map<Seq<char>, Seq<u8>>, db: DbModel, paths: Seq<Seq<char>>) -> Map<
    Seq<char>,
    Seq<u8>,
>
    decreases paths.len(),
{
    if paths.len() == 0 {
        files
    } else {
        let rest = swept(files, db, paths.drop_last());
        if db.path_in_use(paths.last()) {
            rest
        } else {
            rest.remove(paths.last())
        }
    }
}

/// The total size of the files below the directory `dir`, held at the largest number when
/// it does not fit.
pub open spec fn size_below(pairs: Seq<(Seq<char>, Seq<u8>)>, dir: Seq<char>) -> nat
    decreases pairs.len(),
{
    if pairs.len() == 0 {
        0
    } else {
        let rest = size_below(pairs.drop_last(), dir);
        if is_prefix(dir + seq!['/'], pairs.last().0) {
            rest + pairs.last().1.len()
        } else {
            rest
        }
    }
}

/// Taking blob rows away keeps the rows backed.
pub proof fn lemma_backed_keep(db: DbModel, files: Map<Seq<char>, Seq<u8>>, keep: spec_fn(BlobModel) -> bool)
    requires
        backed(db, files),
    ensures
        backed(db.keep_blobs(keep), files),
{
    lemma_filter_members(db.blobs, keep);
    let kept = db.blobs.filter(keep);
    assert forall|i: int| 0 <= i < kept.len() implies files.contains_key((#[trigger] kept[i]).file_path)
        && digest_of(files[kept[i].file_path]) == kept[i].digest by {
        assert(db.blobs.contains(kept[i]));
        let k = choose|k: int| 0 <= k < db.blobs.len() && db.blobs[k] == kept[i];
        assert(db.blobs[k] == kept[i]);
    }
}

/// Writing a file keeps the rows backed, once the rows at its path that have another digest
/// are gone.
pub proof fn lemma_backed_write(db: DbModel, files: Map<Seq<char>, Seq<u8>>, path: Seq<char>, data: Seq<u8>)
    requires
        backed(db, files),
    ensures
        backed(db.keep_blobs(blob_agrees(path, digest_of(data))), files.insert(path, data)),
{
    let keep = blob_agrees(path, digest_of(data));
    lemma_backed_keep(db, files, keep);
    lemma_filter_members(db.blobs, keep);
    let kept = db.blobs.filter(keep);
    let next = files.insert(path, data);
    assert forall|i: int| 0 <= i < kept.len() implies next.contains_key((#[trigger] kept[i]).file_path)
        && digest_of(next[kept[i].file_path]) == kept[i].digest by {
        assert(keep(kept[i]));
    }
}

/// A new row that names a stored file with its digest keeps the rows backed.
pub proof fn lemma_backed_push(db: DbModel, files: Map<Seq<char>, Seq<u8>>, row: BlobModel)
    requires
        backed(db, files),
        files.contains_key(row.file_path),
        digest_of(files[row.file_path]) == row.digest,
    ensures
        backed(db.with_blob(row), files),
{
    let next = db.blobs.push(row);
    assert forall|i: int| 0 <= i < next.len() implies files.contains_key((#[trigger] next[i]).file_path)
        && digest_of(files[next[i].file_path]) == next[i].digest by {
        if i < db.blobs.len() {
            assert(next[i] == db.blobs[i]);
        }
    }
}

/// Sweeping keeps the rows backed: only files that no row names are taken away.
pub proof fn lemma_backed_swept(db: DbModel, files: Map<Seq<char>, Seq<u8>>, paths: Seq<Seq<char>>)
    requires
        backed(db, files),
    ensures
        backed(db, swept(files, db, paths)),
        forall|p: Seq<char>| #[trigger] swept(files, db, paths).contains_key(p) ==> files.contains_key(p)
            && swept(files, db, paths)[p] == files[p],
        forall|p: Seq<char>| files.contains_key(p)
            && db.path_in_use(p) ==> #[trigger] swept(files, db, paths).contains_key(p),
    decreases paths.len(),
{
    if paths.len() > 0 {
        lemma_backed_swept(db, files, paths.drop_last());
        let rest = swept(files, db, paths.drop_last());
        let last = paths.last();
        if !db.path_in_use(last) {
            crate::table::lemma_first_where(db.blobs, crate::database::blob_at_path(last));
            let next = rest.remove(last);
            assert forall|i: int| 0 <= i < db.blobs.len() implies next.contains_key((#[trigger] db.blobs[i]).file_path)
                && digest_of(next[db.blobs[i].file_path]) == db.blobs[i].digest by {
                assert(!(crate::database::blob_at_path(last))(db.blobs[i]));
            }
        }
    }
}

/// A copy of `v`.
pub fn copy_bytes(v: &Vec<u8>) -> (out: Vec<u8>)
    ensures
        out@ == v@,
{
    let mut out: Vec<u8> = Vec::new();
    let mut i: usize = 0;
    while i < v.len()
        invariant
            i <= v.len(),
            out@ == v@.take(i as int),
        decreases v.len() - i,
    {
        out.push(v[i]);
        assert(v@.take(i + 1) =~= v@.take(i as int).push(v@[i as int]));
        i += 1;
    }
    assert(v@.take(v.len() as int) =~= v@);
    out
}

impl LocalStorageDriver {
    /// Paths and contents of the stored files, in the order in which they are held.
    pub closed spec fn pairs(&self) -> Seq<(Seq<char>, Seq<u8>)> {
        file_pairs(self.files@)
    }

    /// The base path.
    pub closed spec fn root(&self) -> Seq<char> {
        self.base_path@
    }

    /// The stored files: what each path holds.
    pub open spec fn files(&self) -> Map<Seq<char>, Seq<u8>> {
        map_of(self.pairs())
    }

    /// No path is stored twice.
    pub open spec fn wf(&self) -> bool {
        keys_distinct(self.pairs())
    }

    /// An empty store at `base_path`.
    pub fn new(base_path: &str) -> (out: Self)
        ensures
            out.wf(),
            out.root() == base_path@,
            out.files() == Map::<Seq<char>, Seq<u8>>::empty(),
    {
        let out = LocalStorageDriver { base_path: owned(base_path), files: Vec::new() };
        assert(out.pairs() =~= Seq::<(Seq<char>, Seq<u8>)>::empty());
        out
    }

    /// The base path.
    pub fn base_path(&self) -> (out: &String)
        ensures
            out@ == self.root(),
    {
        &self.base_path
    }

    fn find(&self, path: &String) -> (out: Option<usize>)
        ensures
            match out {
                Some(i) => i < self.pairs().len() && self.pairs()[i as int].0 == path@,
                None => forall|k: int| 0 <= k < self.pairs().len() ==> self.pairs()[k].0 != path@,
            },
    {
        let mut i: usize = 0;
        while i < self.files.len()
            invariant
                i <= self.files.len(),
                forall|k: int| 0 <= k < i ==> self.pairs()[k].0 != path@,
            decreases self.files.len() - i,
        {
            if self.files[i].path == *path {
                return Some(i);
            }
            i += 1;
        }
        None
    }

    /// The paths of the stored files, in the order in which they are held.
    pub fn paths(&self) -> (out: Vec<String>)
        ensures
            string_views(out@) == self.pairs().map_values(|p: (Seq<char>, Seq<u8>)| p.0),
    {
        let ghost want = self.pairs().map_values(|p: (Seq<char>, Seq<u8>)| p.0);
        let mut out: Vec<String> = Vec::new();
        let mut i: usize = 0;
        while i < self.files.len()
            invariant
                i <= self.files.len(),
                want == self.pairs().map_values(|p: (Seq<char>, Seq<u8>)| p.0),
                string_views(out@) == want.take(i as int),
            decreases self.files.len() - i,
        {
            let ghost before = out@;
            let path = self.files[i].path.clone();
            out.push(path);
            proof {
                assert(want[i as int] == path@);
                assert(string_views(out@) =~= string_views(before).push(path@));
                assert(string_views(out@) =~= want.take(i + 1));
            }
            i += 1;
        }
        proof {
            assert(want.take(self.files.len() as int) =~= want);
        }
        out
    }

    /// Whether a file is stored at `path`.
    pub fn file_exists(&self, path: &str) -> (out: bool)
        requires
            self.wf(),
        ensures
            out == self.files().contains_key(path@),
    {
        proof {
            lemma_map_of_dom(self.pairs());
        }
        self.find(&owned(path)).is_some()
    }

    /// The content of the file at `path`; `IoError(NotFound)` without one.
    pub fn read_file(&self, path: &str) -> (out: Result<Vec<u8>, StorageError>)
        requires
            self.wf(),
        ensures
            match out {
                Ok(data) => self.files().contains_key(path@) && data@ == self.files()[path@],
                Err(e) => !self.files().contains_key(path@) && e == StorageError::IoError(
                    IoFault::NotFound,
                ),
            },
    {
        proof {
            lemma_map_of_dom(self.pairs());
        }
        match self.find(&owned(path)) {
            Some(i) => {
                proof {
                    lemma_map_of_at(self.pairs(), i as int);
                }
                Ok(copy_bytes(&self.files[i].data))
            },
            None => Err(StorageError::IoError(IoFault::NotFound)),
        }
    }

    /// Stores `data` at `path`, in place of what was there.
    pub fn write_file(&mut self, path: &str, data: Vec<u8>)
        requires
            old(self).wf(),
        ensures
            final(self).wf(),
            final(self).root() == old(self).root(),
            final(self).files() == old(self).files().insert(path@, data@),
    {
        let key = owned(path);
        match self.find(&key) {
            Some(i) => {
                proof {
                    lemma_map_of_update(self.pairs(), i as int, data@);
                }
                self.files[i].data = data;
                assert(self.pairs() =~= old(self).pairs().update(
                    i as int,
                    (old(self).pairs()[i as int].0, data@),
                ));
            },
            None => {
                proof {
                    lemma_push_distinct(self.pairs(), key@, data@);
                }
                self.files.push(StoredFile { path: key, data });
                assert(self.pairs() =~= old(self).pairs().push((key@, data@)));
            },
        }
    }

    /// Removes the file at `path`; `IoError(NotFound)` without one.
    pub fn delete_file(&mut self, path: &str) -> (out: Result<(), StorageError>)
        requires
            old(self).wf(),
        ensures
            final(self).wf(),
            final(self).root() == old(self).root(),
            final(self).files() == old(self).files().remove(path@),
            out == (if old(self).files().contains_key(path@) {
                Ok::<(), StorageError>(())
            } else {
                Err::<(), StorageError>(StorageError::IoError(IoFault::NotFound))
            }),
    {
        proof {
            lemma_map_of_dom(self.pairs());
        }
        match self.find(&owned(path)) {
            Some(i) => {
                proof {
                    lemma_map_of_remove(self.pairs(), i as int);
                }
                self.files.remove(i);
                assert(self.pairs() =~= old(self).pairs().remove(i as int));
                Ok(())
            },
            None => {
                assert(self.files() =~= old(self).files().remove(path@));
                Err(StorageError::IoError(IoFault::NotFound))
            },
        }
    }

    /// Removes every path of `paths` that no blob row names.
    pub fn sweep(&mut self, pool: &DbConn, paths: &Vec<String>)
        requires
            old(self).wf(),
        ensures
            final(self).wf(),
            final(self).root() == old(self).root(),
            final(self).files() == swept(old(self).files(), pool@, string_views(paths@)),
    {
        let ghost all = string_views(paths@);
        let mut i: usize = 0;
        proof {
            assert(all.take(0) =~= Seq::<Seq<char>>::empty());
        }
        while i < paths.len()
            invariant
                i <= paths.len(),
                all == string_views(paths@),
                self.wf(),
                self.root() == old(self).root(),
                self.files() == swept(old(self).files(), pool@, all.take(i as int)),
            decreases paths.len() - i,
        {
            proof {
                assert(all.take(i + 1).drop_last() =~= all.take(i as int));
                assert(all.take(i + 1).last() == paths@[i as int]@);
            }
            if !pool.path_in_use(paths[i].as_str()) {
                let _ = self.delete_file(paths[i].as_str());
            }
            i += 1;
        }
        proof {
            assert(all.take(paths.len() as int) =~= all);
        }
    }

    /// Stores `data` as the file `filename` in the directory `path` below the base path and
    /// returns the full path, with `path` in its normal form. A `path` that is not a valid
    /// relative path, or a `filename` that is not a plain name, is refused with
    /// `IoError(InvalidInput)`.
    pub fn stream_to_file(&mut self, path: &str, filename: &str, data: Vec<u8>) -> (out: Result<
        String,
        StorageError,
    >)
        requires
            old(self).wf(),
        ensures
            final(self).wf(),
            final(self).root() == old(self).root(),
            match out {
                Ok(full) => valid_path(path@) && plain_name(filename@) && full@ == join(
                    join(old(self).root(), normal_form(path@)),
                    filename@,
                ) && final(self).files() == old(self).files().insert(full@, data@),
                Err(e) => !(valid_path(path@) && plain_name(filename@)) && e
                    == StorageError::IoError(IoFault::InvalidInput) && final(self).files() == old(
                    self,
                ).files(),
            },
    {
        if !path_is_valid(path) || !name_is_valid(filename) {
            return Err(StorageError::IoError(IoFault::InvalidInput));
        }
        let dir = join_path(self.base_path.as_str(), normal_path(path).as_str());
        let full = join_path(dir.as_str(), filename);
        self.write_file(full.as_str(), data);
        Ok(full)
    }

    /// The total size in bytes of the files below the directory `path`, held at the largest
    /// number when it does not fit.
    pub fn get_dir_size(&self, path: &str) -> (out: u64)
        ensures
            out == (if size_below(self.pairs(), path@) <= u64::MAX {
                size_below(self.pairs(), path@) as u64
            } else {
                u64::MAX
            }),
    {
        let mut prefix = crate::text::chars_of(path);
        prefix.push('/');
        let ghost all = self.pairs();
        let mut total: u64 = 0;
        let mut i: usize = 0;
        proof {
            assert(all.take(0) =~= Seq::<(Seq<char>, Seq<u8>)>::empty());
        }
        while i < self.files.len()
            invariant
                i <= self.files.len(),
                all == self.pairs(),
                prefix@ == path@ + seq!['/'],
                total == (if size_below(all.take(i as int), path@) <= u64::MAX {
                    size_below(all.take(i as int), path@) as u64
                } else {
                    u64::MAX
                }),
            decreases self.files.len() - i,
        {
            proof {
                assert(all.take(i + 1).drop_last() =~= all.take(i as int));
                assert(all.take(i + 1).last() == all[i as int]);
            }
            let name = crate::text::chars_of(self.files[i].path.as_str());
            if crate::text::starts_with(name.as_slice(), prefix.as_slice()) {
                let len = self.files[i].data.len() as u64;
                total = if total > u64::MAX - len {
                    u64::MAX
                } else {
                    total + len
                };
            }
            i += 1;
        }
        proof {
            assert(all.take(self.files.len() as int) =~= all);
        }
        total
    }
}

} // verus!

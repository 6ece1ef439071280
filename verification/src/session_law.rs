//! The law of upload sessions: a session that is opened, takes chunks one after the other
//! and is closed gives the blob of the chunks joined.

use crate::chunks::{lemma_rising_in_order, rising};
use crate::database::{blob_off_path, chunk_of, upload_with, DbModel};
use crate::digest::digest_of;
use crate::laws::{
    lemma_chunk_dir_valid, lemma_filter_none_all, lemma_first_where_update, lemma_session_opened,
};
use crate::paths::join;
use crate::rows::UploadModel;
use crate::table::{first_where, lemma_filter_push, lemma_first_where};
use crate::text::{decimal, decimal_i64, decimal_value, digit_char};
use crate::uploads::{
    blob_file, chunk_db, chunk_dir, chunk_file, chunk_files, combined, finish_digest, finish_error,
    finish_files, gathered, new_chunk,
};
use vstd::prelude::*;

verus! {

/// The bytes of the chunks, one chunk after the other.
pub open spec fn joined(chunks: Seq<Seq<u8>>) -> Seq<u8>
    decreases chunks.len(),
{
    if chunks.len() == 0 {
        Seq::empty()
    } else {
        joined(chunks.drop_last()) + chunks.last()
    }
}

/// The range that a client states for the last of `chunks`: from the bytes sent before to
/// its last byte.
pub open spec fn last_range(chunks: Seq<Seq<u8>>) -> Option<(i64, i64)> {
    Some(
        (
            joined(chunks.drop_last()).len() as i64,
            (joined(chunks.drop_last()).len() + chunks.last().len() - 1) as i64,
        ),
    )
}

/// Metadata store and files after `chunks` were sent to session `uuid` one after the
/// other, each with the range of its bytes.
pub open spec fn uploaded(
    db: DbModel,
    files: Map<Seq<char>, Seq<u8>>,
    root: Seq<char>,
    name: Seq<char>,
    uuid: Seq<char>,
    chunks: Seq<Seq<u8>>,
) -> (DbModel, Map<Seq<char>, Seq<u8>>)
    decreases chunks.len(),
{
    if chunks.len() == 0 {
        (db, files)
    } else {
        let before = uploaded(db, files, root, name, uuid, chunks.drop_last());
        (
            chunk_db(
                before.0,
                root,
                name,
                uuid,
                chunks.last().len() as i64,
                last_range(chunks),
                chunks.last(),
            ),
            chunk_files(before.1, before.0, root, name, uuid, chunks.last()),
        )
    }
}

/// Whether each of `chunks` was accepted when it was sent.
pub open spec fn accepted(
    db: DbModel,
    files: Map<Seq<char>, Seq<u8>>,
    root: Seq<char>,
    name: Seq<char>,
    uuid: Seq<char>,
    chunks: Seq<Seq<u8>>,
) -> bool
    decreases chunks.len(),
{
    chunks.len() == 0 || (accepted(db, files, root, name, uuid, chunks.drop_last()) && uploaded(
        db,
        files,
        root,
        name,
        uuid,
        chunks.drop_last(),
    ).0.chunk_error(name, uuid, chunks.last().len() as i64, last_range(chunks)).is_none())
}

/// The decimal digits of a number write that number.
pub proof fn lemma_decimal_value(n: nat)
    ensures
        decimal_value(decimal(n)) == n,
    decreases n,
{
    let s = decimal(n);
    let d = n % 10;
    assert(digit_char(d) as u8 == ('0' as u8) + (d as u8));
    assert((digit_char(d) as u8 - '0' as u8) as nat == d);
    if n >= 10 {
        lemma_decimal_value(n / 10);
        assert(s.drop_last() =~= decimal(n / 10));
        assert(s.last() == digit_char(d));
        assert(decimal_value(s) == decimal_value(s.drop_last()) * 10 + d);
    } else {
        assert(s.drop_last() =~= Seq::<char>::empty());
        assert(s.last() == digit_char(d));
        assert(decimal_value(Seq::<char>::empty()) == 0);
        assert(decimal_value(s) == decimal_value(s.drop_last()) * 10 + d);
    }
}

/// Two offsets with one decimal text are one offset.
pub proof fn lemma_decimal_distinct(a: int, b: int)
    requires
        0 <= a,
        0 <= b,
        decimal_i64(a) == decimal_i64(b),
    ensures
        a == b,
{
    lemma_decimal_value(a as nat);
    lemma_decimal_value(b as nat);
}

/// The files of two chunks of one session that start at different offsets differ.
pub proof fn lemma_chunk_files_distinct(root: Seq<char>, name: Seq<char>, uuid: Seq<char>, a: i64, b: i64)
    requires
        0 <= a,
        0 <= b,
        a != b,
    ensures
        chunk_file(root, name, uuid, a) != chunk_file(root, name, uuid, b),
{
    let dir = join(root, chunk_dir(name, uuid));
    let x = decimal_i64(a as int);
    let y = decimal_i64(b as int);
    if join(dir, x) == join(dir, y) {
        assert(join(dir, x).skip(dir.len() as int + 1) =~= x);
        assert(join(dir, y).skip(dir.len() as int + 1) =~= y);
        lemma_decimal_distinct(a as int, b as int);
    }
}

/// The chunks without the last, joined, and the last are the chunks joined.
pub proof fn lemma_joined_last(chunks: Seq<Seq<u8>>)
    requires
        chunks.len() > 0,
    ensures
        joined(chunks) == joined(chunks.drop_last()) + chunks.last(),
        joined(chunks.drop_last()).len() <= joined(chunks).len(),
{
}

/// Two conditions on rows may be applied in either order.
pub proof fn lemma_filter_commute<M>(rows: Seq<M>, p: spec_fn(M) -> bool, q: spec_fn(M) -> bool)
    ensures
        rows.filter(p).filter(q) == rows.filter(q).filter(p),
    decreases rows.len(),
{
    reveal(Seq::filter);
    if rows.len() > 0 {
        let init = rows.drop_last();
        let last = rows.last();
        lemma_filter_commute(init, p, q);
        lemma_filter_push(init.filter(p), last, q);
        lemma_filter_push(init.filter(q), last, p);
    } else {
        assert(rows.filter(p) =~= rows);
        assert(rows.filter(q) =~= rows);
    }
}

/// A file that none of the entries names does not change what they gather.
pub proof fn lemma_gathered_insert(
    files: Map<Seq<char>, Seq<u8>>,
    entries: Seq<(i64, Seq<char>)>,
    path: Seq<char>,
    data: Seq<u8>,
)
    requires
        forall|i: int| 0 <= i < entries.len() ==> (#[trigger] entries[i]).1 != path,
    ensures
        gathered(files.insert(path, data), entries) == gathered(files, entries),
    decreases entries.len(),
{
    if entries.len() > 0 {
        let init = entries.drop_last();
        assert forall|i: int| 0 <= i < init.len() implies (#[trigger] init[i]).1 != path by {
            assert(init[i] == entries[i]);
        }
        lemma_gathered_insert(files, init, path, data);
        assert(entries.last() == entries[entries.len() - 1]);
    }
}

/// What holds of a session of repository `repo` that has taken `total` bytes, `data`, in
/// order: it stands at `total`; its chunk rows have rising offsets up to `total`, each names
/// the file of its offset, and that file is stored; a chunk at `total` itself is empty; and
/// the files of the rows, in their order, hold `data`.
pub open spec fn settled(
    db: DbModel,
    files: Map<Seq<char>, Seq<u8>>,
    root: Seq<char>,
    name: Seq<char>,
    uuid: Seq<char>,
    repo: u64,
    total: int,
    data: Seq<u8>,
) -> bool {
    let entries = db.chunk_entries(repo, uuid);
    &&& db.repo_id(name) == Some(repo)
    &&& 0 <= total <= i64::MAX
    &&& db.session_in(name, uuid) == Some(total as i64)
    &&& rising(entries)
    &&& forall|i: int|
        0 <= i < entries.len() ==> 0 <= (#[trigger] entries[i]).0 <= total && entries[i].1 == chunk_file(
            root,
            name,
            uuid,
            entries[i].0,
        ) && files.contains_key(entries[i].1)
    &&& entries.len() > 0 && entries.last().0 == total ==> files[entries.last().1].len() == 0
    &&& gathered(files, entries) == Some(data)
}

/// The range that a client states for a chunk of `len` bytes behind `total` bytes: from
/// `total` to the last byte of the chunk.
pub open spec fn range_behind(total: int, len: int) -> Option<(i64, i64)> {
    Some((total as i64, (total + len - 1) as i64))
}

/// A session that has taken bytes in order takes one more chunk that starts behind them,
/// and has then taken the bytes and the chunk in order.
pub proof fn lemma_chunk_settled(
    d0: DbModel,
    f0: Map<Seq<char>, Seq<u8>>,
    root: Seq<char>,
    name: Seq<char>,
    uuid: Seq<char>,
    repo: u64,
    total: int,
    data: Seq<u8>,
    chunk: Seq<u8>,
)
    requires
        settled(d0, f0, root, name, uuid, repo, total, data),
        crate::paths::plain_path(chunk_dir(name, uuid)),
        total + chunk.len() < i64::MAX,
    ensures
        d0.chunk_error(name, uuid, chunk.len() as i64, range_behind(total, chunk.len() as int)).is_none(),
        settled(
            chunk_db(d0, root, name, uuid, chunk.len() as i64, range_behind(total, chunk.len() as int), chunk),
            chunk_files(f0, d0, root, name, uuid, chunk),
            root,
            name,
            uuid,
            repo,
            total + chunk.len(),
            data + chunk,
        ),
{
    let range = range_behind(total, chunk.len() as int);
    let path = chunk_file(root, name, uuid, total as i64);
    assert(d0.chunk_error(name, uuid, chunk.len() as i64, range).is_none());
    let d1 = chunk_db(d0, root, name, uuid, chunk.len() as i64, range, chunk);
    let f1 = chunk_files(f0, d0, root, name, uuid, chunk);
    assert(f1 == f0.insert(path, chunk));
    let is_chunk = chunk_of(repo, uuid);
    let off = blob_off_path(path);
    let mine = d0.blobs.filter(is_chunk);
    let held = d0.chunk_entries(repo, uuid);
    assert(held.len() == mine.len());
    let n = held.len() as int;
    // the rows that stay: all, or all but a last and empty chunk at the same offset
    let replaced = n > 0 && held.last().0 == total;
    let stay = if replaced {
        n - 1
    } else {
        n
    };
    assert forall|i: int| 0 <= i < stay implies (#[trigger] held[i]).0 < total && held[i].1 != path by {
        if replaced {
            assert(held[i].0 < held[n - 1].0);
        } else if held[i].0 == total {
            if i < n - 1 {
                assert(held[i].0 < held[n - 1].0);
            }
        }
        lemma_chunk_files_distinct(root, name, uuid, held[i].0, total as i64);
    }
    let kept = mine.take(stay);
    assert(mine.filter(off) == kept) by {
        assert forall|i: int| 0 <= i < kept.len() implies off(#[trigger] kept[i]) by {
            assert(held[i] == (mine[i].chunk_count, mine[i].file_path));
            assert(kept[i] == mine[i]);
        }
        lemma_filter_none_all(kept, off);
        if replaced {
            assert(held[n - 1] == (mine[n - 1].chunk_count, mine[n - 1].file_path));
            assert(held[n - 1].1 == path);
            assert(!off(mine[n - 1]));
            assert(kept.push(mine[n - 1]) =~= mine);
            lemma_filter_push(kept, mine[n - 1], off);
        } else {
            assert(kept =~= mine);
        }
    }
    lemma_filter_commute(d0.blobs, off, is_chunk);
    let row = new_chunk(repo, digest_of(chunk), path, uuid, total as i64);
    lemma_filter_push(d0.blobs.filter(off), row, is_chunk);
    assert(d1.blobs == d0.blobs.filter(off).push(row));
    assert(d1.blobs.filter(is_chunk) == kept.push(row));
    let entries = d1.chunk_entries(repo, uuid);
    let before = held.take(stay);
    assert(entries =~= before.push((total as i64, path))) by {
        assert(entries.len() == stay + 1);
        assert forall|i: int| 0 <= i < entries.len() implies entries[i] == before.push((total as i64, path))[i] by {
            if i < stay {
                assert(kept.push(row)[i] == mine[i]);
                assert(held[i] == (mine[i].chunk_count, mine[i].file_path));
            } else {
                assert(kept.push(row)[i] == row);
            }
        }
    }
    assert(entries.drop_last() =~= before);
    assert(entries.last() == (total as i64, path));
    // the session
    let with = upload_with(uuid);
    lemma_first_where(d0.uploads, with);
    let at = first_where(d0.uploads, with);
    let next = (total + chunk.len()) as i64;
    let moved = UploadModel { current_chunk: next, ..d0.uploads[at] };
    lemma_first_where_update(d0.uploads, at, moved, with);
    assert(d1.uploads == d0.uploads.update(at, moved));
    assert(d1.repositories == d0.repositories);
    assert(d1.session_in(name, uuid) == Some(next));
    // the files
    assert(gathered(f0, before) == Some(data)) by {
        if replaced {
            assert(held.drop_last() =~= before);
            assert(f0[held.last().1] =~= Seq::<u8>::empty());
            assert(gathered(f0, held.drop_last()).unwrap() + f0[held.last().1] =~= gathered(
                f0,
                held.drop_last(),
            ).unwrap());
        } else {
            assert(before =~= held);
        }
    }
    lemma_gathered_insert(f0, before, path, chunk);
    assert(gathered(f1, entries) == Some(data + chunk));
    assert(rising(entries)) by {
        assert forall|i: int, j: int| 0 <= i < j < entries.len() implies entries[i].0 < entries[j].0 by {
            assert(entries[i] == held[i]);
            if j < stay {
                assert(entries[j] == held[j]);
            }
        }
    }
    assert forall|i: int| 0 <= i < entries.len() implies 0 <= (#[trigger] entries[i]).0 <= total + chunk.len()
        && entries[i].1 == chunk_file(root, name, uuid, entries[i].0) && f1.contains_key(entries[i].1) by {
        if i < stay {
            assert(entries[i] == held[i]);
        }
    }
}

/// What holds after `chunks` were sent in order to a session that stood at 0 without
/// chunks: each was accepted, and the session has taken the chunks joined.
pub proof fn lemma_uploaded(
    db: DbModel,
    files: Map<Seq<char>, Seq<u8>>,
    root: Seq<char>,
    name: Seq<char>,
    uuid: Seq<char>,
    repo: u64,
    chunks: Seq<Seq<u8>>,
)
    requires
        db.repo_id(name) == Some(repo),
        db.session_in(name, uuid) == Some(0i64),
        db.chunk_entries(repo, uuid).len() == 0,
        crate::paths::plain_path(chunk_dir(name, uuid)),
        joined(chunks).len() < i64::MAX,
    ensures
        accepted(db, files, root, name, uuid, chunks),
        settled(
            uploaded(db, files, root, name, uuid, chunks).0,
            uploaded(db, files, root, name, uuid, chunks).1,
            root,
            name,
            uuid,
            repo,
            joined(chunks).len() as int,
            joined(chunks),
        ),
    decreases chunks.len(),
{
    if chunks.len() > 0 {
        let init = chunks.drop_last();
        lemma_joined_last(chunks);
        lemma_uploaded(db, files, root, name, uuid, repo, init);
        let before = uploaded(db, files, root, name, uuid, init);
        lemma_chunk_settled(
            before.0,
            before.1,
            root,
            name,
            uuid,
            repo,
            joined(init).len() as int,
            joined(init),
            chunks.last(),
        );
        assert(last_range(chunks) == range_behind(joined(init).len() as int, chunks.last().len() as int));
    }
}

/// A session that is opened, takes chunks in order and is closed gives the blob of the
/// chunks joined: every chunk is accepted, the close is accepted, with or without the right
/// digest announced, the digest of the blob is the SHA-256 digest of the joined bytes, and
/// the file of the blob holds them. A chunk may be empty, and there may be none.
/// The bytes of the chunks fit the counter, and every chunk that the store holds before
/// belongs to an open session.
pub proof fn law_session_digest(
    db: DbModel,
    files: Map<Seq<char>, Seq<u8>>,
    root: Seq<char>,
    name: Seq<char>,
    uuid: Seq<char>,
    chunks: Seq<Seq<u8>>,
)
    requires
        db.session_error(name, uuid).is_none(),
        db.chunks_owned(),
        joined(chunks).len() < i64::MAX,
    ensures
        ({
            let opened = db.with_session(name, uuid);
            let sent = uploaded(opened, files, root, name, uuid, chunks);
            &&& accepted(opened, files, root, name, uuid, chunks)
            &&& finish_error(sent.0, sent.1, name, uuid, None).is_none()
            &&& finish_error(sent.0, sent.1, name, uuid, Some(digest_of(joined(chunks)))).is_none()
            &&& finish_digest(sent.0, sent.1, name, uuid) == digest_of(joined(chunks))
            &&& finish_files(sent.0, sent.1, root, name, uuid).contains_key(
                blob_file(root, name, digest_of(joined(chunks))),
            )
            &&& finish_files(sent.0, sent.1, root, name, uuid)[blob_file(root, name, digest_of(joined(chunks)))]
                == joined(chunks)
        }),
{
    let opened = db.with_session(name, uuid);
    let repo = db.ensured_repo_id(name);
    lemma_session_opened(db, name, uuid);
    lemma_chunk_dir_valid(name, uuid);
    crate::links::law_owned_fresh_session(db, repo, uuid);
    assert(opened.chunk_entries(repo, uuid) == db.chunk_entries(repo, uuid));
    lemma_uploaded(opened, files, root, name, uuid, repo, chunks);
    let sent = uploaded(opened, files, root, name, uuid, chunks);
    lemma_rising_in_order(sent.0.chunk_entries(repo, uuid));
    assert(combined(sent.0, sent.1, repo, uuid) == Some(joined(chunks)));
    crate::digest::lemma_with_prefix_digest(joined(chunks));
}

} // verus!

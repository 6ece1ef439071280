//! Relative paths inside the content store.
//!
//! A path is a list of components separated by `/`. A component is a plain name when it is
//! not empty and is neither `.` nor `..`. A relative path is valid when it can neither leave
//! the store nor be absolute: it is not empty, does not start with `/` or with the component
//! `.`, and has no component `..`. Empty components and `.` after the first stand for
//! nothing, so a valid path has a normal form without them. A plain path is a valid path
//! that is its own normal form: every component is a plain name. The files of the store are
//! kept under plain paths.

use crate::digest::{digest_of, hex, hex_digit, sha256, sha_prefix};
use crate::text::{
    chars_of, decimal, decimal_i64, extend_chars, has_char, lemma_split_single, split, split_on,
    views,
};
use vstd::prelude::*;

verus! {

/// Whether `c` is a plain name: not empty, not `.`, not `..`, and without `/`.
pub open spec fn plain_name(c: Seq<char>) -> bool {
    c.len() > 0 && c != seq!['.'] && c != seq!['.', '.'] && !has_char(c, '/')
}

/// Whether every component of the relative path is a plain name.
pub open spec fn plain_path(path: Seq<char>) -> bool {
    forall|k: int| 0 <= k < split_on(path, '/').len() ==> plain_name(#[trigger] split_on(path, '/')[k])
}

/// Whether the relative path is made of normal components alone: it is not empty, does not
/// start with `/` or with the component `.`, and no component is `..`. Empty components,
/// as before a second `/` or behind a last one, and `.` after the first component stand
/// for nothing.
pub open spec fn valid_path(path: Seq<char>) -> bool {
    &&& split_on(path, '/')[0].len() > 0
    &&& split_on(path, '/')[0] != seq!['.']
    &&& forall|k: int| 0 <= k < split_on(path, '/').len() ==> #[trigger] split_on(path, '/')[k] != seq!['.', '.']
}

/// Whether the component `c` stands for nothing in a path: it is empty or `.`.
pub open spec fn idle_piece(c: Seq<char>) -> bool {
    c.len() == 0 || c == seq!['.']
}

/// The components of `pieces` that stand for something, with `/` between neighbours.
pub open spec fn glued(pieces: Seq<Seq<char>>) -> Seq<char>
    decreases pieces.len(),
{
    if pieces.len() == 0 {
        Seq::<char>::empty()
    } else if idle_piece(pieces.last()) {
        glued(pieces.drop_last())
    } else if glued(pieces.drop_last()).len() == 0 {
        pieces.last()
    } else {
        glued(pieces.drop_last()) + seq!['/'] + pieces.last()
    }
}

/// The normal form of a path: its components without the empty ones and without `.`.
pub open spec fn normal_form(path: Seq<char>) -> Seq<char> {
    glued(split_on(path, '/'))
}

/// `dir` and `name` joined into one path.
pub open spec fn join(dir: Seq<char>, name: Seq<char>) -> Seq<char> {
    dir + seq!['/'] + name
}

/// The text `blobs`.
pub open spec fn blobs_word() -> Seq<char> {
    seq!['b', 'l', 'o', 'b', 's']
}

/// The text `manifests`.
pub open spec fn manifests_word() -> Seq<char> {
    seq!['m', 'a', 'n', 'i', 'f', 'e', 's', 't', 's']
}

fn is_plain(c: &[char]) -> (ok: bool)
    ensures
        ok == (c@.len() > 0 && c@ != seq!['.'] && c@ != seq!['.', '.']),
{
    if c.len() == 0 {
        return false;
    }
    if c.len() == 1 && c[0] == '.' {
        assert(c@ =~= seq!['.']);
        return false;
    }
    if c.len() == 2 && c[0] == '.' && c[1] == '.' {
        assert(c@ =~= seq!['.', '.']);
        return false;
    }
    proof {
        if c@ == seq!['.'] {
            assert(c@.len() == 1 && c@[0] == '.');
        }
        if c@ == seq!['.', '.'] {
            assert(c@.len() == 2 && c@[0] == '.' && c@[1] == '.');
        }
    }
    true
}

/// Whether `name` is a plain name, fit to be the name of a file.
pub fn name_is_valid(name: &str) -> (ok: bool)
    ensures
        ok == plain_name(name@),
{
    let c = chars_of(name);
    let mut i: usize = 0;
    while i < c.len()
        invariant
            i <= c.len(),
            c@ == name@,
            forall|k: int| 0 <= k < i ==> c@[k] != '/',
        decreases c.len() - i,
    {
        if c[i] == '/' {
            assert(has_char(name@, '/'));
            return false;
        }
        i += 1;
    }
    is_plain(c.as_slice())
}

/// Whether the relative path `path` is made of normal components alone, so that it can
/// neither leave the store nor be absolute.
pub fn path_is_valid(path: &str) -> (ok: bool)
    ensures
        ok == valid_path(path@),
{
    let c = chars_of(path);
    let parts = split(c.as_slice(), '/');
    let ghost all = split_on(path@, '/');
    assert(all[0] == parts@[0]@);
    if parts[0].len() == 0 {
        return false;
    }
    if parts[0].len() == 1 && parts[0][0] == '.' {
        assert(all[0] =~= seq!['.']);
        return false;
    }
    assert(all[0] != seq!['.']) by {
        if all[0] == seq!['.'] {
            assert(all[0].len() == 1 && all[0][0] == '.');
        }
    }
    let mut i: usize = 0;
    while i < parts.len()
        invariant
            i <= parts.len(),
            all == views(parts@),
            all == split_on(path@, '/'),
            forall|k: int| 0 <= k < i ==> #[trigger] all[k] != seq!['.', '.'],
        decreases parts.len() - i,
    {
        assert(all[i as int] == parts@[i as int]@);
        if parts[i].len() == 2 && parts[i][0] == '.' && parts[i][1] == '.' {
            assert(all[i as int] =~= seq!['.', '.']);
            return false;
        }
        assert(all[i as int] != seq!['.', '.']) by {
            if all[i as int] == seq!['.', '.'] {
                assert(all[i as int].len() == 2 && all[i as int][0] == '.' && all[i as int][1] == '.');
            }
        }
        i += 1;
    }
    true
}

/// The normal form of `path`: its components without the empty ones and without `.`,
/// with `/` between neighbours.
pub fn normal_path(path: &str) -> (out: String)
    ensures
        out@ == normal_form(path@),
{
    let c = chars_of(path);
    let parts = split(c.as_slice(), '/');
    let ghost all = split_on(path@, '/');
    let mut out: Vec<char> = Vec::new();
    let mut i: usize = 0;
    proof {
        assert(all.take(0) =~= Seq::<Seq<char>>::empty());
    }
    while i < parts.len()
        invariant
            i <= parts.len(),
            all == views(parts@),
            out@ == glued(all.take(i as int)),
        decreases parts.len() - i,
    {
        proof {
            assert(all.take(i + 1).drop_last() =~= all.take(i as int));
            assert(all.take(i + 1).last() == parts@[i as int]@);
        }
        let piece = &parts[i];
        let idle = piece.len() == 0 || (piece.len() == 1 && piece[0] == '.');
        proof {
            if piece@ == seq!['.'] {
                assert(piece@.len() == 1 && piece@[0] == '.');
            }
            if piece.len() == 1 && piece[0] == '.' {
                assert(piece@ =~= seq!['.']);
            }
            assert(idle == idle_piece(piece@));
        }
        if !idle {
            if out.len() > 0 {
                out.push('/');
            }
            extend_chars(&mut out, piece.as_slice());
        }
        i += 1;
    }
    proof {
        assert(all.take(parts.len() as int) =~= all);
    }
    crate::text::string_of(out.as_slice())
}

/// What joining does to the last piece: the pieces before it joined, the separator, and
/// the last piece.
pub proof fn lemma_join_last(pieces: Seq<Seq<char>>, sep: char)
    requires
        pieces.len() >= 2,
    ensures
        crate::text::join_with(pieces, sep) == crate::text::join_with(pieces.drop_last(), sep) + seq![sep]
            + pieces.last(),
    decreases pieces.len(),
{
    if pieces.len() == 2 {
        assert(pieces.skip(1).len() == 1 && pieces.skip(1)[0] == pieces[1]);
        assert(crate::text::join_with(pieces.skip(1), sep) == pieces[1]);
        assert(pieces.drop_last().len() == 1 && pieces.drop_last()[0] == pieces[0]);
        assert(crate::text::join_with(pieces.drop_last(), sep) == pieces[0]);
        assert(pieces.last() == pieces[1]);
    } else {
        let rest = pieces.skip(1);
        lemma_join_last(rest, sep);
        assert(rest.drop_last() =~= pieces.drop_last().skip(1));
        assert(rest.last() == pieces.last());
        assert(pieces.drop_last()[0] == pieces[0]);
        assert(crate::text::join_with(pieces, sep) =~= crate::text::join_with(pieces.drop_last(), sep) + seq![sep]
            + pieces.last());
    }
}

/// Plain names glued are the names joined, and not empty if there is a name.
pub proof fn lemma_glued_plain(pieces: Seq<Seq<char>>)
    requires
        forall|k: int| 0 <= k < pieces.len() ==> plain_name(#[trigger] pieces[k]),
    ensures
        glued(pieces) == crate::text::join_with(pieces, '/'),
        pieces.len() > 0 ==> glued(pieces).len() > 0,
    decreases pieces.len(),
{
    if pieces.len() > 0 {
        let before = pieces.drop_last();
        assert forall|k: int| 0 <= k < before.len() implies plain_name(#[trigger] before[k]) by {
            assert(before[k] == pieces[k]);
        }
        lemma_glued_plain(before);
        assert(plain_name(pieces.last()));
        assert(!idle_piece(pieces.last()));
        if pieces.len() == 1 {
            assert(before.len() == 0);
        } else {
            lemma_join_last(pieces, '/');
        }
    }
}

/// A plain path is a valid path, and it is its own normal form.
pub proof fn lemma_plain_path_normal(path: Seq<char>)
    requires
        plain_path(path),
    ensures
        valid_path(path),
        normal_form(path) == path,
{
    crate::text::lemma_split_join(path, '/');
    let pieces = split_on(path, '/');
    assert(plain_name(pieces[0]));
    assert forall|k: int| 0 <= k < pieces.len() implies #[trigger] pieces[k] != seq!['.', '.'] by {
        assert(plain_name(pieces[k]));
    }
    lemma_glued_plain(pieces);
}

/// Whether every component of the relative path `path` is a plain name: no empty
/// component, no `.`, no `..`, and so no absolute path.
pub fn path_is_plain(path: &str) -> (ok: bool)
    ensures
        ok == plain_path(path@),
{
    let c = chars_of(path);
    let parts = split(c.as_slice(), '/');
    let ghost all = split_on(path@, '/');
    proof {
        crate::text::lemma_split_join(path@, '/');
    }
    let mut i: usize = 0;
    while i < parts.len()
        invariant
            i <= parts.len(),
            all == views(parts@),
            all == split_on(path@, '/'),
            forall|k: int| 0 <= k < all.len() ==> !has_char(#[trigger] all[k], '/'),
            forall|k: int| 0 <= k < i ==> plain_name(#[trigger] all[k]),
        decreases parts.len() - i,
    {
        assert(all[i as int] == parts@[i as int]@);
        if !is_plain(parts[i].as_slice()) {
            assert(!plain_name(all[i as int]));
            return false;
        }
        i += 1;
    }
    true
}

/// Joins `dir` and `name` with a `/` between them.
pub fn join_path(dir: &str, name: &str) -> (out: String)
    ensures
        out@ == join(dir@, name@),
{
    let mut c = chars_of(dir);
    c.push('/');
    let n = chars_of(name);
    extend_chars(&mut c, n.as_slice());
    crate::text::string_of(c.as_slice())
}

/// A plain name is a plain path of one component.
pub proof fn lemma_plain_is_valid(name: Seq<char>)
    requires
        plain_name(name),
    ensures
        plain_path(name),
{
    lemma_split_single(name, '/');
}

/// Two plain paths joined are a plain path.
pub proof fn lemma_join_valid(dir: Seq<char>, rest: Seq<char>)
    requires
        plain_path(dir),
        plain_path(rest),
    ensures
        plain_path(join(dir, rest)),
        split_on(join(dir, rest), '/') == split_on(dir, '/') + split_on(rest, '/'),
    decreases dir.len(),
{
    crate::text::lemma_first_index_of(dir, '/');
    let i = crate::text::first_index_of(dir, '/');
    if i >= dir.len() {
        assert(!has_char(dir, '/')) by {
            if has_char(dir, '/') {
                let k = choose|k: int| 0 <= k < dir.len() && dir[k] == '/';
                assert(dir[k] == '/');
            }
        }
        lemma_split_single(dir, '/');
        crate::text::lemma_split_cons(dir, '/', rest);
    } else {
        let head = dir.take(i);
        let tail = dir.skip(i + 1);
        assert(!has_char(head, '/')) by {
            if has_char(head, '/') {
                let k = choose|k: int| 0 <= k < head.len() && head[k] == '/';
                assert(dir[k] == '/');
            }
        }
        assert(dir =~= head + seq!['/'] + tail);
        crate::text::lemma_split_cons(head, '/', tail);
        assert(plain_path(tail)) by {
            assert forall|k: int| 0 <= k < split_on(tail, '/').len() implies plain_name(
                #[trigger] split_on(tail, '/')[k],
            ) by {
                assert(split_on(dir, '/')[k + 1] == split_on(tail, '/')[k]);
            }
        }
        lemma_join_valid(tail, rest);
        assert(join(dir, rest) =~= head + seq!['/'] + join(tail, rest));
        crate::text::lemma_split_cons(head, '/', join(tail, rest));
        assert(split_on(join(dir, rest), '/') =~= split_on(dir, '/') + split_on(rest, '/'));
    }
    let parts = split_on(join(dir, rest), '/');
    assert forall|k: int| 0 <= k < parts.len() implies plain_name(#[trigger] parts[k]) by {
        if k < split_on(dir, '/').len() {
            assert(parts[k] == split_on(dir, '/')[k]);
        } else {
            assert(parts[k] == split_on(rest, '/')[k - split_on(dir, '/').len()]);
        }
    }
}

/// The words `blobs` and `manifests` are plain names.
pub proof fn lemma_words_plain()
    ensures
        plain_name(blobs_word()),
        plain_name(manifests_word()),
{
    let b = blobs_word();
    let m = manifests_word();
    assert(!has_char(b, '/')) by {
        if has_char(b, '/') {
            let k = choose|k: int| 0 <= k < b.len() && b[k] == '/';
            assert(b[k] == '/');
        }
    }
    assert(!has_char(m, '/')) by {
        if has_char(m, '/') {
            let k = choose|k: int| 0 <= k < m.len() && m[k] == '/';
            assert(m[k] == '/');
        }
    }
    assert(b.len() == 5);
    assert(m.len() == 9);
    assert(seq!['.'].len() == 1);
    assert(seq!['.', '.'].len() == 2);
}

/// A content address is a plain name.
pub proof fn lemma_digest_plain(data: Seq<u8>)
    ensures
        plain_name(digest_of(data)),
{
    let d = digest_of(data);
    let h = hex(sha256(data));
    assert(d.len() >= 7);
    assert(seq!['.'].len() == 1);
    assert(seq!['.', '.'].len() == 2);
    assert(!has_char(d, '/')) by {
        if has_char(d, '/') {
            let k = choose|k: int| 0 <= k < d.len() && d[k] == '/';
            if k < 7 {
                assert(d[k] == sha_prefix()[k]);
            } else {
                assert(d[k] == h[k - 7]);
                let b = sha256(data)[(k - 7) / 2] as int;
                assert(hex_digit(b / 16) != '/');
                assert(hex_digit(b % 16) != '/');
            }
        }
    }
}

/// The decimal text of a number is a plain name.
pub proof fn lemma_decimal_plain(n: int)
    ensures
        plain_name(decimal_i64(n)),
{
    let t = decimal_i64(n);
    lemma_decimal_digits(if n < 0 {
        (0 - n) as nat
    } else {
        n as nat
    });
    assert(seq!['.'].len() == 1);
    assert(seq!['.', '.'].len() == 2);
    if t == seq!['.'] {
        assert(t[0] == '.');
    }
    if t == seq!['.', '.'] {
        assert(t[1] == '.');
    }
    assert(!has_char(t, '/')) by {
        if has_char(t, '/') {
            let k = choose|k: int| 0 <= k < t.len() && t[k] == '/';
            assert(t[k] == '/');
        }
    }
}

/// The decimal digits of a number are digits, at least one.
pub proof fn lemma_decimal_digits(n: nat)
    ensures
        decimal(n).len() >= 1,
        forall|k: int| 0 <= k < decimal(n).len() ==> '0' <= #[trigger] decimal(n)[k] <= '9',
    decreases n,
{
    if n >= 10 {
        lemma_decimal_digits(n / 10);
    }
}

/// Where the reading of a name component stands.
#[derive(Clone, Copy, Debug, PartialEq, Eq, Structural)]
pub enum NameState {
    /// Nothing was read yet.
    Start,
    /// A letter or digit was read last.
    Alnum,
    /// A dot was read last.
    Dot,
    /// One underscore was read last.
    Underscore,
    /// Two underscores were read last.
    Underscores,
    /// One or more hyphens were read last.
    Hyphens,
}

/// Whether `c` is a lower-case letter or a digit.
pub open spec fn name_char(c: char) -> bool {
    ('a' <= c && c <= 'z') || ('0' <= c && c <= '9')
}

/// Where the reading stands after `c`, if `c` may follow: letters and digits may stand
/// anywhere; a dot, one or two underscores, or any number of hyphens may stand between
/// them.
pub open spec fn name_step(state: NameState, c: char) -> Option<NameState> {
    if name_char(c) {
        Some(NameState::Alnum)
    } else {
        match state {
            NameState::Alnum => if c == '.' {
                Some(NameState::Dot)
            } else if c == '_' {
                Some(NameState::Underscore)
            } else if c == '-' {
                Some(NameState::Hyphens)
            } else {
                None
            },
            NameState::Underscore => if c == '_' {
                Some(NameState::Underscores)
            } else {
                None
            },
            NameState::Hyphens => if c == '-' {
                Some(NameState::Hyphens)
            } else {
                None
            },
            _ => None,
        }
    }
}

/// Where the reading stands after all of `s`, if every character may follow the one before.
pub open spec fn name_run(state: NameState, s: Seq<char>) -> Option<NameState>
    decreases s.len(),
{
    if s.len() == 0 {
        Some(state)
    } else {
        match name_step(state, s[0]) {
            Some(next) => name_run(next, s.skip(1)),
            None => None,
        }
    }
}

/// Whether `c` is a component of a repository name: runs of lower-case letters and digits
/// with a dot, one or two underscores, or hyphens between them.
pub open spec fn name_component(c: Seq<char>) -> bool {
    name_run(NameState::Start, c) == Some(NameState::Alnum)
}

/// Whether `name` is a repository name: components as above with `/` between them.
pub open spec fn valid_namespace(name: Seq<char>) -> bool {
    forall|k: int|
        0 <= k < split_on(name, '/').len() ==> name_component(#[trigger] split_on(name, '/')[k])
}

fn step_name(state: NameState, c: char) -> (out: Option<NameState>)
    ensures
        out == name_step(state, c),
{
    if ('a' <= c && c <= 'z') || ('0' <= c && c <= '9') {
        Some(NameState::Alnum)
    } else {
        match state {
            NameState::Alnum => if c == '.' {
                Some(NameState::Dot)
            } else if c == '_' {
                Some(NameState::Underscore)
            } else if c == '-' {
                Some(NameState::Hyphens)
            } else {
                None
            },
            NameState::Underscore => if c == '_' {
                Some(NameState::Underscores)
            } else {
                None
            },
            NameState::Hyphens => if c == '-' {
                Some(NameState::Hyphens)
            } else {
                None
            },
            _ => None,
        }
    }
}

fn is_name_component(c: &[char]) -> (ok: bool)
    ensures
        ok == name_component(c@),
{
    let mut state = NameState::Start;
    let mut i: usize = 0;
    proof {
        assert(c@.skip(0) =~= c@);
    }
    while i < c.len()
        invariant
            i <= c.len(),
            name_run(NameState::Start, c@) == name_run(state, c@.skip(i as int)),
        decreases c.len() - i,
    {
        proof {
            assert(c@.skip(i as int)[0] == c@[i as int]);
            assert(c@.skip(i as int).skip(1) =~= c@.skip(i + 1));
        }
        match step_name(state, c[i]) {
            Some(next) => {
                state = next;
            },
            None => {
                return false;
            },
        }
        i += 1;
    }
    state == NameState::Alnum
}

/// Whether `name` is a repository name: components of lower-case letters and digits, with
/// a dot, one or two underscores or hyphens between them, and `/` between the components.
pub fn is_valid_namespace(name: &str) -> (ok: bool)
    ensures
        ok == valid_namespace(name@),
{
    let c = chars_of(name);
    let parts = split(c.as_slice(), '/');
    let ghost all = split_on(name@, '/');
    let mut i: usize = 0;
    while i < parts.len()
        invariant
            i <= parts.len(),
            all == views(parts@),
            all == split_on(name@, '/'),
            forall|k: int| 0 <= k < i ==> name_component(#[trigger] all[k]),
        decreases parts.len() - i,
    {
        assert(all[i as int] == parts@[i as int]@);
        if !is_name_component(parts[i].as_slice()) {
            return false;
        }
        i += 1;
    }
    true
}

/// A component of a repository name starts with a letter or a digit.
pub proof fn lemma_component_start(c: Seq<char>)
    requires
        name_component(c),
    ensures
        c.len() > 0,
        name_char(c[0]),
{
}

/// A repository name is a plain path.
pub proof fn law_namespace_is_path(name: Seq<char>)
    requires
        valid_namespace(name),
    ensures
        plain_path(name),
{
    crate::text::lemma_split_join(name, '/');
    let parts = split_on(name, '/');
    assert forall|k: int| 0 <= k < parts.len() implies plain_name(#[trigger] parts[k]) by {
        lemma_component_start(parts[k]);
        if parts[k] == seq!['.'] {
            assert(parts[k][0] == '.');
        }
        if parts[k] == seq!['.', '.'] {
            assert(parts[k][0] == '.');
        }
    }
}

/// Whether `c` is a letter, a digit or an underscore: what a tag may start with.
pub open spec fn tag_start(c: char) -> bool {
    ('a' <= c && c <= 'z') || ('A' <= c && c <= 'Z') || ('0' <= c && c <= '9') || c == '_'
}

/// Whether `c` may stand in a tag: what a tag may start with, a dot or a hyphen.
pub open spec fn tag_char(c: char) -> bool {
    tag_start(c) || c == '.' || c == '-'
}

/// Whether `tag` is a tag: one to 128 letters, digits, underscores, dots and hyphens, the
/// first of them no dot and no hyphen.
pub open spec fn valid_tag(tag: Seq<char>) -> bool {
    1 <= tag.len() <= 128 && tag_start(tag[0])
        && forall|k: int| 0 <= k < tag.len() ==> tag_char(#[trigger] tag[k])
}

/// Whether `c` is a lower-case hexadecimal digit.
pub open spec fn hex_char(c: char) -> bool {
    ('0' <= c && c <= '9') || ('a' <= c && c <= 'f')
}

/// Whether `text` has the form of a content address: `sha256:` and 64 lower-case
/// hexadecimal digits.
pub open spec fn digest_form(text: Seq<char>) -> bool {
    text.len() == 71 && text.take(7) == sha_prefix()
        && forall|k: int| 7 <= k < 71 ==> hex_char(#[trigger] text[k])
}

/// Whether `reference` can name a manifest: a tag or a content address.
pub open spec fn valid_reference(reference: Seq<char>) -> bool {
    valid_tag(reference) || digest_form(reference)
}

fn is_tag(c: &[char]) -> (ok: bool)
    ensures
        ok == valid_tag(c@),
{
    if c.len() < 1 || c.len() > 128 {
        return false;
    }
    let first = c[0];
    if !(('a' <= first && first <= 'z') || ('A' <= first && first <= 'Z') || ('0' <= first && first
        <= '9') || first == '_') {
        return false;
    }
    let mut i: usize = 0;
    while i < c.len()
        invariant
            i <= c.len(),
            forall|k: int| 0 <= k < i ==> tag_char(#[trigger] c@[k]),
        decreases c.len() - i,
    {
        let x = c[i];
        if !(('a' <= x && x <= 'z') || ('A' <= x && x <= 'Z') || ('0' <= x && x <= '9') || x == '_' || x
            == '.' || x == '-') {
            assert(!tag_char(c@[i as int]));
            return false;
        }
        i += 1;
    }
    true
}

fn is_digest_form(c: &[char]) -> (ok: bool)
    ensures
        ok == digest_form(c@),
{
    if c.len() != 71 {
        return false;
    }
    if !(c[0] == 's' && c[1] == 'h' && c[2] == 'a' && c[3] == '2' && c[4] == '5' && c[5] == '6' && c[6]
        == ':') {
        proof {
            if c@.take(7) == sha_prefix() {
                assert(c@.take(7)[0] == 's');
                assert(c@.take(7)[1] == 'h');
                assert(c@.take(7)[2] == 'a');
                assert(c@.take(7)[3] == '2');
                assert(c@.take(7)[4] == '5');
                assert(c@.take(7)[5] == '6');
                assert(c@.take(7)[6] == ':');
            }
        }
        return false;
    }
    assert(c@.take(7) =~= sha_prefix());
    let mut i: usize = 7;
    while i < 71
        invariant
            7 <= i <= 71,
            c.len() == 71,
            forall|k: int| 7 <= k < i ==> hex_char(#[trigger] c@[k]),
        decreases 71 - i,
    {
        let x = c[i];
        if !(('0' <= x && x <= '9') || ('a' <= x && x <= 'f')) {
            assert(!hex_char(c@[i as int]));
            return false;
        }
        i += 1;
    }
    true
}

/// Whether `reference` has the form of a content address.
pub fn is_digest_reference(reference: &str) -> (ok: bool)
    ensures
        ok == digest_form(reference@),
{
    let c = chars_of(reference);
    is_digest_form(c.as_slice())
}

/// Whether `reference` can name a manifest: a tag or a content address.
pub fn is_valid_reference(reference: &str) -> (ok: bool)
    ensures
        ok == valid_reference(reference@),
{
    let c = chars_of(reference);
    is_tag(c.as_slice()) || is_digest_form(c.as_slice())
}

/// What can name a manifest is a plain name.
pub proof fn lemma_reference_is_plain(reference: Seq<char>)
    requires
        valid_reference(reference),
    ensures
        plain_name(reference),
{
    assert(seq!['.'].len() == 1);
    assert(seq!['.', '.'].len() == 2);
    if valid_tag(reference) {
        if reference == seq!['.'] || reference == seq!['.', '.'] {
            assert(reference[0] == '.');
        }
        assert(!has_char(reference, '/')) by {
            if has_char(reference, '/') {
                let k = choose|k: int| 0 <= k < reference.len() && reference[k] == '/';
                assert(tag_char(reference[k]));
            }
        }
    } else {
        assert(!has_char(reference, '/')) by {
            if has_char(reference, '/') {
                let k = choose|k: int| 0 <= k < reference.len() && reference[k] == '/';
                if k < 7 {
                    assert(reference.take(7)[k] == sha_prefix()[k]);
                } else {
                    assert(hex_char(reference[k]));
                }
            }
        }
    }
}

} // verus!

//! The order of tags: by their characters with letters folded to lower case and, where
//! that leaves two tags equal, by their characters as they are. It is a total order, so a
//! list of tags has one sorted form and a page of it has a definite rest.

use crate::text::{chars_eq, chars_of, lower, string_of, string_views, to_lower};
use vstd::prelude::*;

verus! {

/// Whether `a` comes before `b` character by character; a proper prefix comes first.
pub open spec fn lex_lt(a: Seq<char>, b: Seq<char>) -> bool
    decreases a.len(),
{
    if b.len() == 0 {
        false
    } else if a.len() == 0 {
        true
    } else if a[0] != b[0] {
        a[0] < b[0]
    } else {
        lex_lt(a.skip(1), b.skip(1))
    }
}

/// Whether tag `a` comes before tag `b`.
pub open spec fn tag_lt(a: Seq<char>, b: Seq<char>) -> bool {
    lex_lt(lower(a), lower(b)) || (lower(a) == lower(b) && lex_lt(a, b))
}

/// Nothing comes before itself.
pub proof fn lemma_lex_irreflexive(a: Seq<char>)
    ensures
        !lex_lt(a, a),
    decreases a.len(),
{
    if a.len() > 0 {
        lemma_lex_irreflexive(a.skip(1));
    }
}

/// Of two different texts one comes before the other, and never both.
pub proof fn lemma_lex_total(a: Seq<char>, b: Seq<char>)
    ensures
        a != b ==> (lex_lt(a, b) || lex_lt(b, a)),
        !(lex_lt(a, b) && lex_lt(b, a)),
    decreases a.len(),
{
    if a.len() > 0 && b.len() > 0 && a[0] == b[0] {
        lemma_lex_total(a.skip(1), b.skip(1));
        if a.skip(1) == b.skip(1) {
            assert(a =~= seq![a[0]] + a.skip(1));
            assert(b =~= seq![b[0]] + b.skip(1));
        }
    } else if a.len() == 0 && b.len() == 0 {
        assert(a =~= b);
    }
}

/// What comes before something that comes before a third comes before the third.
pub proof fn lemma_lex_transitive(a: Seq<char>, b: Seq<char>, c: Seq<char>)
    requires
        lex_lt(a, b),
        lex_lt(b, c),
    ensures
        lex_lt(a, c),
    decreases a.len(),
{
    if a.len() > 0 && a[0] == b[0] && b[0] == c[0] {
        lemma_lex_transitive(a.skip(1), b.skip(1), c.skip(1));
    }
}

/// The order of tags is irreflexive.
pub proof fn lemma_tag_irreflexive(a: Seq<char>)
    ensures
        !tag_lt(a, a),
{
    lemma_lex_irreflexive(a);
    lemma_lex_irreflexive(lower(a));
}

/// Of two different tags one comes before the other, and never both.
pub proof fn lemma_tag_total(a: Seq<char>, b: Seq<char>)
    ensures
        a != b ==> (tag_lt(a, b) || tag_lt(b, a)),
        !(tag_lt(a, b) && tag_lt(b, a)),
{
    lemma_lex_total(a, b);
    lemma_lex_total(lower(a), lower(b));
    lemma_lex_irreflexive(lower(a));
    lemma_lex_irreflexive(lower(b));
}

/// The order of tags is transitive.
pub proof fn lemma_tag_transitive(a: Seq<char>, b: Seq<char>, c: Seq<char>)
    requires
        tag_lt(a, b),
        tag_lt(b, c),
    ensures
        tag_lt(a, c),
{
    if lex_lt(lower(a), lower(b)) && lex_lt(lower(b), lower(c)) {
        lemma_lex_transitive(lower(a), lower(b), lower(c));
    } else if lower(a) == lower(b) && lower(b) == lower(c) {
        lemma_lex_transitive(a, b, c);
    }
}

/// Whether each tag comes before every later one.
pub open spec fn tags_sorted(tags: Seq<Seq<char>>) -> bool {
    forall|i: int, j: int| 0 <= i < j < tags.len() ==> tag_lt(tags[i], tags[j])
}

/// Whether no tag occurs twice.
pub open spec fn tags_distinct(tags: Seq<Seq<char>>) -> bool {
    forall|i: int, j: int| 0 <= i < j < tags.len() ==> tags[i] != tags[j]
}

/// `sorted` with `x` put after the last tag that does not come after `x`.
pub open spec fn insert_tag(sorted: Seq<Seq<char>>, x: Seq<char>) -> Seq<Seq<char>>
    decreases sorted.len(),
{
    if sorted.len() == 0 {
        seq![x]
    } else if tag_lt(x, sorted.last()) {
        insert_tag(sorted.drop_last(), x).push(sorted.last())
    } else {
        sorted.push(x)
    }
}

/// The tags in their order.
pub open spec fn sort_tags(tags: Seq<Seq<char>>) -> Seq<Seq<char>>
    decreases tags.len(),
{
    if tags.len() == 0 {
        tags
    } else {
        insert_tag(sort_tags(tags.drop_last()), tags.last())
    }
}

/// Inserting keeps what was there and adds the new tag; into a sorted list that lacks the
/// tag it gives a sorted list.
pub proof fn lemma_insert_tag(sorted: Seq<Seq<char>>, x: Seq<char>)
    ensures
        insert_tag(sorted, x).len() == sorted.len() + 1,
        forall|t: Seq<char>| #[trigger] insert_tag(sorted, x).contains(t) <==> (t == x || sorted.contains(t)),
        tags_sorted(sorted) && !sorted.contains(x) ==> tags_sorted(insert_tag(sorted, x)),
    decreases sorted.len(),
{
    let out = insert_tag(sorted, x);
    if sorted.len() == 0 {
        assert forall|t: Seq<char>| #[trigger] out.contains(t) <==> (t == x || sorted.contains(t)) by {
            if out.contains(t) {
                let k = choose|k: int| 0 <= k < out.len() && out[k] == t;
                assert(out[k] == x);
            }
            if t == x {
                assert(out[0] == x);
            }
        }
    } else if tag_lt(x, sorted.last()) {
        let init = sorted.drop_last();
        lemma_insert_tag(init, x);
        let mid = insert_tag(init, x);
        assert forall|t: Seq<char>| #[trigger] out.contains(t) <==> (t == x || sorted.contains(t)) by {
            if out.contains(t) {
                let k = choose|k: int| 0 <= k < out.len() && out[k] == t;
                if k < mid.len() {
                    assert(mid[k] == t);
                    assert(mid.contains(t));
                    if init.contains(t) {
                        let j = choose|j: int| 0 <= j < init.len() && init[j] == t;
                        assert(sorted[j] == t);
                    }
                } else {
                    assert(sorted[sorted.len() - 1] == t);
                }
            }
            if t == x {
                assert(mid.contains(x));
                let k = choose|k: int| 0 <= k < mid.len() && mid[k] == x;
                assert(out[k] == x);
            }
            if sorted.contains(t) {
                let j = choose|j: int| 0 <= j < sorted.len() && sorted[j] == t;
                if j < init.len() {
                    assert(init[j] == t);
                    assert(init.contains(t));
                    assert(mid.contains(t));
                    let k = choose|k: int| 0 <= k < mid.len() && mid[k] == t;
                    assert(out[k] == t);
                } else {
                    assert(out[out.len() - 1] == t);
                }
            }
        }
        if tags_sorted(sorted) && !sorted.contains(x) {
            assert(tags_sorted(init)) by {
                assert forall|i: int, j: int| 0 <= i < j < init.len() implies tag_lt(init[i], init[j]) by {
                    assert(tag_lt(sorted[i], sorted[j]));
                }
            }
            assert(!init.contains(x)) by {
                if init.contains(x) {
                    let j = choose|j: int| 0 <= j < init.len() && init[j] == x;
                    assert(sorted[j] == x);
                }
            }
            assert forall|i: int, j: int| 0 <= i < j < out.len() implies tag_lt(out[i], out[j]) by {
                if j < mid.len() {
                    assert(tag_lt(mid[i], mid[j]));
                } else {
                    assert(mid.contains(mid[i]));
                    if mid[i] != x {
                        assert(init.contains(mid[i]));
                        let k = choose|k: int| 0 <= k < init.len() && init[k] == mid[i];
                        assert(tag_lt(sorted[k], sorted[sorted.len() - 1]));
                    }
                }
            }
        }
    } else {
        assert forall|t: Seq<char>| #[trigger] out.contains(t) <==> (t == x || sorted.contains(t)) by {
            if out.contains(t) {
                let k = choose|k: int| 0 <= k < out.len() && out[k] == t;
                if k < sorted.len() {
                    assert(sorted[k] == t);
                }
            }
            if t == x {
                assert(out[out.len() - 1] == x);
            }
            if sorted.contains(t) {
                let j = choose|j: int| 0 <= j < sorted.len() && sorted[j] == t;
                assert(out[j] == t);
            }
        }
        if tags_sorted(sorted) && !sorted.contains(x) {
            assert forall|i: int, j: int| 0 <= i < j < out.len() implies tag_lt(out[i], out[j]) by {
                if j < sorted.len() {
                    assert(tag_lt(sorted[i], sorted[j]));
                } else {
                    let last = sorted.last();
                    assert(sorted.contains(last)) by {
                        assert(sorted[sorted.len() - 1] == last);
                    }
                    lemma_tag_total(x, last);
                    assert(tag_lt(last, x));
                    if i < sorted.len() - 1 {
                        assert(tag_lt(sorted[i], sorted[sorted.len() - 1]));
                        lemma_tag_transitive(sorted[i], last, x);
                    }
                }
            }
        }
    }
}

/// Sorting keeps the tags: as many, and the same ones. Distinct tags come out sorted.
pub proof fn lemma_sort_tags(tags: Seq<Seq<char>>)
    ensures
        sort_tags(tags).len() == tags.len(),
        forall|t: Seq<char>| #[trigger] sort_tags(tags).contains(t) <==> tags.contains(t),
        tags_distinct(tags) ==> tags_sorted(sort_tags(tags)),
    decreases tags.len(),
{
    if tags.len() > 0 {
        let init = tags.drop_last();
        let x = tags.last();
        lemma_sort_tags(init);
        lemma_insert_tag(sort_tags(init), x);
        assert forall|t: Seq<char>| #[trigger] sort_tags(tags).contains(t) <==> tags.contains(t) by {
            if tags.contains(t) {
                let j = choose|j: int| 0 <= j < tags.len() && tags[j] == t;
                if j < init.len() {
                    assert(init[j] == t);
                    assert(init.contains(t));
                }
            }
            if init.contains(t) {
                let j = choose|j: int| 0 <= j < init.len() && init[j] == t;
                assert(tags[j] == t);
            }
            if t == x {
                assert(tags[tags.len() - 1] == t);
            }
        }
        if tags_distinct(tags) {
            assert(tags_distinct(init)) by {
                assert forall|i: int, j: int| 0 <= i < j < init.len() implies init[i] != init[j] by {
                    assert(tags[i] != tags[j]);
                }
            }
            assert(!init.contains(x)) by {
                if init.contains(x) {
                    let j = choose|j: int| 0 <= j < init.len() && init[j] == x;
                    assert(tags[j] != tags[tags.len() - 1]);
                }
            }
        }
    }
}

/// The tag comes after `last`.
pub open spec fn tag_after(last: Seq<char>) -> spec_fn(Seq<char>) -> bool {
    |t: Seq<char>| tag_lt(last, t)
}

/// The page of `tags` that a listing returns: the tags in their order, only those after
/// `last` if it is given, and no more than `n` of them if it is given.
pub open spec fn listed(tags: Seq<Seq<char>>, n: Option<usize>, last: Option<Seq<char>>) -> Seq<Seq<char>> {
    let sorted = sort_tags(tags);
    let after = match last {
        Some(l) => sorted.filter(tag_after(l)),
        None => sorted,
    };
    match n {
        Some(k) => if k < after.len() {
            after.take(k as int)
        } else {
            after
        },
        None => after,
    }
}

/// The tag that a listing names for the next page: the last of a page that is as long as
/// the limit, if the page is not empty.
pub open spec fn next_last(page: Seq<Seq<char>>, n: Option<usize>) -> Option<Seq<char>> {
    match n {
        Some(k) => if page.len() == k && k > 0 {
            Some(page.last())
        } else {
            None
        },
        None => None,
    }
}

/// In a sorted list the tags after `x` are a tail of the list.
pub proof fn lemma_after_is_tail(sorted: Seq<Seq<char>>, x: Seq<char>)
    requires
        tags_sorted(sorted),
    ensures
        sorted.filter(tag_after(x)).len() <= sorted.len(),
        sorted.filter(tag_after(x)) == sorted.skip(sorted.len() - sorted.filter(tag_after(x)).len()),
        forall|k: int| 0 <= k < sorted.len() - sorted.filter(tag_after(x)).len() ==> !tag_lt(x, #[trigger] sorted[k]),
    decreases sorted.len(),
{
    reveal(Seq::filter);
    let p = tag_after(x);
    if sorted.len() > 0 {
        let init = sorted.drop_last();
        assert(tags_sorted(init)) by {
            assert forall|i: int, j: int| 0 <= i < j < init.len() implies tag_lt(init[i], init[j]) by {
                assert(tag_lt(sorted[i], sorted[j]));
            }
        }
        lemma_after_is_tail(init, x);
        let kept = init.filter(p);
        let cut = init.len() - kept.len();
        if p(sorted.last()) {
            assert(sorted.filter(p) =~= kept.push(sorted.last()));
            assert(sorted.filter(p) =~= sorted.skip(cut));
            assert forall|k: int| 0 <= k < sorted.len() - sorted.filter(p).len() implies !tag_lt(x, #[trigger] sorted[k]) by {
                assert(sorted[k] == init[k]);
            }
        } else {
            assert(sorted.filter(p) =~= kept);
            if kept.len() > 0 {
                let y = init[cut];
                assert(kept[0] == init.skip(cut)[0]);
                crate::table::lemma_filter_members(init, p);
                assert(p(kept[0]));
                assert(tag_lt(sorted[cut], sorted[sorted.len() - 1]));
                lemma_tag_transitive(x, y, sorted.last());
            }
            assert(sorted.filter(p) =~= sorted.skip(sorted.len() as int));
            assert forall|k: int| 0 <= k < sorted.len() implies !tag_lt(x, #[trigger] sorted[k]) by {
                if k < init.len() {
                    assert(sorted[k] == init[k]);
                }
            }
        }
    } else {
        assert(sorted.filter(p) =~= sorted.skip(0));
    }
}

/// In a sorted list, the tags after the tag at position `i` are those behind it.
pub proof fn lemma_after_member(sorted: Seq<Seq<char>>, i: int)
    requires
        tags_sorted(sorted),
        0 <= i < sorted.len(),
    ensures
        sorted.filter(tag_after(sorted[i])) == sorted.skip(i + 1),
{
    let x = sorted[i];
    lemma_after_is_tail(sorted, x);
    let kept = sorted.filter(tag_after(x));
    let cut = sorted.len() - kept.len();
    lemma_tag_irreflexive(x);
    if cut <= i {
        assert(kept[i - cut] == sorted.skip(cut)[i - cut]);
        crate::table::lemma_filter_members(sorted, tag_after(x));
        assert((tag_after(x))(kept[i - cut]));
    }
    if cut > i + 1 {
        assert(tag_lt(sorted[i], sorted[i + 1]));
    }
}

/// A listing is sorted, and the page that its link leads to is what follows: the whole
/// list after `last` is the page and then the whole list after the page's last tag.
pub proof fn law_listing_pages(tags: Seq<Seq<char>>, n: usize, last: Option<Seq<char>>)
    requires
        tags_distinct(tags),
    ensures
        tags_sorted(listed(tags, Some(n), last)),
        tags_sorted(listed(tags, None, last)),
        next_last(listed(tags, Some(n), last), Some(n)) matches Some(link) ==> listed(tags, None, last)
            == listed(tags, Some(n), last) + listed(tags, None, Some(link)),
{
    lemma_sort_tags(tags);
    let sorted = sort_tags(tags);
    let after = match last {
        Some(l) => sorted.filter(tag_after(l)),
        None => sorted,
    };
    let cut = sorted.len() - after.len();
    match last {
        Some(l) => {
            lemma_after_is_tail(sorted, l);
        },
        None => {
            assert(sorted.skip(0) =~= sorted);
        },
    }
    assert(after == sorted.skip(cut));
    assert(tags_sorted(after)) by {
        assert forall|i: int, j: int| 0 <= i < j < after.len() implies tag_lt(after[i], after[j]) by {
            assert(tag_lt(sorted[cut + i], sorted[cut + j]));
        }
    }
    let page = listed(tags, Some(n), last);
    assert(tags_sorted(page)) by {
        assert forall|i: int, j: int| 0 <= i < j < page.len() implies tag_lt(page[i], page[j]) by {
            assert(tag_lt(after[i], after[j]));
        }
    }
    if next_last(page, Some(n)).is_some() {
        let link = page.last();
        assert(link == sorted[cut + n - 1]);
        lemma_after_member(sorted, cut + n - 1);
        assert(listed(tags, None, Some(link)) == sorted.skip(cut + n));
        assert(after =~= page + sorted.skip(cut + n));
    }
}

/// Whether `a` comes before `b` character by character.
pub fn lex_less(a: &[char], b: &[char]) -> (out: bool)
    ensures
        out == lex_lt(a@, b@),
{
    let mut i: usize = 0;
    proof {
        assert(a@.skip(0) =~= a@);
        assert(b@.skip(0) =~= b@);
    }
    while i < a.len() && i < b.len()
        invariant
            i <= a.len(),
            i <= b.len(),
            lex_lt(a@, b@) == lex_lt(a@.skip(i as int), b@.skip(i as int)),
        decreases a.len() - i,
    {
        proof {
            assert(a@.skip(i as int)[0] == a@[i as int]);
            assert(b@.skip(i as int)[0] == b@[i as int]);
            assert(a@.skip(i as int).skip(1) =~= a@.skip(i + 1));
            assert(b@.skip(i as int).skip(1) =~= b@.skip(i + 1));
        }
        if a[i] != b[i] {
            return a[i] < b[i];
        }
        i += 1;
    }
    i < b.len()
}

/// Whether tag `a` comes before tag `b`.
pub fn tag_less(a: &[char], b: &[char]) -> (out: bool)
    ensures
        out == tag_lt(a@, b@),
{
    let la = to_lower(a);
    let lb = to_lower(b);
    if lex_less(la.as_slice(), lb.as_slice()) {
        true
    } else if chars_eq(la.as_slice(), lb.as_slice()) {
        lex_less(a, b)
    } else {
        false
    }
}

/// Putting `x` into `sorted` from the back: what stands behind position `p` comes after
/// `x` and stays behind it.
pub proof fn lemma_insert_tag_at(sorted: Seq<Seq<char>>, x: Seq<char>, p: int)
    requires
        0 <= p <= sorted.len(),
        forall|k: int| p <= k < sorted.len() ==> tag_lt(x, #[trigger] sorted[k]),
        p > 0 ==> !tag_lt(x, sorted[p - 1]),
    ensures
        insert_tag(sorted, x) == sorted.insert(p, x),
    decreases sorted.len() - p,
{
    if p < sorted.len() {
        let init = sorted.drop_last();
        assert(tag_lt(x, sorted[sorted.len() - 1]));
        assert forall|k: int| p <= k < init.len() implies tag_lt(x, #[trigger] init[k]) by {
            assert(init[k] == sorted[k]);
        }
        if p > 0 {
            assert(init[p - 1] == sorted[p - 1]);
        }
        lemma_insert_tag_at(init, x, p);
        assert(init.insert(p, x).push(sorted.last()) =~= sorted.insert(p, x));
    } else {
        assert(sorted.push(x) =~= sorted.insert(p, x));
    }
}

/// The tags in their order.
pub fn sorted_tags(tags: &Vec<String>) -> (out: Vec<String>)
    ensures
        string_views(out@) == sort_tags(string_views(tags@)),
{
    let ghost all = string_views(tags@);
    let mut out: Vec<String> = Vec::new();
    let mut i: usize = 0;
    proof {
        assert(all.take(0) =~= Seq::<Seq<char>>::empty());
        assert(string_views(out@) =~= sort_tags(all.take(0)));
    }
    while i < tags.len()
        invariant
            i <= tags.len(),
            all == string_views(tags@),
            string_views(out@) == sort_tags(all.take(i as int)),
        decreases tags.len() - i,
    {
        let x = chars_of(tags[i].as_str());
        let ghost sorted = string_views(out@);
        proof {
            assert(all.take(i + 1).drop_last() =~= all.take(i as int));
            assert(all.take(i + 1).last() == x@);
        }
        let mut p: usize = out.len();
        let mut placed = false;
        while p > 0 && !placed
            invariant
                p <= out.len(),
                sorted == string_views(out@),
                forall|k: int| p <= k < sorted.len() ==> tag_lt(x@, #[trigger] sorted[k]),
                placed ==> p > 0 && !tag_lt(x@, sorted[p - 1]),
            decreases p + if placed { 0int } else { 1int },
        {
            let y = chars_of(out[p - 1].as_str());
            assert(sorted[p - 1] == y@);
            if tag_less(x.as_slice(), y.as_slice()) {
                p -= 1;
            } else {
                placed = true;
            }
        }
        proof {
            lemma_insert_tag_at(sorted, x@, p as int);
        }
        let item = string_of(x.as_slice());
        out.insert(p, item);
        proof {
            assert(string_views(out@) =~= sorted.insert(p as int, x@));
        }
        i += 1;
    }
    proof {
        assert(all.take(tags.len() as int) =~= all);
    }
    out
}

/// The tags of `sorted` that come after `last`.
pub fn tags_after(sorted: &Vec<String>, last: &str) -> (out: Vec<String>)
    ensures
        string_views(out@) == string_views(sorted@).filter(tag_after(last@)),
{
    let ghost all = string_views(sorted@);
    let ghost keep = tag_after(last@);
    let marker = chars_of(last);
    let mut out: Vec<String> = Vec::new();
    let mut i: usize = 0;
    proof {
        assert(all.take(0) =~= Seq::<Seq<char>>::empty());
        assert(all.take(0).filter(keep) =~= Seq::<Seq<char>>::empty()) by {
            reveal(Seq::filter);
        }
    }
    while i < sorted.len()
        invariant
            i <= sorted.len(),
            all == string_views(sorted@),
            marker@ == last@,
            keep == tag_after(last@),
            string_views(out@) == all.take(i as int).filter(keep),
        decreases sorted.len() - i,
    {
        proof {
            assert(all.take(i + 1) =~= all.take(i as int).push(all[i as int]));
            crate::table::lemma_filter_push(all.take(i as int), all[i as int], keep);
            assert(all[i as int] == sorted@[i as int]@);
        }
        let t = chars_of(sorted[i].as_str());
        if tag_less(marker.as_slice(), t.as_slice()) {
            let ghost before = out@;
            let item = sorted[i].clone();
            out.push(item);
            proof {
                assert(string_views(out@) =~= string_views(before).push(item@));
            }
        }
        i += 1;
    }
    proof {
        assert(all.take(sorted.len() as int) =~= all);
    }
    out
}

/// The page of `tags` that a listing returns: the tags in their order, only those after
/// `last` if it is given, and no more than `n` of them if it is given.
pub fn list_page(tags: &Vec<String>, n: Option<usize>, last: Option<&str>) -> (out: Vec<String>)
    ensures
        string_views(out@) == listed(
            string_views(tags@),
            n,
            match last {
                Some(l) => Some(l@),
                None => None,
            },
        ),
{
    let sorted = sorted_tags(tags);
    let mut out = match last {
        Some(l) => tags_after(&sorted, l),
        None => sorted,
    };
    match n {
        Some(k) => {
            if k < out.len() {
                let ghost whole = string_views(out@);
                out.truncate(k);
                proof {
                    assert(string_views(out@) =~= whole.take(k as int));
                }
            }
        },
        None => {},
    }
    out
}

} // verus!

//! Tables of rows: the view of a table, the first row that meets a condition, and the rows
//! that are left when those that meet a condition are taken out.

use vstd::prelude::*;

verus! {

/// The views of the rows of a table, in order.
pub open spec fn views_of<T: View>(rows: Seq<T>) -> Seq<T::V> {
    rows.map_values(|r: T| r@)
}

/// Position of the first row that meets `p`, or the number of rows when none does.
pub open spec fn first_where<M>(rows: Seq<M>, p: spec_fn(M) -> bool) -> int
    decreases rows.len(),
{
    if rows.len() == 0 {
        0
    } else if p(rows[0]) {
        0
    } else {
        1 + first_where(rows.skip(1), p)
    }
}

/// Whether some row meets `p`.
pub open spec fn any_where<M>(rows: Seq<M>, p: spec_fn(M) -> bool) -> bool {
    first_where(rows, p) < rows.len()
}

/// `first_where` lies within the table, no row before it meets `p`, and the row at it does
/// unless it is the number of rows.
pub proof fn lemma_first_where<M>(rows: Seq<M>, p: spec_fn(M) -> bool)
    ensures
        0 <= first_where(rows, p) <= rows.len(),
        forall|k: int| 0 <= k < first_where(rows, p) ==> !p(#[trigger] rows[k]),
        first_where(rows, p) < rows.len() ==> p(rows[first_where(rows, p)]),
        any_where(rows, p) <==> exists|k: int| 0 <= k < rows.len() && p(#[trigger] rows[k]),
    decreases rows.len(),
{
    if rows.len() != 0 && !p(rows[0]) {
        let rest = rows.skip(1);
        lemma_first_where(rest, p);
        assert forall|k: int| 0 <= k < first_where(rows, p) implies !p(#[trigger] rows[k]) by {
            if k > 0 {
                assert(rest[k - 1] == rows[k]);
            }
        }
        if any_where(rows, p) {
            assert(p(rows[first_where(rows, p)]));
        }
        if exists|k: int| 0 <= k < rows.len() && p(#[trigger] rows[k]) {
            let k = choose|k: int| 0 <= k < rows.len() && p(#[trigger] rows[k]);
            assert(rest[k - 1] == rows[k]);
        }
    } else if rows.len() != 0 {
        assert(p(rows[0]));
    }
}

/// A position whose row meets `p`, with no such row before it, is the first.
pub proof fn lemma_first_where_is<M>(rows: Seq<M>, p: spec_fn(M) -> bool, i: int)
    requires
        0 <= i <= rows.len(),
        forall|k: int| 0 <= k < i ==> !p(#[trigger] rows[k]),
        i < rows.len() ==> p(rows[i]),
    ensures
        first_where(rows, p) == i,
{
    lemma_first_where(rows, p);
    let j = first_where(rows, p);
    if j < i {
        assert(p(rows[j]));
    }
}

/// Two conditions that agree on every row keep the same rows.
pub proof fn lemma_filter_agree<M>(rows: Seq<M>, p: spec_fn(M) -> bool, q: spec_fn(M) -> bool)
    requires
        forall|k: int| 0 <= k < rows.len() ==> p(#[trigger] rows[k]) == q(rows[k]),
    ensures
        rows.filter(p) == rows.filter(q),
    decreases rows.len(),
{
    reveal(Seq::filter);
    if rows.len() > 0 {
        let init = rows.drop_last();
        assert forall|k: int| 0 <= k < init.len() implies p(#[trigger] init[k]) == q(init[k]) by {
            assert(init[k] == rows[k]);
        }
        lemma_filter_agree(init, p, q);
        assert(p(rows[rows.len() - 1]) == q(rows[rows.len() - 1]));
    }
}

/// Filtering one more row: the rows kept so far, and the new row if it meets `p`.
pub proof fn lemma_filter_push<M>(rows: Seq<M>, row: M, p: spec_fn(M) -> bool)
    ensures
        rows.push(row).filter(p) == if p(row) {
            rows.filter(p).push(row)
        } else {
            rows.filter(p)
        },
{
    reveal(Seq::filter);
    assert(rows.push(row).drop_last() =~= rows);
}

/// Every row that a filter keeps meets the condition and comes from the table, and every
/// row of the table that meets the condition is kept.
pub proof fn lemma_filter_members<M>(rows: Seq<M>, p: spec_fn(M) -> bool)
    ensures
        forall|k: int| 0 <= k < rows.filter(p).len() ==> p(#[trigger] rows.filter(p)[k])
            && rows.contains(rows.filter(p)[k]),
        forall|k: int| 0 <= k < rows.len() && p(#[trigger] rows[k]) ==> rows.filter(p).contains(rows[k]),
        rows.filter(p).len() <= rows.len(),
{
    rows.lemma_filter_len(p);
    assert forall|k: int| 0 <= k < rows.filter(p).len() implies p(#[trigger] rows.filter(p)[k])
        && rows.contains(rows.filter(p)[k]) by {
        rows.lemma_filter_pred(p, k);
        assert(rows.filter(p).contains(rows.filter(p)[k]));
        rows.lemma_filter_contains_rev(p, rows.filter(p)[k]);
    }
    assert forall|k: int| 0 <= k < rows.len()
        && p(#[trigger] rows[k]) implies rows.filter(p).contains(rows[k]) by {
        rows.lemma_filter_contains(p, k);
    }
}

/// A condition on the rows of a table of `T` that compiled code can test.
pub trait Probe<T: View> {
    /// The condition, on the view of a row.
    spec fn cond(&self) -> spec_fn(T::V) -> bool;

    /// Tests one row.
    fn test(&self, row: &T) -> (b: bool)
        ensures
            b == (self.cond())(row@),
    ;
}

/// Position of the first row that meets `p`.
pub fn position<T: View, P: Probe<T>>(rows: &Vec<T>, p: &P) -> (out: Option<usize>)
    ensures
        match out {
            Some(i) => i < rows.len() && i == first_where(views_of(rows@), p.cond()),
            None => first_where(views_of(rows@), p.cond()) == rows.len(),
        },
{
    let ghost cond = p.cond();
    let mut i: usize = 0;
    while i < rows.len()
        invariant
            i <= rows.len(),
            cond == p.cond(),
            forall|k: int| 0 <= k < i ==> !cond(#[trigger] views_of(rows@)[k]),
        decreases rows.len() - i,
    {
        if p.test(&rows[i]) {
            proof {
                assert(cond(views_of(rows@)[i as int]));
                lemma_first_where_is(views_of(rows@), cond, i as int);
            }
            return Some(i);
        }
        i += 1;
    }
    proof {
        lemma_first_where_is(views_of(rows@), cond, rows.len() as int);
    }
    None
}

/// Keeps the rows that meet `p`, in their order, and takes out the others.
pub fn retain<T: View, P: Probe<T>>(rows: &mut Vec<T>, p: &P)
    ensures
        views_of(final(rows)@) == views_of(old(rows)@).filter(p.cond()),
{
    let ghost keep = p.cond();
    let ghost before = views_of(rows@);
    let ghost mut done: int = 0;
    let mut i: usize = 0;
    proof {
        assert(before.take(0) =~= Seq::<T::V>::empty());
        assert(views_of(rows@).take(0) =~= before.take(0).filter(keep));
        assert(views_of(rows@).skip(0) =~= before.skip(0));
    }
    while i < rows.len()
        invariant
            i <= rows.len(),
            0 <= done <= before.len(),
            keep == p.cond(),
            rows.len() - i == before.len() - done,
            views_of(rows@).take(i as int) == before.take(done).filter(keep),
            views_of(rows@).skip(i as int) == before.skip(done),
        decreases rows.len() - i,
    {
        let ghost current = views_of(rows@);
        proof {
            assert(current[i as int] == current.skip(i as int)[0]);
            assert(before[done] == before.skip(done)[0]);
            assert(before.take(done + 1) =~= before.take(done).push(before[done]));
            lemma_filter_push(before.take(done), before[done], keep);
        }
        if !p.test(&rows[i]) {
            rows.remove(i);
            proof {
                assert(views_of(rows@) =~= current.remove(i as int));
                assert(views_of(rows@).take(i as int) =~= current.take(i as int));
                assert(views_of(rows@).skip(i as int) =~= current.skip(i as int).skip(1));
                assert(before.skip(done).skip(1) =~= before.skip(done + 1));
                done = done + 1;
            }
        } else {
            proof {
                assert(current.take(i + 1) =~= current.take(i as int).push(current[i as int]));
                assert(current.skip(i as int).skip(1) =~= current.skip(i + 1));
                assert(before.skip(done).skip(1) =~= before.skip(done + 1));
                done = done + 1;
            }
            i += 1;
        }
    }
    proof {
        assert(views_of(rows@).take(i as int) =~= views_of(rows@));
        assert(before.take(done) =~= before);
    }
}

/// The number of rows that meet `p`.
pub fn count_where<T: View, P: Probe<T>>(rows: &Vec<T>, p: &P) -> (n: usize)
    ensures
        n == views_of(rows@).filter(p.cond()).len(),
{
    let ghost all = views_of(rows@);
    let ghost keep = p.cond();
    let mut n: usize = 0;
    let mut i: usize = 0;
    proof {
        assert(all.take(0) =~= Seq::<T::V>::empty());
        assert(all.take(0).filter(keep) =~= Seq::<T::V>::empty()) by {
            reveal(Seq::filter);
        }
    }
    while i < rows.len()
        invariant
            i <= rows.len(),
            all == views_of(rows@),
            keep == p.cond(),
            n == all.take(i as int).filter(keep).len(),
            n <= i,
        decreases rows.len() - i,
    {
        proof {
            assert(all.take(i + 1) =~= all.take(i as int).push(all[i as int]));
            lemma_filter_push(all.take(i as int), all[i as int], keep);
        }
        if p.test(&rows[i]) {
            n += 1;
        }
        i += 1;
    }
    proof {
        assert(all.take(rows.len() as int) =~= all);
    }
    n
}

/// Appending a row appends its view.
pub proof fn lemma_views_push<T: View>(rows: Seq<T>, row: T)
    ensures
        views_of(rows.push(row)) == views_of(rows).push(row@),
{
    assert(views_of(rows.push(row)) =~= views_of(rows).push(row@));
}

} // verus!

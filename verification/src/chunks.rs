//! The chunks of an upload session in the order of their offsets.
//!
//! A chunk is known by the offset at which it starts and the path of its file. Chunks are
//! put in order by taking, again and again, the first of those with the least offset.

use vstd::prelude::*;

verus! {

/// Offsets and paths of `entries` as plain values.
pub open spec fn entry_views(entries: Seq<(i64, String)>) -> Seq<(i64, Seq<char>)> {
    entries.map_values(|e: (i64, String)| (e.0, e.1@))
}

/// Position of the first entry with the least offset; 0 for an empty list.
pub open spec fn min_at(entries: Seq<(i64, Seq<char>)>) -> int
    decreases entries.len(),
{
    if entries.len() <= 1 {
        0
    } else {
        let m = min_at(entries.drop_last());
        if entries.last().0 < entries[m].0 {
            entries.len() - 1
        } else {
            m
        }
    }
}

/// The entries by ascending offset; entries with one offset keep their order.
pub open spec fn in_order(entries: Seq<(i64, Seq<char>)>) -> Seq<(i64, Seq<char>)>
    decreases entries.len(),
{
    let m = min_at(entries);
    if entries.len() == 0 || m < 0 || m >= entries.len() {
        entries
    } else {
        seq![entries[m]] + in_order(entries.remove(m))
    }
}

/// Whether the offsets never fall from one entry to the next.
pub open spec fn ascending(entries: Seq<(i64, Seq<char>)>) -> bool {
    forall|i: int, j: int| 0 <= i < j < entries.len() ==> entries[i].0 <= entries[j].0
}

/// Whether the offsets rise from each entry to the next.
pub open spec fn rising(entries: Seq<(i64, Seq<char>)>) -> bool {
    forall|i: int, j: int| 0 <= i < j < entries.len() ==> entries[i].0 < entries[j].0
}

/// `min_at` is a position of the list, no entry has a smaller offset, and no earlier entry
/// has the same.
pub proof fn lemma_min_at(entries: Seq<(i64, Seq<char>)>)
    requires
        entries.len() > 0,
    ensures
        0 <= min_at(entries) < entries.len(),
        forall|k: int| 0 <= k < entries.len() ==> entries[min_at(entries)].0 <= (#[trigger] entries[k]).0,
        forall|k: int| 0 <= k < min_at(entries) ==> entries[min_at(entries)].0 < (#[trigger] entries[k]).0,
    decreases entries.len(),
{
    if entries.len() > 1 {
        let init = entries.drop_last();
        lemma_min_at(init);
        let m = min_at(init);
        assert forall|k: int| 0 <= k < entries.len() implies entries[min_at(entries)].0
            <= (#[trigger] entries[k]).0 by {
            if k < init.len() {
                assert(init[k] == entries[k]);
            }
        }
        assert forall|k: int| 0 <= k < min_at(entries) implies entries[min_at(entries)].0
            < (#[trigger] entries[k]).0 by {
            assert(init[k] == entries[k]);
        }
    }
}

/// Ordering keeps the number of entries.
pub proof fn lemma_in_order_keeps(entries: Seq<(i64, Seq<char>)>)
    ensures
        in_order(entries).len() == entries.len(),
    decreases entries.len(),
{
    if entries.len() > 0 {
        lemma_min_at(entries);
        lemma_in_order_keeps(entries.remove(min_at(entries)));
    }
}

/// The ordered entries are ascending, and each of them is one of the entries.
pub proof fn lemma_in_order_ascending(entries: Seq<(i64, Seq<char>)>)
    ensures
        ascending(in_order(entries)),
        forall|k: int| 0 <= k < in_order(entries).len() ==> entries.contains(#[trigger] in_order(entries)[k]),
    decreases entries.len(),
{
    if entries.len() > 0 {
        lemma_min_at(entries);
        let m = min_at(entries);
        let rest = entries.remove(m);
        lemma_in_order_ascending(rest);
        lemma_in_order_keeps(rest);
        let out = in_order(entries);
        assert forall|k: int| 0 <= k < out.len() implies entries.contains(#[trigger] out[k]) by {
            if k == 0 {
                assert(entries[m] == out[0]);
            } else {
                assert(out[k] == in_order(rest)[k - 1]);
                assert(rest.contains(in_order(rest)[k - 1]));
                let j = choose|j: int| 0 <= j < rest.len() && rest[j] == in_order(rest)[k - 1];
                if j < m {
                    assert(entries[j] == rest[j]);
                } else {
                    assert(entries[j + 1] == rest[j]);
                }
            }
        }
        assert forall|i: int, j: int| 0 <= i < j < out.len() implies out[i].0 <= out[j].0 by {
            assert(entries.contains(out[j]));
            let x = choose|x: int| 0 <= x < entries.len() && entries[x] == out[j];
            if i == 0 {
                assert(out[0] == entries[m]);
            } else {
                assert(out[i] == in_order(rest)[i - 1]);
                assert(out[j] == in_order(rest)[j - 1]);
            }
        }
    }
}

/// Entries whose offsets rise are in order already.
pub proof fn lemma_rising_in_order(entries: Seq<(i64, Seq<char>)>)
    requires
        rising(entries),
    ensures
        in_order(entries) == entries,
    decreases entries.len(),
{
    if entries.len() > 0 {
        lemma_min_at(entries);
        let m = min_at(entries);
        if m > 0 {
            assert(entries[0].0 < entries[m].0);
        }
        let rest = entries.remove(0);
        assert(rising(rest)) by {
            assert forall|i: int, j: int| 0 <= i < j < rest.len() implies rest[i].0 < rest[j].0 by {
                assert(rest[i] == entries[i + 1]);
                assert(rest[j] == entries[j + 1]);
            }
        }
        lemma_rising_in_order(rest);
        assert(seq![entries[0]] + rest =~= entries);
    }
}

fn least(entries: &Vec<(i64, String)>) -> (m: usize)
    requires
        entries.len() > 0,
    ensures
        m == min_at(entry_views(entries@)),
        m < entries.len(),
{
    let ghost all = entry_views(entries@);
    let mut m: usize = 0;
    let mut j: usize = 1;
    proof {
        assert(all.take(1).len() == 1);
    }
    while j < entries.len()
        invariant
            1 <= j <= entries.len(),
            m < j,
            all == entry_views(entries@),
            m == min_at(all.take(j as int)),
        decreases entries.len() - j,
    {
        proof {
            assert(all.take(j + 1).drop_last() =~= all.take(j as int));
            assert(all.take(j + 1).last() == all[j as int]);
            assert(all.take(j + 1)[m as int] == all[m as int]);
        }
        if entries[j].0 < entries[m].0 {
            m = j;
        }
        j += 1;
    }
    proof {
        assert(all.take(entries.len() as int) =~= all);
    }
    m
}

/// Puts the entries in the order of their offsets.
pub fn order_chunks(entries: Vec<(i64, String)>) -> (out: Vec<(i64, String)>)
    ensures
        entry_views(out@) == in_order(entry_views(entries@)),
{
    let ghost want = in_order(entry_views(entries@));
    let mut rest = entries;
    let mut out: Vec<(i64, String)> = Vec::new();
    proof {
        assert(entry_views(out@) + in_order(entry_views(rest@)) =~= want);
    }
    while rest.len() > 0
        invariant
            entry_views(out@) + in_order(entry_views(rest@)) == want,
        decreases rest.len(),
    {
        let m = least(&rest);
        let ghost before = entry_views(rest@);
        let ghost done = entry_views(out@);
        let e = rest.remove(m);
        proof {
            assert(entry_views(rest@) =~= before.remove(m as int));
            assert((e.0, e.1@) == before[m as int]);
        }
        out.push(e);
        proof {
            assert(entry_views(out@) =~= done.push(before[m as int]));
            assert(done + (seq![before[m as int]] + in_order(before.remove(m as int))) =~= done.push(
                before[m as int],
            ) + in_order(before.remove(m as int)));
        }
    }
    proof {
        assert(in_order(entry_views(rest@)) =~= Seq::<(i64, Seq<char>)>::empty());
        assert(entry_views(out@) + Seq::<(i64, Seq<char>)>::empty() =~= entry_views(out@));
    }
    out
}

} // verus!

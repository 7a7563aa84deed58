use crate::line::{scored, EntryView, OutputLine};
use crate::scorer::{skim_match, FuzzyScorer};
use vstd::prelude::*;

verus! {

/// The rank order: matched entries ahead of unmatched ones, then higher
/// scores ahead, then earlier arrivals ahead.
pub open spec fn ranks_before(a: EntryView, b: EntryView) -> bool {
    if a.matched != b.matched {
        a.matched
    } else if a.score != b.score {
        a.score > b.score
    } else {
        a.arrival < b.arrival
    }
}

/// No entry is ranked strictly ahead of an entry that precedes it.
pub open spec fn is_ranked(s: Seq<EntryView>) -> bool {
    forall|i: int, j: int| 0 <= i < j < s.len() ==> !ranks_before(#[trigger] s[j], #[trigger] s[i])
}

/// Inserts `x` into `s` behind every entry that `x` does not rank ahead of,
/// searching from the back.
pub open spec fn insert_ranked(s: Seq<EntryView>, x: EntryView) -> Seq<EntryView>
    decreases s.len(),
{
    if s.len() == 0 || !ranks_before(x, s.last()) {
        s.push(x)
    } else {
        insert_ranked(s.drop_last(), x).push(s.last())
    }
}

/// The stable rank sort of `s`: insertion of each entry in turn.
pub open spec fn sort_ranked(s: Seq<EntryView>) -> Seq<EntryView>
    decreases s.len(),
{
    if s.len() == 0 {
        s
    } else {
        insert_ranked(sort_ranked(s.drop_last()), s.last())
    }
}

/// Every entry of `s` scored anew against `query`.
pub open spec fn rescore_views(s: Seq<EntryView>, query: Seq<char>) -> Seq<EntryView> {
    s.map_values(|e: EntryView| scored(e.text, query, e.arrival))
}

/// The views of a vector of entries.
pub open spec fn views(v: Seq<OutputLine>) -> Seq<EntryView> {
    v.map_values(|e: OutputLine| e@)
}

/// Not ranking ahead is transitive.
proof fn lemma_not_before_trans(a: EntryView, b: EntryView, c: EntryView)
    requires
        !ranks_before(a, b),
        !ranks_before(b, c),
    ensures
        !ranks_before(a, c),
{
}

/// Inserting at the point where the backward search stops.
proof fn lemma_insert_ranked_at(s: Seq<EntryView>, x: EntryView, j: int)
    requires
        0 <= j <= s.len(),
        forall|k: int| j <= k < s.len() ==> ranks_before(x, #[trigger] s[k]),
        j == 0 || !ranks_before(x, s[j - 1]),
    ensures
        insert_ranked(s, x) == s.take(j).push(x) + s.skip(j),
    decreases s.len(),
{
    if s.len() == 0 || !ranks_before(x, s.last()) {
        assert(j == s.len()) by {
            if j < s.len() {
                assert(ranks_before(x, s[s.len() - 1]));
            }
        }
        assert(s.take(j).push(x) + s.skip(j) =~= s.push(x));
    } else {
        let t = s.drop_last();
        assert(j < s.len()) by {
            if j == s.len() {
                assert(!ranks_before(x, s[j - 1]));
            }
        }
        assert forall|k: int| j <= k < t.len() implies ranks_before(x, #[trigger] t[k]) by {
            assert(t[k] == s[k]);
        }
        lemma_insert_ranked_at(t, x, j);
        assert(t.take(j).push(x) + t.skip(j) + seq![s.last()] =~= s.take(j).push(x) + s.skip(j));
    }
}

/// Insertion keeps the entries, adds `x`, and keeps a ranked sequence ranked.
pub proof fn lemma_insert_ranked(s: Seq<EntryView>, x: EntryView)
    ensures
        insert_ranked(s, x).to_multiset() == s.to_multiset().insert(x),
        insert_ranked(s, x).len() == s.len() + 1,
        is_ranked(s) ==> is_ranked(insert_ranked(s, x)),
    decreases s.len(),
{
    broadcast use vstd::seq_lib::group_to_multiset_ensures;

    let r = insert_ranked(s, x);
    if s.len() == 0 || !ranks_before(x, s.last()) {
        if is_ranked(s) {
            assert forall|i: int, j: int| 0 <= i < j < r.len() implies !ranks_before(
                #[trigger] r[j],
                #[trigger] r[i],
            ) by {
                if j == s.len() && i < s.len() - 1 {
                    lemma_not_before_trans(x, s[s.len() - 1], s[i]);
                }
            }
        }
    } else {
        let t = s.drop_last();
        lemma_insert_ranked(t, x);
        assert(s =~= t.push(s.last()));
        let u = insert_ranked(t, x);
        assert(u.to_multiset().insert(s.last()) =~= t.to_multiset().insert(s.last()).insert(x));
        if is_ranked(s) {
            assert(is_ranked(t)) by {
                assert forall|i: int, j: int| 0 <= i < j < t.len() implies !ranks_before(
                    #[trigger] t[j],
                    #[trigger] t[i],
                ) by {
                    assert(t[i] == s[i] && t[j] == s[j]);
                }
            }
            assert forall|i: int| 0 <= i < u.len() implies !ranks_before(
                s.last(),
                #[trigger] u[i],
            ) by {
                assert(u.to_multiset().count(u[i]) > 0);
                assert(u.contains(u[i]));
                if u[i] != x {
                    assert(t.to_multiset().count(u[i]) > 0);
                    let k = choose|k: int| 0 <= k < t.len() && t[k] == u[i];
                    assert(t[k] == s[k]);
                }
            }
            assert forall|i: int, j: int| 0 <= i < j < r.len() implies !ranks_before(
                #[trigger] r[j],
                #[trigger] r[i],
            ) by {
                if j == u.len() {
                    assert(r[i] == u[i]);
                } else {
                    assert(r[i] == u[i] && r[j] == u[j]);
                }
            }
        }
    }
}

/// The rank sort keeps the entries and yields a ranked sequence.
pub proof fn lemma_sort_ranked(s: Seq<EntryView>)
    ensures
        sort_ranked(s).to_multiset() == s.to_multiset(),
        sort_ranked(s).len() == s.len(),
        is_ranked(sort_ranked(s)),
    decreases s.len(),
{
    broadcast use vstd::seq_lib::group_to_multiset_ensures;

    if s.len() > 0 {
        let t = s.drop_last();
        lemma_sort_ranked(t);
        lemma_insert_ranked(sort_ranked(t), s.last());
        assert(s =~= t.push(s.last()));
    }
}

/// A sequence that is already ranked is left as it is by the rank sort.
pub proof fn lemma_sort_ranked_fixed(s: Seq<EntryView>)
    requires
        is_ranked(s),
    ensures
        sort_ranked(s) == s,
    decreases s.len(),
{
    if s.len() > 0 {
        let t = s.drop_last();
        assert(is_ranked(t)) by {
            assert forall|i: int, j: int| 0 <= i < j < t.len() implies !ranks_before(
                #[trigger] t[j],
                #[trigger] t[i],
            ) by {
                assert(t[i] == s[i] && t[j] == s[j]);
            }
        }
        lemma_sort_ranked_fixed(t);
        if t.len() > 0 {
            assert(!ranks_before(s[s.len() - 1], s[s.len() - 2]));
        }
        assert(t.push(s.last()) =~= s);
    }
}

/// Rescoring with a query and sorting by rank, done a second time with the
/// same query, leaves the entries exactly as the first time left them.
pub proof fn lemma_rescore_idempotent(entries: Seq<EntryView>, query: Seq<char>)
    ensures
        ({
            let once = sort_ranked(rescore_views(entries, query));
            sort_ranked(rescore_views(once, query)) == once
        }),
{
    broadcast use vstd::seq_lib::group_to_multiset_ensures;

    let s = rescore_views(entries, query);
    let once = sort_ranked(s);
    lemma_sort_ranked(s);
    assert forall|i: int| 0 <= i < once.len() implies #[trigger] once[i] == scored(
        once[i].text,
        query,
        once[i].arrival,
    ) by {
        assert(once.contains(once[i]));
        assert(once.to_multiset().count(once[i]) > 0);
        assert(s.to_multiset().count(once[i]) > 0);
        assert(s.contains(once[i]));
    }
    assert(rescore_views(once, query) =~= once);
    lemma_sort_ranked_fixed(once);
}

/// Sorts `v` by rank, stably: an insertion sort in place.
pub fn rank_sort(v: &mut Vec<OutputLine>)
    ensures
        views(final(v)@) == sort_ranked(views(old(v)@)),
{
    let ghost orig = views(v@);
    let n = v.len();
    let mut i: usize = 0;
    while i < n
        invariant
            n == v@.len(),
            n == orig.len(),
            i <= n,
            views(v@) == sort_ranked(orig.take(i as int)) + orig.skip(i as int),
        decreases n - i,
    {
        proof {
            lemma_sort_ranked(orig.take(i as int));
        }
        let ghost pre = sort_ranked(orig.take(i as int));
        let ghost vb = v@;
        let x = v.remove(i);
        assert(x@ == orig[i as int]) by {
            assert(views(vb)[i as int] == vb[i as int]@);
            assert((pre + orig.skip(i as int))[i as int] == orig[i as int]);
        }
        assert(views(v@) =~= pre + orig.skip(i as int + 1)) by {
            let w = pre + orig.skip(i as int);
            assert forall|k: int| 0 <= k < v@.len() implies views(v@)[k] == (pre + orig.skip(
                i as int + 1,
            ))[k] by {
                if k < i {
                    assert(views(vb)[k] == vb[k]@);
                    assert(w[k] == pre[k]);
                } else {
                    assert(views(vb)[k + 1] == vb[k + 1]@);
                    assert(w[k + 1] == orig[k + 1]);
                }
            }
        }
        let mut j: usize = i;
        while j > 0 && x.ranks_before(&v[j - 1])
            invariant
                j <= i,
                i < n,
                v@.len() == n - 1,
                views(v@) == pre + orig.skip(i as int + 1),
                pre.len() == i,
                forall|k: int| j <= k < i ==> ranks_before(x@, #[trigger] pre[k]),
            decreases j,
        {
            assert(views(v@)[j - 1] == v@[j - 1]@);
            j -= 1;
        }
        proof {
            if j > 0 {
                assert(views(v@)[j - 1] == v@[j - 1]@);
            }
            lemma_insert_ranked_at(pre, x@, j as int);
        }
        let ghost va = v@;
        let ghost xv = x@;
        v.insert(j, x);
        proof {
            let w = pre + orig.skip(i as int + 1);
            let z = pre.take(j as int).push(xv) + pre.skip(j as int) + orig.skip(i as int + 1);
            assert forall|k: int| 0 <= k < v@.len() implies views(v@)[k] == z[k] by {
                if k < j {
                    assert(views(va)[k] == va[k]@);
                    assert(w[k] == pre[k]);
                } else if k > j {
                    assert(views(va)[k - 1] == va[k - 1]@);
                    assert(z[k] == w[k - 1]);
                }
            }
            assert(views(v@) =~= z);
            assert(orig.take(i as int + 1).drop_last() =~= orig.take(i as int));
            assert(views(v@) =~= insert_ranked(pre, orig[i as int]) + orig.skip(i as int + 1));
        }
        i += 1;
    }
    assert(orig.take(n as int) =~= orig);
    assert(views(v@) =~= sort_ranked(orig));
}

/// Inserts `x` at its rank, behind every entry that it does not rank ahead of.
pub fn insert_entry(v: &mut Vec<OutputLine>, x: OutputLine)
    ensures
        views(final(v)@) == insert_ranked(views(old(v)@), x@),
{
    let ghost s = views(v@);
    let mut j: usize = v.len();
    while j > 0 && x.ranks_before(&v[j - 1])
        invariant
            j <= v@.len(),
            s == views(v@),
            forall|k: int| j <= k < s.len() ==> ranks_before(x@, #[trigger] s[k]),
        decreases j,
    {
        assert(s[j - 1] == v@[j - 1]@);
        j -= 1;
    }
    proof {
        if j > 0 {
            assert(s[j - 1] == v@[j - 1]@);
        }
        lemma_insert_ranked_at(s, x@, j as int);
    }
    let ghost va = v@;
    let ghost xv = x@;
    v.insert(j, x);
    proof {
        let z = s.take(j as int).push(xv) + s.skip(j as int);
        assert forall|k: int| 0 <= k < v@.len() implies views(v@)[k] == z[k] by {
            if k < j {
                assert(views(va)[k] == va[k]@);
            } else if k > j {
                assert(views(va)[k - 1] == va[k - 1]@);
            }
        }
        assert(views(v@) =~= z);
    }
}

/// Rescores every entry against `pattern`, then sorts them by rank.
pub fn update_fuzz(output: &mut Vec<OutputLine>, matcher: &FuzzyScorer, pattern: &str)
    ensures
        views(final(output)@) == sort_ranked(rescore_views(views(old(output)@), pattern@)),
        pattern@.len() == 0 ==> forall|k: int|
            0 <= k < old(output)@.len() ==> skim_match((#[trigger] old(output)@[k])@.text, pattern@)
                == Some((0i64, Seq::<usize>::empty())),
{
    let ghost orig = views(output@);
    let mut i: usize = 0;
    while i < output.len()
        invariant
            output@.len() == orig.len(),
            i <= orig.len(),
            forall|k: int| 0 <= k < i ==> (#[trigger] output@[k])@ == scored(orig[k].text, pattern@, orig[k].arrival),
            forall|k: int| i <= k < orig.len() ==> (#[trigger] output@[k])@ == orig[k],
            orig == views(old(output)@),
            pattern@.len() == 0 ==> forall|k: int|
                0 <= k < i ==> skim_match((#[trigger] old(output)@[k])@.text, pattern@) == Some(
                    (0i64, Seq::<usize>::empty()),
                ),
        decreases orig.len() - i,
    {
        assert(orig[i as int] == old(output)@[i as int]@);
        output[i].update(matcher, pattern);
        i += 1;
    }
    assert(views(output@) =~= rescore_views(orig, pattern@));
    rank_sort(output);
}

} // verus!

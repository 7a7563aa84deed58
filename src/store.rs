use crate::line::{scored, EntryView, OutputLine};
use crate::rank::{
    insert_entry, insert_ranked, is_ranked, ranks_before, lemma_insert_ranked, lemma_sort_ranked,
    rescore_views, sort_ranked, update_fuzz, views,
};
use crate::scorer::FuzzyScorer;
use vstd::prelude::*;

verus! {

/// The abstract value of an entry store: the query that the entries are
/// scored against, and the entries in rank order.
pub struct StoreView {
    pub query: Seq<char>,
    pub entries: Seq<EntryView>,
}

/// Each entry is scored against `query`.
pub open spec fn all_scored(entries: Seq<EntryView>, query: Seq<char>) -> bool {
    forall|i: int| 0 <= i < entries.len() ==> #[trigger] entries[i] == scored(entries[i].text, query, entries[i].arrival)
}

/// How many entries are shown for `max_rows` rows: the leading matched
/// entries, at most `max_rows` of them.
pub open spec fn is_visible_count(entries: Seq<EntryView>, max_rows: nat, k: nat) -> bool {
    &&& k <= max_rows
    &&& k <= entries.len()
    &&& forall|i: int| 0 <= i < k ==> (#[trigger] entries[i]).matched
    &&& (k == max_rows || k == entries.len() || !entries[k as int].matched)
}

/// The entries of the current directory, scored against the current query
/// and kept in rank order.
pub struct EntryStore {
    entries: Vec<OutputLine>,
    query: String,
    scorer: FuzzyScorer,
}

impl View for EntryStore {
    type V = StoreView;

    closed spec fn view(&self) -> StoreView {
        StoreView { query: self.query@, entries: views(self.entries@) }
    }
}

impl EntryStore {
    pub closed spec fn wf(&self) -> bool {
        &&& is_ranked(self@.entries)
        &&& all_scored(self@.entries, self@.query)
    }

    /// An empty store with the empty query.
    pub fn new() -> (r: EntryStore)
        ensures
            r.wf(),
            r@.query.len() == 0,
            r@.entries.len() == 0,
    {
        let r = EntryStore { entries: Vec::new(), query: String::new(), scorer: FuzzyScorer::new() };
        assert(views(r.entries@) =~= Seq::<EntryView>::empty());
        r
    }

    /// The number of entries.
    pub fn len(&self) -> (r: usize)
        ensures
            r == self@.entries.len(),
    {
        self.entries.len()
    }

    /// The current query.
    pub fn query(&self) -> (r: &str)
        ensures
            r@ == self@.query,
    {
        self.query.as_str()
    }

    /// Scores `text` against the current query and inserts it at its rank;
    /// its arrival stamp is the number of entries held before.
    pub fn append(&mut self, text: String)
        requires
            old(self).wf(),
        ensures
            final(self).wf(),
            final(self)@.query == old(self)@.query,
            final(self)@.entries == insert_ranked(
                old(self)@.entries,
                scored(text@, old(self)@.query, old(self)@.entries.len()),
            ),
    {
        let n = self.entries.len();
        let e = OutputLine::new(text, &self.scorer, self.query.as_str()).stamped(n);
        let ghost ev = e@;
        insert_entry(&mut self.entries, e);
        proof {
            broadcast use vstd::seq_lib::group_to_multiset_ensures;

            let s = old(self)@.entries;
            lemma_insert_ranked(s, ev);
            let r = insert_ranked(s, ev);
            assert forall|i: int| 0 <= i < r.len() implies #[trigger] r[i] == scored(r[i].text, self@.query, r[i].arrival) by {
                assert(r.contains(r[i]));
                assert(r.to_multiset().count(r[i]) > 0);
                if r[i] != ev {
                    assert(s.to_multiset().count(r[i]) > 0);
                    assert(s.contains(r[i]));
                    let k = choose|k: int| 0 <= k < s.len() && s[k] == r[i];
                    assert(s[k] == scored(s[k].text, self@.query, s[k].arrival));
                }
            }
        }
    }

    /// Scores every entry anew against `query` and sorts them by rank:
    /// entries of equal rank key keep their order of arrival.
    pub fn rescore_all(&mut self, query: &str)
        requires
            old(self).wf(),
        ensures
            final(self).wf(),
            final(self)@.query == query@,
            final(self)@.entries == sort_ranked(rescore_views(old(self)@.entries, query@)),
            final(self)@.entries.to_multiset() == rescore_views(old(self)@.entries, query@).to_multiset(),
            is_ranked(final(self)@.entries),
            forall|i: int, j: int|
                0 <= i < j < final(self)@.entries.len() && #[trigger] final(self)@.entries[i].matched
                    == #[trigger] final(self)@.entries[j].matched && final(self)@.entries[i].score
                    == final(self)@.entries[j].score ==> final(self)@.entries[i].arrival
                    <= final(self)@.entries[j].arrival,
            query@.len() == 0 ==> forall|i: int, j: int|
                0 <= i < j < final(self)@.entries.len() ==> (#[trigger] final(self)@.entries[i]).arrival
                    <= (#[trigger] final(self)@.entries[j]).arrival,
    {
        self.query = String::from_str(query);
        update_fuzz(&mut self.entries, &self.scorer, query);
        proof {
            broadcast use vstd::seq_lib::group_to_multiset_ensures;

            let s = rescore_views(old(self)@.entries, query@);
            lemma_sort_ranked(s);
            let r = sort_ranked(s);
            assert forall|i: int| 0 <= i < r.len() implies #[trigger] r[i] == scored(r[i].text, query@, r[i].arrival) by {
                assert(r.contains(r[i]));
                assert(r.to_multiset().count(r[i]) > 0);
                assert(s.to_multiset().count(r[i]) > 0);
                assert(s.contains(r[i]));
                let k = choose|k: int| 0 <= k < s.len() && s[k] == r[i];
                let o = old(self)@.entries[k];
                assert(s[k] == scored(o.text, query@, o.arrival));
            }
            if query@.len() == 0 {
                assert forall|i: int| 0 <= i < r.len() implies (#[trigger] r[i]).matched && r[i].score == 0 by {
                    assert(r.contains(r[i]));
                    assert(r.to_multiset().count(r[i]) > 0);
                    assert(s.to_multiset().count(r[i]) > 0);
                    assert(s.contains(r[i]));
                    let k = choose|k: int| 0 <= k < s.len() && s[k] == r[i];
                    assert(old(self)@.entries[k] == old(self).entries@[k]@);
                }
                assert forall|i: int, j: int| 0 <= i < j < r.len() implies (#[trigger] r[i]).arrival
                    <= (#[trigger] r[j]).arrival by {
                    assert(!ranks_before(r[j], r[i]));
                }
            }
        }
    }

    /// Removes every entry; the query stays.
    pub fn clear(&mut self)
        requires
            old(self).wf(),
        ensures
            final(self).wf(),
            final(self)@.query == old(self)@.query,
            final(self)@.entries.len() == 0,
    {
        self.entries.clear();
        assert(views(self.entries@) =~= Seq::<EntryView>::empty());
    }

    /// Copies of the entries shown on `max_rows` rows: the leading matched
    /// entries in rank order, at most `max_rows` of them.
    pub fn snapshot_visible(&self, max_rows: usize) -> (r: Vec<OutputLine>)
        ensures
            is_visible_count(self@.entries, max_rows as nat, r@.len()),
            forall|i: int| 0 <= i < r@.len() ==> (#[trigger] r@[i])@ == self@.entries[i],
    {
        let mut r: Vec<OutputLine> = Vec::new();
        let mut i: usize = 0;
        while i < max_rows && i < self.entries.len() && self.entries[i].is_match()
            invariant
                i <= max_rows,
                i <= self.entries@.len(),
                r@.len() == i,
                forall|k: int| 0 <= k < i ==> (#[trigger] r@[k])@ == self@.entries[k],
                forall|k: int| 0 <= k < i ==> (#[trigger] self@.entries[k]).matched,
            decreases max_rows - i,
        {
            assert(self@.entries[i as int] == self.entries@[i as int]@);
            r.push(self.entries[i].duplicate());
            i += 1;
        }
        proof {
            if i < max_rows && i < self.entries@.len() {
                assert(self@.entries[i as int] == self.entries@[i as int]@);
            }
        }
        r
    }
}

} // verus!

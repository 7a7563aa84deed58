use crate::rank::ranks_before;
use crate::scorer::{skim_match, FuzzyScorer};
use crate::text::{push_char, red_fg, red_fg_seq, reset_fg, reset_fg_seq};
use vstd::prelude::*;

verus! {

/// The abstract value of an entry: its text, its score against the current
/// query, the matched character offsets, whether the query matched at all,
/// and the arrival stamp that breaks ties between equal scores.
pub struct EntryView {
    pub text: Seq<char>,
    pub score: int,
    pub positions: Seq<usize>,
    pub matched: bool,
    pub arrival: nat,
}

/// An entry scored against `query`. A query that does not match gives no
/// score (zero), no positions, and `matched == false`: a stale score from an
/// earlier query is never kept.
pub open spec fn scored(text: Seq<char>, query: Seq<char>, arrival: nat) -> EntryView {
    match skim_match(text, query) {
        Some((s, ix)) => EntryView { text, score: s as int, positions: ix, matched: true, arrival },
        None => EntryView { text, score: 0, positions: Seq::empty(), matched: false, arrival },
    }
}

/// The characters of the first `n` characters of `text`, each preceded by
/// the colour sequence that highlights it when its offset is in `positions`
/// and resets the colour otherwise.
pub open spec fn render_prefix(text: Seq<char>, positions: Seq<usize>, n: nat) -> Seq<char>
    decreases n,
{
    if n == 0 {
        Seq::empty()
    } else {
        let k = (n - 1) as nat;
        let colour = if positions.contains(k as usize) {
            red_fg_seq()
        } else {
            reset_fg_seq()
        };
        render_prefix(text, positions, k) + colour + seq![text[k as int]]
    }
}

/// One display row: at most `width` characters of the entry, highlighted,
/// and a line feed.
pub open spec fn render_row(e: EntryView, width: nat) -> Seq<char> {
    let n = if width < e.text.len() { width } else { e.text.len() };
    render_prefix(e.text, e.positions, n).push('\n')
}

/// One candidate path with its score against the current query.
pub struct OutputLine {
    data: String,
    score: i64,
    indices: Vec<usize>,
    matched: bool,
    arrival: usize,
}

impl View for OutputLine {
    type V = EntryView;

    closed spec fn view(&self) -> EntryView {
        EntryView {
            text: self.data@,
            score: self.score as int,
            positions: self.indices@,
            matched: self.matched,
            arrival: self.arrival as nat,
        }
    }
}

fn contains_index(v: &Vec<usize>, x: usize) -> (r: bool)
    ensures
        r == v@.contains(x),
{
    let mut i: usize = 0;
    while i < v.len()
        invariant
            i <= v@.len(),
            forall|j: int| 0 <= j < i ==> v@[j] != x,
        decreases v@.len() - i,
    {
        if v[i] == x {
            return true;
        }
        i += 1;
    }
    false
}

impl OutputLine {
    /// Scores `data` against `match_with`.
    pub fn new(data: String, matcher: &FuzzyScorer, match_with: &str) -> (r: OutputLine)
        ensures
            r@ == scored(data@, match_with@, 0),
    {
        let (score, indices, matched) = match matcher.score(data.as_str(), match_with) {
            Some((s, ix)) => (s, ix, true),
            None => (0i64, Vec::new(), false),
        };
        OutputLine { data, score, indices, matched, arrival: 0 }
    }

    /// Rescores the entry against `match_with`, keeping its text and arrival.
    pub fn update(&mut self, matcher: &FuzzyScorer, match_with: &str) -> (r: &mut OutputLine)
        ensures
            (*r)@ == scored(old(self)@.text, match_with@, old(self)@.arrival),
            *final(self) == *final(r),
            match_with@.len() == 0 ==> skim_match(old(self)@.text, match_with@) == Some(
                (0i64, Seq::<usize>::empty()),
            ),
    {
        match matcher.score(self.data.as_str(), match_with) {
            Some((s, ix)) => {
                self.score = s;
                self.indices = ix;
                self.matched = true;
            },
            None => {
                self.score = 0;
                self.indices = Vec::new();
                self.matched = false;
            },
        }
        self
    }

    /// Whether this entry is ranked strictly ahead of `other`.
    pub fn ranks_before(&self, other: &OutputLine) -> (r: bool)
        ensures
            r == ranks_before(self@, other@),
    {
        if self.matched != other.matched {
            self.matched
        } else if self.score != other.score {
            self.score > other.score
        } else {
            self.arrival < other.arrival
        }
    }

    /// A copy of this entry.
    pub fn duplicate(&self) -> (r: OutputLine)
        ensures
            r@ == self@,
    {
        OutputLine {
            data: self.data.clone(),
            score: self.score,
            indices: self.indices.clone(),
            matched: self.matched,
            arrival: self.arrival,
        }
    }

    /// The path text of this entry.
    pub fn text(&self) -> (r: &str)
        ensures
            r@ == self@.text,
    {
        self.data.as_str()
    }

    /// The score against the current query (zero when it does not match).
    pub fn score(&self) -> (r: i64)
        ensures
            r as int == self@.score,
    {
        self.score
    }

    /// The matched character offsets.
    pub fn indices(&self) -> (r: &Vec<usize>)
        ensures
            r@ == self@.positions,
    {
        &self.indices
    }

    /// Whether the current query matched this entry.
    pub fn is_match(&self) -> (r: bool)
        ensures
            r == self@.matched,
    {
        self.matched
    }

    /// The same entry with the arrival stamp `arrival`.
    pub(crate) fn stamped(self, arrival: usize) -> (r: OutputLine)
        ensures
            r@ == (EntryView { arrival: arrival as nat, ..self@ }),
    {
        OutputLine { arrival, ..self }
    }

    /// The row shown for this entry on a terminal `term_width` columns wide.
    pub fn display(&self, term_width: usize) -> (r: String)
        ensures
            r@ == render_row(self@, term_width as nat),
    {
        let n = self.data.as_str().unicode_len();
        let k = if term_width < n { term_width } else { n };
        let mut line = String::new();
        let mut i: usize = 0;
        while i < k
            invariant
                k <= self@.text.len(),
                k == (if term_width < self@.text.len() { term_width as nat } else { self@.text.len() }),
                i <= k,
                line@ == render_prefix(self@.text, self@.positions, i as nat),
            decreases k - i,
        {
            let ch = self.data.as_str().get_char(i);
            if contains_index(&self.indices, i) {
                line.append(red_fg());
            } else {
                line.append(reset_fg());
            }
            push_char(&mut line, ch);
            i += 1;
        }
        push_char(&mut line, '\n');
        line
    }
}

} // verus!

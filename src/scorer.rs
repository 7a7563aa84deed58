use fuzzy_matcher::skim::SkimMatcherV2;
use fuzzy_matcher::FuzzyMatcher;
use vstd::prelude::*;

verus! {

#[verifier::external_type_specification]
#[verifier::external_body]
pub struct ExSkimMatcherV2(SkimMatcherV2);

/// What skim's V2 fuzzy matcher, in its default configuration (smart case:
/// case-insensitive unless the pattern holds an upper-case letter), returns
/// for a candidate and a pattern: `None` when no alignment exists, else the
/// score and the character offsets of the candidate that were matched.
pub uninterp spec fn skim_match(choice: Seq<char>, pattern: Seq<char>) -> Option<(i64, Seq<usize>)>;

/// The view of a scoring result: the positions as a sequence.
pub open spec fn match_view(r: Option<(i64, Vec<usize>)>) -> Option<(i64, Seq<usize>)> {
    match r {
        Some((s, ix)) => Some((s, ix@)),
        None => None,
    }
}

/// The fuzzy scorer: a pure function of candidate and query.
pub struct FuzzyScorer {
    matcher: SkimMatcherV2,
}

/// Relies on `SkimMatcherV2::default`, which builds the matcher in its
/// default configuration.
#[verifier::external_body]
fn default_matcher() -> (r: SkimMatcherV2) {
    SkimMatcherV2::default()
}

impl FuzzyScorer {
    pub fn new() -> (r: FuzzyScorer) {
        FuzzyScorer { matcher: default_matcher() }
    }

    /// Scores `choice` against `pattern`.
    /// Relies on `SkimMatcherV2::fuzzy_indices` (through `fuzzy`): its result
    /// depends on the two strings alone, the matcher here being always in its
    /// default configuration, and an empty pattern gives `Some((0, []))`.
    #[verifier::external_body]
    pub(crate) fn score(&self, choice: &str, pattern: &str) -> (r: Option<(i64, Vec<usize>)>)
        ensures
            match_view(r) == skim_match(choice@, pattern@),
            pattern@.len() == 0 ==> match_view(r) == Some((0i64, Seq::<usize>::empty())),
    {
        self.matcher.fuzzy_indices(choice, pattern)
    }
}

} // verus!

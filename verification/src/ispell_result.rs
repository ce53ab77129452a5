//! The typed outcomes the protocol decoder produces, one per checked
//! word, and their spec-level views.

use vstd::prelude::*;

verus! {

/// The view of an [`IspellError`]: the flagged word, its character
/// offset in the submitted line, and the suggested replacements.
pub struct IssueView {
    pub misspelled: Seq<char>,
    pub position: int,
    pub suggestions: Seq<Seq<char>>,
}

/// One flagged word, reported when the subordinate process does not
/// recognize it verbatim.
#[derive(Debug, PartialEq)]
pub struct IspellError {
    /// The misspelled word.
    pub misspelled: String,
    /// The position of the word: the number of characters since the
    /// beginning of the submitted line.
    pub position: usize,
    /// An ordered, possibly empty list of suggested replacements.
    pub suggestions: Vec<String>,
}

impl View for IspellError {
    type V = IssueView;

    open spec fn view(&self) -> IssueView {
        IssueView {
            misspelled: self.misspelled@,
            position: self.position as int,
            suggestions: self.suggestions.deep_view(),
        }
    }
}

impl DeepView for IspellError {
    type V = IssueView;

    open spec fn deep_view(&self) -> IssueView {
        self.view()
    }
}

/// The view of an [`IspellResult`].
pub enum OutcomeView {
    Correct,
    Compound,
    RootMatch(Seq<char>),
    NearMiss(IssueView),
    GuessedAffix(IssueView),
    NoMatch(IssueView),
}

/// The decoded interpretation of one protocol response line: one
/// outcome per checked word.
#[derive(Debug, PartialEq)]
pub enum IspellResult {
    /// The word was found in the dictionary. Corresponds to `*`.
    Correct,
    /// The word was recognized as a compound of dictionary words.
    /// Corresponds to `-`.
    Compound,
    /// The word was not found verbatim, but a root word was.
    /// Corresponds to `+`.
    RootMatch(String),
    /// The word was not found, but there are near misses.
    /// Corresponds to `&`.
    NearMiss(IspellError),
    /// The word could be formed by adding illegal affixes to a known
    /// root. Corresponds to `?`.
    GuessedAffix(IspellError),
    /// The word was not found and there are no suggestions.
    /// Corresponds to `#`.
    NoMatch(IspellError),
}

impl View for IspellResult {
    type V = OutcomeView;

    open spec fn view(&self) -> OutcomeView {
        match self {
            IspellResult::Correct => OutcomeView::Correct,
            IspellResult::Compound => OutcomeView::Compound,
            IspellResult::RootMatch(root) => OutcomeView::RootMatch(root@),
            IspellResult::NearMiss(e) => OutcomeView::NearMiss(e@),
            IspellResult::GuessedAffix(e) => OutcomeView::GuessedAffix(e@),
            IspellResult::NoMatch(e) => OutcomeView::NoMatch(e@),
        }
    }
}

impl DeepView for IspellResult {
    type V = OutcomeView;

    open spec fn deep_view(&self) -> OutcomeView {
        self.view()
    }
}

} // verus!

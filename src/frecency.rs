use vstd::prelude::*;

verus! {

/// Frecency above which a page counts as visited more than once.
pub const SKIP_ONE_PAGE_FRECENCY_THRESHOLD: i64 = 102;

/// Which pages a top-sites query keeps.
#[derive(Clone, Copy, Debug, PartialEq, Eq, Structural)]
pub enum FrecencyThresholdOption {
    NoThreshold,
    SkipOneTimePages,
}

impl FrecencyThresholdOption {
    pub open spec fn spec_value(&self) -> i64 {
        match self {
            FrecencyThresholdOption::NoThreshold => 0,
            FrecencyThresholdOption::SkipOneTimePages => SKIP_ONE_PAGE_FRECENCY_THRESHOLD,
        }
    }

    /// The lowest frecency that a page must have to be kept.
    pub fn value(&self) -> (r: i64)
        ensures
            r == self.spec_value(),
    {
        match self {
            FrecencyThresholdOption::NoThreshold => 0,
            FrecencyThresholdOption::SkipOneTimePages => SKIP_ONE_PAGE_FRECENCY_THRESHOLD,
        }
    }
}

/// Why an autocomplete result matched the query.
#[derive(Clone, Copy, Debug, PartialEq, Eq, Structural)]
pub enum MatchReason {
    Keyword,
    Origin,
    UrlMatch,
    PreviousUse,
    Bookmark,
    Tags,
}

} // verus!

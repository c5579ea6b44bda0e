//! Evaluation options: an immutable configuration value threaded
//! explicitly into every evaluation call.

use vstd::prelude::*;

verus! {

/// The default similarity threshold, in thousandths of a normalized
/// similarity score.
pub const DEFAULT_STRSIM_THRESHOLD: u32 = 850;

/// Options of a matcher evaluation: whether comparisons fold letter
/// case, and the closed lower bound a normalized similarity score must
/// reach for `=*` to succeed, in thousandths (`700` stands for 0.7).
#[derive(Debug, Clone, Copy, PartialEq, Eq, Structural)]
pub struct MatcherOptions {
    pub case_ignore: bool,
    pub strsim_threshold: u32,
}

impl MatcherOptions {
    /// The default options: case-sensitive comparisons, threshold 0.85.
    pub fn new() -> (r: Self)
        ensures
            r.case_ignore == false,
            r.strsim_threshold == DEFAULT_STRSIM_THRESHOLD,
    {
        MatcherOptions { case_ignore: false, strsim_threshold: DEFAULT_STRSIM_THRESHOLD }
    }

    /// Return a copy with the case-folding flag set to `yes`.
    pub fn case_ignore(self, yes: bool) -> (r: Self)
        ensures
            r.case_ignore == yes,
            r.strsim_threshold == self.strsim_threshold,
    {
        MatcherOptions { case_ignore: yes, ..self }
    }

    /// Return a copy with the similarity threshold set to `t`
    /// thousandths.
    pub fn strsim_threshold(self, t: u32) -> (r: Self)
        ensures
            r.case_ignore == self.case_ignore,
            r.strsim_threshold == t,
    {
        MatcherOptions { strsim_threshold: t, ..self }
    }
}

impl Default for MatcherOptions {
    /// The same value as `MatcherOptions::new`.
    fn default() -> (r: Self)
        ensures
            r.case_ignore == false,
            r.strsim_threshold == DEFAULT_STRSIM_THRESHOLD,
    {
        MatcherOptions::new()
    }
}

} // verus!

//! The latest token-usage report of a response.
use vstd::prelude::*;
use crate::event::Usage;

verus! {

/// Keeps the most recent usage report. Reports carry running totals, so a new
/// one replaces the old one rather than adding to it.
#[derive(Debug)]
pub struct UsageTracker {
    pub latest: Option<Usage>,
}

impl UsageTracker {
    pub fn new() -> (r: Self)
        ensures
            r.latest is None,
    {
        UsageTracker { latest: None }
    }

    pub fn observe(&mut self, usage: Usage)
        ensures
            final(self).latest == Some(usage),
    {
        self.latest = Some(usage);
    }

    pub fn current(&self) -> (r: Option<Usage>)
        ensures
            r == self.latest,
    {
        self.latest
    }
}

} // verus!

//! Stage rules: which ruleset a stage is played under, and at what size.

use vstd::prelude::*;

verus! {

/// Ruleset of a stage.
#[derive(Debug, Clone, Copy, PartialEq, Eq, Structural)]
pub enum Rule {
    Vanilla,
    Chunk,
    Tripod,
}

impl Default for Rule {
    /// The ruleset played when none is named.
    fn default() -> (r: Self)
        ensures
            r == Rule::Vanilla,
    {
        Rule::Vanilla
    }
}

/// A stage: its board size and the ruleset played on it.
#[derive(Debug, Clone, Copy, PartialEq, Eq, Structural)]
pub struct StageRule {
    pub hex_per_side: usize,
    pub rule: Rule,
}

impl Default for StageRule {
    /// An unsized vanilla stage.
    fn default() -> (s: Self)
        ensures
            s == (StageRule { hex_per_side: 0, rule: Rule::Vanilla }),
    {
        StageRule { hex_per_side: 0, rule: Rule::Vanilla }
    }
}

} // verus!

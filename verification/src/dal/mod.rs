//! Access to what is stored.

pub mod rule;

use crate::dal::rule::{RepositoryView, RuleDataAccessLayer};
use vstd::prelude::*;

verus! {

/// The repositories of the agent. There is one: the rules.
pub struct DataAccessLayer {
    pub rule: RuleDataAccessLayer,
}

impl View for DataAccessLayer {
    type V = RepositoryView;

    open spec fn view(&self) -> RepositoryView {
        self.rule@
    }
}

impl DataAccessLayer {
    /// Repositories that hold nothing.
    pub fn new() -> (dal: Self)
        ensures
            dal@.rules.len() == 0,
            dal@.pending.len() == 0,
    {
        DataAccessLayer { rule: RuleDataAccessLayer::new() }
    }
}

} // verus!

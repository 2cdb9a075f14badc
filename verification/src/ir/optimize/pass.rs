//! The passes: each decides, from what an analyzer tells about a function,
//! on a batch of actions.
pub mod remove_load_directly_after_store;

use vstd::prelude::*;
use vstd::std_specs::convert::FromSpecImpl;
use crate::ir::analyzer::Analyzer;
use crate::ir::function::FunctionView;
use crate::ir::optimize::action::{ActionView, Actions, batch_applicable};
use crate::ir::optimize::pass::remove_load_directly_after_store::RemoveLoadDirectlyAfterStore;

verus! {

/// A pass: one of a closed set.
#[derive(Clone, Copy, Debug, PartialEq, Eq, Hash)]
pub enum Pass {
    RemoveLoadDirectlyAfterStore(RemoveLoadDirectlyAfterStore),
}

impl From<RemoveLoadDirectlyAfterStore> for Pass {
    fn from(pass: RemoveLoadDirectlyAfterStore) -> (r: Pass) {
        Pass::RemoveLoadDirectlyAfterStore(pass)
    }
}

impl FromSpecImpl<RemoveLoadDirectlyAfterStore> for Pass {
    open spec fn obeys_from_spec() -> bool {
        true
    }

    open spec fn from_spec(pass: RemoveLoadDirectlyAfterStore) -> Pass {
        Pass::RemoveLoadDirectlyAfterStore(pass)
    }
}

impl Pass {
    /// The batch that the pass asks for on the function `f`.
    pub open spec fn actions(self, f: FunctionView) -> Seq<ActionView> {
        match self {
            Pass::RemoveLoadDirectlyAfterStore(_) => RemoveLoadDirectlyAfterStore::actions(f),
        }
    }

    /// Decides on the batch of actions for the analyzed function. The
    /// function itself is not touched, and the batch can be applied to it.
    pub fn run(&self, analyzer: &Analyzer) -> (r: Actions)
        ensures
            r@ == self.actions(analyzer.content@),
            batch_applicable(analyzer.content@, r@),
    {
        match self {
            Pass::RemoveLoadDirectlyAfterStore(pass) => pass.run(analyzer),
        }
    }

    /// The passes whose results this pass needs to be fresh when it runs.
    pub fn need(&self) -> (r: Vec<Pass>)
        ensures
            r@ == self.needed(),
    {
        match self {
            Pass::RemoveLoadDirectlyAfterStore(pass) => pass.need(),
        }
    }

    /// The passes whose results are stale once the actions of this pass
    /// have been applied.
    pub fn invalidate(&self) -> (r: Vec<Pass>)
        ensures
            r@ == self.invalidated(),
    {
        match self {
            Pass::RemoveLoadDirectlyAfterStore(pass) => pass.invalidate(),
        }
    }

    /// The passes that [`Self::need`] names.
    pub open spec fn needed(self) -> Seq<Pass> {
        Seq::empty()
    }

    /// The passes that [`Self::invalidate`] names.
    pub open spec fn invalidated(self) -> Seq<Pass> {
        Seq::empty()
    }
}

} // verus!

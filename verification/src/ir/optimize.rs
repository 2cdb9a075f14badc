//! Rewriting a function: the mutations, the passes that ask for them, and
//! the step that runs one pass.
pub mod action;
pub mod pass;

use vstd::prelude::*;
use crate::ir::analyzer::Analyzer;
use crate::ir::function::FunctionDefinition;
use crate::ir::optimize::action::perform_all;
use crate::ir::optimize::pass::Pass;

verus! {

/// Runs one pass on `function`: the pass reads the function through an
/// analyzer and decides on a batch of actions, and only then the batch is
/// applied, in order. The pass never sees a function that is mutated in
/// part.
pub fn execute_pass(function: FunctionDefinition, pass: Pass) -> (r: FunctionDefinition)
    ensures
        r@ == perform_all(function@, pass.actions(function@)),
{
    let mut function = function;
    let analyzer = Analyzer::new(&function);
    let actions = pass.run(&analyzer);
    actions.perform(&mut function);
    function
}

} // verus!

//! Mutation requests against a function, and batches of them.
//!
//! A pass computes a whole batch against one snapshot of the function.
//! The batch is then applied in order, and each action, before it is
//! applied, adjusts the actions queued behind it so that what they
//! address stays what they meant.
pub mod outcome;
pub mod remove_statement;
pub mod rename_local;

use vstd::prelude::*;
use vstd::std_specs::convert::FromSpecImpl;
use crate::ir::function::{FunctionDefinition, FunctionView, Position};
use crate::ir::quantity::QuantityView;
use crate::utility::text::natural_text;
use crate::ir::optimize::action::remove_statement::RemoveStatement;
use crate::ir::optimize::action::rename_local::RenameLocal;

verus! {

/// The model of an [`Action`].
pub enum ActionView {
    /// Replace every use of the register `from` by `to`.
    Rename { from: Seq<char>, to: QuantityView },
    /// Take out the statement at `at`.
    Remove { at: Position },
}

impl ActionView {
    /// The description of the action for logs: ``rename `from` to `to` ``
    /// with the name of the register and the operand that replaces it, or
    /// ``remove `block:offset` `` with the address of the statement.
    pub open spec fn text(self) -> Seq<char> {
        match self {
            ActionView::Rename { from, to } => "rename `"@ + from + "` to `"@ + to.text() + "`"@,
            ActionView::Remove { at } => "remove `"@ + natural_text(at.block as nat) + ":"@
                + natural_text(at.offset as nat) + "`"@,
        }
    }

    /// Whether the action can be applied to `f`: a removal needs its
    /// statement to be there.
    pub open spec fn applicable(self, f: FunctionView) -> bool {
        self matches ActionView::Remove { at } ==> f.contains(at)
    }

    /// The function after the action.
    pub open spec fn perform(self, f: FunctionView) -> FunctionView {
        match self {
            ActionView::Rename { from, to } => f.rename(from, to),
            ActionView::Remove { at } => f.remove(at),
        }
    }

    /// This action as it has to read once `earlier` has been applied: a
    /// removal behind an earlier removal in the same block moves up by
    /// one; a renaming moves nothing.
    pub open spec fn adjusted_for(self, earlier: ActionView) -> ActionView {
        match (earlier, self) {
            (ActionView::Remove { at: gone }, ActionView::Remove { at }) => ActionView::Remove {
                at: at.after_removal_of(gone),
            },
            _ => self,
        }
    }
}

/// The actions `others` as they have to read once `earlier` has been
/// applied.
pub open spec fn adjust_all(earlier: ActionView, others: Seq<ActionView>) -> Seq<ActionView> {
    others.map_values(|a: ActionView| a.adjusted_for(earlier))
}

/// Whether the batch can be applied to `f` in order, each action adjusting
/// those behind it before it is applied.
pub open spec fn batch_applicable(f: FunctionView, actions: Seq<ActionView>) -> bool
    decreases actions.len(),
{
    if actions.len() == 0 {
        true
    } else {
        actions[0].applicable(f) && batch_applicable(
            actions[0].perform(f),
            adjust_all(actions[0], actions.skip(1)),
        )
    }
}

/// The function after the batch has been applied in order, each action
/// adjusting those behind it before it is applied.
pub open spec fn perform_all(f: FunctionView, actions: Seq<ActionView>) -> FunctionView
    decreases actions.len(),
{
    if actions.len() == 0 {
        f
    } else {
        perform_all(actions[0].perform(f), adjust_all(actions[0], actions.skip(1)))
    }
}

/// Whether every removal of the batch addresses a statement of `f`, and no
/// two of them the same one.
pub open spec fn removals_distinct_within(f: FunctionView, actions: Seq<ActionView>) -> bool {
    &&& forall|i: int|
        0 <= i < actions.len() && (#[trigger] actions[i]) is Remove ==> f.contains(
            actions[i]->at,
        )
    &&& forall|i: int, j: int|
        0 <= i < j < actions.len() && (#[trigger] actions[i]) is Remove && (
        #[trigger] actions[j]) is Remove ==> actions[i]->at != actions[j]->at
}

/// Applying the first action of a batch whose removals address distinct
/// statements leaves a batch of the same kind: the adjustment that the
/// action makes to those behind it keeps their removals within the
/// function and apart from each other.
pub proof fn lemma_distinct_removals_step(f: FunctionView, actions: Seq<ActionView>)
    requires
        removals_distinct_within(f, actions),
        actions.len() > 0,
    ensures
        actions[0].applicable(f),
        removals_distinct_within(
            actions[0].perform(f),
            adjust_all(actions[0], actions.skip(1)),
        ),
{
    let first = actions[0];
    let rest = adjust_all(first, actions.skip(1));
    let g = first.perform(f);
    assert forall|i: int| 0 <= i < rest.len() && (#[trigger] rest[i]) is Remove implies g.contains(
        rest[i]->at,
    ) by {
        assert(actions.skip(1)[i] == actions[i + 1]);
    }
    assert forall|i: int, j: int|
        0 <= i < j < rest.len() && (#[trigger] rest[i]) is Remove && (
        #[trigger] rest[j]) is Remove implies rest[i]->at != rest[j]->at by {
        assert(actions.skip(1)[i] == actions[i + 1]);
        assert(actions.skip(1)[j] == actions[j + 1]);
    }
}

/// A batch computed against one snapshot, whose removals address distinct
/// statements of that snapshot, can be applied in order.
pub proof fn lemma_distinct_removals_applicable(f: FunctionView, actions: Seq<ActionView>)
    requires
        removals_distinct_within(f, actions),
    ensures
        batch_applicable(f, actions),
    decreases actions.len(),
{
    if actions.len() > 0 {
        lemma_distinct_removals_step(f, actions);
        lemma_distinct_removals_applicable(
            actions[0].perform(f),
            adjust_all(actions[0], actions.skip(1)),
        );
    }
}

/// A single mutation request against a function.
#[derive(Debug, PartialEq, Eq)]
pub enum Action {
    RenameLocal(RenameLocal),
    RemoveStatement(RemoveStatement),
}

impl View for Action {
    type V = ActionView;

    open spec fn view(&self) -> ActionView {
        match self {
            Action::RenameLocal(a) => a@,
            Action::RemoveStatement(a) => a@,
        }
    }
}

/// The models of the actions in `actions`, in the same order.
pub open spec fn action_views(actions: Seq<Action>) -> Seq<ActionView> {
    actions.map_values(|a: Action| a@)
}

impl Clone for Action {
    fn clone(&self) -> (r: Self)
        ensures
            r == *self,
    {
        match self {
            Action::RenameLocal(a) => Action::RenameLocal(a.clone()),
            Action::RemoveStatement(a) => Action::RemoveStatement(a.clone()),
        }
    }
}

impl From<RenameLocal> for Action {
    fn from(action: RenameLocal) -> (r: Action) {
        Action::RenameLocal(action)
    }
}

impl FromSpecImpl<RenameLocal> for Action {
    open spec fn obeys_from_spec() -> bool {
        true
    }

    open spec fn from_spec(action: RenameLocal) -> Action {
        Action::RenameLocal(action)
    }
}

impl From<RemoveStatement> for Action {
    fn from(action: RemoveStatement) -> (r: Action) {
        Action::RemoveStatement(action)
    }
}

impl FromSpecImpl<RemoveStatement> for Action {
    open spec fn obeys_from_spec() -> bool {
        true
    }

    open spec fn from_spec(action: RemoveStatement) -> Action {
        Action::RemoveStatement(action)
    }
}

impl Action {
    /// The description of the action for logs.
    pub fn to_string(&self) -> (r: String)
        ensures
            r@ == self@.text(),
    {
        match self {
            Action::RenameLocal(a) => a.to_string(),
            Action::RemoveStatement(a) => a.to_string(),
        }
    }

    /// Applies the mutation to `ir`.
    pub fn perform(self, ir: &mut FunctionDefinition)
        requires
            self@.applicable(old(ir)@),
        ensures
            final(ir)@ == self@.perform(old(ir)@),
    {
        match self {
            Action::RenameLocal(a) => a.perform(ir),
            Action::RemoveStatement(a) => a.perform(ir),
        }
    }

    /// Adjusts the actions queued behind this one, so that they still
    /// address what they meant once this one has been applied.
    pub fn affect_others(&self, others: &mut Vec<Action>)
        ensures
            action_views(final(others)@) == adjust_all(self@, action_views(old(others)@)),
    {
        match self {
            Action::RenameLocal(a) => a.affect_others(others),
            Action::RemoveStatement(a) => a.affect_others(others),
        }
    }
}

/// The ordered batch of actions that one run of a pass asks for.
#[derive(Debug, PartialEq, Eq)]
pub struct Actions(pub Vec<Action>);

impl View for Actions {
    type V = Seq<ActionView>;

    open spec fn view(&self) -> Seq<ActionView> {
        action_views(self.0@)
    }
}

impl Default for Actions {
    fn default() -> (r: Actions)
        ensures
            r@ == Seq::<ActionView>::empty(),
    {
        let r = Actions(Vec::new());
        assert(r@ =~= Seq::<ActionView>::empty());
        r
    }
}

impl Actions {
    /// Queues `action` behind the others.
    pub fn push(&mut self, action: Action)
        ensures
            final(self)@ == old(self)@.push(action@),
            final(self).0@ == old(self).0@.push(action),
    {
        self.0.push(action);
        assert(self@ =~= old(self)@.push(action@));
    }

    /// The number of actions in the batch.
    pub fn len(&self) -> (r: usize)
        ensures
            r == self@.len(),
    {
        self.0.len()
    }

    /// Applies the batch to `ir`: the actions in order, each one first
    /// adjusting those still queued behind it.
    pub fn perform(self, ir: &mut FunctionDefinition)
        requires
            batch_applicable(old(ir)@, self@),
        ensures
            final(ir)@ == perform_all(old(ir)@, self@),
    {
        let ghost goal = perform_all(ir@, self@);
        let mut queue = self.0;
        while queue.len() > 0
            invariant
                batch_applicable(ir@, action_views(queue@)),
                perform_all(ir@, action_views(queue@)) == goal,
            decreases queue.len(),
        {
            let ghost before = action_views(queue@);
            let action = queue.remove(0);
            assert(action_views(queue@) =~= before.skip(1));
            action.affect_others(&mut queue);
            action.perform(ir);
        }
    }
}

} // verus!

//! Taking one statement out of its block.
use vstd::prelude::*;
use vstd::string::*;
use crate::utility::text::push_natural;
use crate::ir::function::{FunctionDefinition, FunctionView, Position, StatementIndex};
use crate::ir::optimize::action::{Action, ActionView, action_views, adjust_all};

verus! {

/// The request to take out the statement at `index`.
#[derive(Debug, PartialEq, Eq)]
pub struct RemoveStatement {
    pub index: StatementIndex,
}

impl View for RemoveStatement {
    type V = ActionView;

    open spec fn view(&self) -> ActionView {
        ActionView::Remove { at: self.index@ }
    }
}

impl Clone for RemoveStatement {
    fn clone(&self) -> (r: Self)
        ensures
            r == *self,
    {
        RemoveStatement { index: self.index }
    }
}

impl RemoveStatement {
    /// The request to take out the statement at `index`.
    pub fn new(index: StatementIndex) -> (r: Self)
        ensures
            r.index == index,
    {
        Self { index }
    }

    /// The description of the request for logs: ``remove `block:offset` ``,
    /// with the address of the statement in decimal.
    pub fn to_string(&self) -> (r: String)
        ensures
            r@ == self@.text(),
    {
        let mut text = String::new();
        text.append("remove `");
        push_natural(&mut text, self.index.block as u64);
        text.append(":");
        push_natural(&mut text, self.index.offset as u64);
        text.append("`");
        assert(text@ =~= self@.text());
        text
    }

    /// Takes the statement out of `ir`. The statements behind it in its
    /// block move up by one.
    pub fn perform(self, ir: &mut FunctionDefinition)
        requires
            old(ir)@.contains(self.index@),
        ensures
            final(ir)@ == old(ir)@.remove(self.index@),
            final(ir)@ == self@.perform(old(ir)@),
    {
        ir.remove(self.index);
    }

    /// Moves every removal queued behind this one that addresses a later
    /// statement of the same block up by one, as the statement itself
    /// moves.
    pub fn affect_others(&self, others: &mut Vec<Action>)
        ensures
            action_views(final(others)@) == adjust_all(self@, action_views(old(others)@)),
    {
        let ghost before = action_views(others@);
        let mut i: usize = 0;
        while i < others.len()
            invariant
                i <= others.len(),
                others.len() == before.len(),
                forall|j: int|
                    0 <= j < i ==> (#[trigger] others@[j])@ == before[j].adjusted_for(self@),
                forall|j: int| i <= j < others.len() ==> (#[trigger] others@[j])@ == before[j],
            decreases others.len() - i,
        {
            match &mut others[i] {
                Action::RemoveStatement(later) => {
                    if later.index.block == self.index.block && later.index.offset
                        > self.index.offset {
                        later.index.offset = later.index.offset - 1;
                    }
                },
                Action::RenameLocal(_) => {},
            }
            i += 1;
        }
        assert(action_views(others@) =~= adjust_all(self@, before));
    }
}

/// Taking out the statement at `at` shortens its block by one and leaves
/// every other block alone. Every statement that stays is found again
/// where [`Position::after_removal_of`] says: at its old place, or, if it
/// stood behind `at` in the same block, one offset earlier. A removal
/// queued behind is adjusted to exactly that place, so it still addresses
/// the statement it meant.
pub proof fn lemma_removal_shifts(f: FunctionView, at: Position)
    requires
        f.contains(at),
    ensures
        f.remove(at).content.len() == f.content.len(),
        f.remove(at).content[at.block].content.len() == f.content[at.block].content.len() - 1,
        forall|b: int|
            0 <= b < f.content.len() && b != at.block ==> #[trigger] f.remove(at).content[b]
                == f.content[b],
        forall|p: Position|
            f.contains(p) && p != at ==> f.remove(at).contains(#[trigger] p.after_removal_of(at))
                && f.remove(at).at(p.after_removal_of(at)) == f.at(p),
        forall|p: Position|
            (#[trigger] ActionView::Remove { at: p }.adjusted_for(ActionView::Remove { at }))
                == (ActionView::Remove { at: p.after_removal_of(at) }),
{
}

} // verus!

//! Replacing every use of a register by another operand.
use vstd::prelude::*;
use vstd::string::*;
use crate::ir::function::{FunctionDefinition, FunctionView, Position};
use crate::ir::optimize::action::{Action, ActionView, action_views, adjust_all};
use crate::ir::quantity::{Quantity, QuantityView, RegisterName};

verus! {

/// The request to replace every use of the register `from` by `to`, in
/// every statement of every block. `to` may be a constant.
#[derive(Debug, PartialEq, Eq)]
pub struct RenameLocal {
    pub from: RegisterName,
    pub to: Quantity,
}

impl View for RenameLocal {
    type V = ActionView;

    open spec fn view(&self) -> ActionView {
        ActionView::Rename { from: self.from@, to: self.to@ }
    }
}

impl Clone for RenameLocal {
    fn clone(&self) -> (r: Self)
        ensures
            r == *self,
    {
        RenameLocal { from: self.from.clone(), to: self.to.clone() }
    }
}

impl RenameLocal {
    /// The request to replace `from` by what `to` converts to.
    pub fn new<T: Into<Quantity>>(from: RegisterName, to: T) -> (r: Self)
        ensures
            r.from == from,
            call_ensures(T::into, (to,), r.to),
    {
        Self { from, to: to.into() }
    }

    /// The description of the request for logs: ``rename `from` to `to` ``,
    /// with the name of the register and the operand that replaces it.
    pub fn to_string(&self) -> (r: String)
        ensures
            r@ == self@.text(),
    {
        let mut text = String::new();
        text.append("rename `");
        text.append(self.from.0.as_str());
        text.append("` to `");
        text.append(self.to.to_string().as_str());
        text.append("`");
        assert(text@ =~= self@.text());
        text
    }

    /// Rewrites every operand of `ir` that is a use of `from` to `to`.
    pub fn perform(self, ir: &mut FunctionDefinition)
        ensures
            final(ir)@ == old(ir)@.rename(self.from@, self.to@),
            final(ir)@ == self@.perform(old(ir)@),
    {
        ir.on_register_change(&self.from, &self.to);
    }

    /// A renaming moves no statement, so the actions behind it stay as
    /// they are.
    pub fn affect_others(&self, others: &mut Vec<Action>)
        ensures
            *final(others) == *old(others),
            action_views(final(others)@) == adjust_all(self@, action_views(old(others)@)),
    {
        assert(action_views(others@) =~= adjust_all(self@, action_views(others@)));
    }
}

/// A renaming is total. It keeps the shape of the function, and at every
/// operand position of every statement: what was a use of `from` is `to`,
/// and what was anything else is what it was. So unless `to` is itself a
/// use of `from`, no operand is a use of `from` afterwards.
pub proof fn lemma_rename_is_total(f: FunctionView, from: Seq<char>, to: QuantityView)
    ensures
        forall|p: Position| #[trigger] f.rename(from, to).contains(p) <==> f.contains(p),
        forall|p: Position|
            f.contains(p) ==> (#[trigger] f.rename(from, to).at(p)).operands().len() == f.at(
                p,
            ).operands().len(),
        forall|p: Position, k: int|
            f.contains(p) && 0 <= k < f.at(p).operands().len() ==> (#[trigger] f.rename(
                from,
                to,
            ).at(p).operands()[k]) == (if f.at(p).operands()[k] == QuantityView::Register(from) {
                to
            } else {
                f.at(p).operands()[k]
            }),
        to != QuantityView::Register(from) ==> forall|p: Position, k: int|
            f.contains(p) && 0 <= k < f.at(p).operands().len() ==> (#[trigger] f.rename(
                from,
                to,
            ).at(p).operands()[k]) != QuantityView::Register(from),
{
}

} // verus!

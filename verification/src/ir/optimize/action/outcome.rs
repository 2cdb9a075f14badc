//! What a batch makes of a function, statement by statement: where each
//! statement ends up, and what it reads then.
use vstd::prelude::*;
use crate::ir::function::{FunctionView, Position};
use crate::ir::optimize::action::{
    ActionView,
    adjust_all,
    batch_applicable,
    lemma_distinct_removals_step,
    perform_all,
    removals_distinct_within,
};
use crate::ir::quantity::QuantityView;
use crate::ir::statement::StatementView;

verus! {

impl ActionView {
    /// Where the statement at `p` stands once the action has been
    /// applied, or `None` if the action takes it out.
    pub open spec fn moves(self, p: Position) -> Option<Position> {
        match self {
            ActionView::Remove { at } => if p == at {
                None
            } else {
                Some(p.after_removal_of(at))
            },
            ActionView::Rename { .. } => Some(p),
        }
    }

    /// What the action makes of the operand `q`.
    pub open spec fn rewrites_operand(self, q: QuantityView) -> QuantityView {
        match self {
            ActionView::Rename { from, to } => q.rename(from, to),
            ActionView::Remove { .. } => q,
        }
    }

    /// What the action makes of the statement `s`, if it leaves it in.
    pub open spec fn rewrites(self, s: StatementView) -> StatementView {
        match self {
            ActionView::Rename { from, to } => s.rename(from, to),
            ActionView::Remove { .. } => s,
        }
    }
}

/// Where the statement at `p` stands once the batch has been applied, or
/// `None` if the batch takes it out.
pub open spec fn destination(p: Position, actions: Seq<ActionView>) -> Option<Position>
    decreases actions.len(),
{
    if actions.len() == 0 {
        Some(p)
    } else {
        match actions[0].moves(p) {
            None => None,
            Some(q) => destination(q, adjust_all(actions[0], actions.skip(1))),
        }
    }
}

/// What the renamings of the batch, one after the other, make of the
/// operand `q`.
pub open spec fn rewritten_operand(q: QuantityView, actions: Seq<ActionView>) -> QuantityView
    decreases actions.len(),
{
    if actions.len() == 0 {
        q
    } else {
        rewritten_operand(actions[0].rewrites_operand(q), actions.skip(1))
    }
}

/// What the renamings of the batch, one after the other, make of the
/// statement `s`.
pub open spec fn rewritten(s: StatementView, actions: Seq<ActionView>) -> StatementView
    decreases actions.len(),
{
    if actions.len() == 0 {
        s
    } else {
        rewritten(actions[0].rewrites(s), actions.skip(1))
    }
}

/// The adjustment of a batch to an earlier action changes no renaming, so
/// it makes the same of every statement.
pub proof fn lemma_rewritten_whatever_adjusted(
    s: StatementView,
    earlier: ActionView,
    actions: Seq<ActionView>,
)
    ensures
        rewritten(s, adjust_all(earlier, actions)) == rewritten(s, actions),
    decreases actions.len(),
{
    if actions.len() > 0 {
        let adjusted = adjust_all(earlier, actions);
        assert(adjusted.skip(1) =~= adjust_all(earlier, actions.skip(1)));
        assert(adjusted[0].rewrites(s) == actions[0].rewrites(s));
        lemma_rewritten_whatever_adjusted(actions[0].rewrites(s), earlier, actions.skip(1));
    }
}

/// A batch rewrites a statement operand by operand, and leaves what is no
/// operand alone: the kind of the statement, the register it defines, its
/// types and its label.
pub proof fn lemma_rewritten_by_operands(s: StatementView, actions: Seq<ActionView>)
    ensures
        rewritten(s, actions) == (match s {
            StatementView::Alloca { .. } => s,
            StatementView::Store { data_type, source, target } => StatementView::Store {
                data_type,
                source: rewritten_operand(source, actions),
                target: rewritten_operand(target, actions),
            },
            StatementView::Load { to, data_type, from } => StatementView::Load {
                to,
                data_type,
                from: rewritten_operand(from, actions),
            },
            StatementView::BinaryCalculate {
                operation,
                operand1,
                operand2,
                to,
                data_type,
            } => StatementView::BinaryCalculate {
                operation,
                operand1: rewritten_operand(operand1, actions),
                operand2: rewritten_operand(operand2, actions),
                to,
                data_type,
            },
            StatementView::Jump { .. } => s,
            StatementView::Ret { value } => StatementView::Ret {
                value: match value {
                    Some(v) => Some(rewritten_operand(v, actions)),
                    None => None,
                },
            },
        }),
    decreases actions.len(),
{
    if actions.len() > 0 {
        lemma_rewritten_by_operands(actions[0].rewrites(s), actions.skip(1));
    }
}

/// What a batch makes of an operand is the operand itself, or what one of
/// its renamings puts in.
pub proof fn lemma_rewritten_operand_source(q: QuantityView, actions: Seq<ActionView>)
    ensures
        rewritten_operand(q, actions) == q || exists|i: int|
            0 <= i < actions.len() && (#[trigger] actions[i]) is Rename && rewritten_operand(
                q,
                actions,
            ) == actions[i]->to,
    decreases actions.len(),
{
    if actions.len() > 0 {
        let next = actions[0].rewrites_operand(q);
        let rest = actions.skip(1);
        lemma_rewritten_operand_source(next, rest);
        let out = rewritten_operand(q, actions);
        if out != q {
            if out == next {
                assert(actions[0] is Rename && out == actions[0]->to);
            } else {
                let i = choose|i: int|
                    0 <= i < rest.len() && (#[trigger] rest[i]) is Rename && out == rest[i]->to;
                assert(actions[i + 1] == rest[i]);
            }
        }
    }
}

/// A batch leaves a use of a register alone that none of its renamings
/// replaces.
pub proof fn lemma_rewritten_operand_untouched(register: Seq<char>, actions: Seq<ActionView>)
    requires
        forall|i: int|
            0 <= i < actions.len() && (#[trigger] actions[i]) is Rename ==> actions[i]->from
                != register,
    ensures
        rewritten_operand(QuantityView::Register(register), actions) == QuantityView::Register(
            register,
        ),
    decreases actions.len(),
{
    if actions.len() > 0 {
        let rest = actions.skip(1);
        assert forall|i: int| 0 <= i < rest.len() && (#[trigger] rest[i]) is Rename implies rest[i]->from
            != register by {
            assert(rest[i] == actions[i + 1]);
        }
        lemma_rewritten_operand_untouched(register, rest);
    }
}

/// What a batch that can be applied makes of a function. The header, the
/// number of blocks and their names stay. Every statement that the batch
/// leaves in is found at its destination, in its block, rewritten by the
/// renamings of the batch; every statement of the outcome is one of
/// those; and they stand in the order in which they stood.
pub proof fn lemma_batch_outcome(f: FunctionView, actions: Seq<ActionView>)
    requires
        batch_applicable(f, actions),
    ensures
        perform_all(f, actions).header == f.header,
        perform_all(f, actions).content.len() == f.content.len(),
        forall|b: int|
            0 <= b < f.content.len() ==> (#[trigger] perform_all(f, actions).content[b]).name
                == f.content[b].name,
        forall|p: Position|
            f.contains(p) ==> (#[trigger] destination(p, actions) matches Some(q) ==> perform_all(
                f,
                actions,
            ).contains(q) && q.block == p.block && perform_all(f, actions).at(q) == rewritten(
                f.at(p),
                actions,
            )),
        forall|q: Position| #[trigger]
            perform_all(f, actions).contains(q) ==> exists|p: Position|
                f.contains(p) && #[trigger] destination(p, actions) == Some(q),
        forall|pa: Position, pb: Position|
            f.contains(pa) && f.contains(pb) && pa.before(pb) && (#[trigger] destination(
                pa,
                actions,
            )) is Some && (#[trigger] destination(pb, actions)) is Some ==> destination(
                pa,
                actions,
            )->0.before(destination(pb, actions)->0),
    decreases actions.len(),
{
    if actions.len() > 0 {
        let first = actions[0];
        let rest = adjust_all(first, actions.skip(1));
        let f1 = first.perform(f);
        let g = perform_all(f, actions);
        assert(g == perform_all(f1, rest));
        lemma_batch_outcome(f1, rest);
        assert forall|p: Position| f.contains(p) && first.moves(p) is Some implies f1.contains(
            first.moves(p)->0,
        ) && f1.at(first.moves(p)->0) == first.rewrites(f.at(p)) by {}
        assert forall|p: Position| f.contains(p) implies (#[trigger] destination(p, actions) matches Some(
            q,
        ) ==> g.contains(q) && q.block == p.block && g.at(q) == rewritten(f.at(p), actions)) by {
            if let Some(pa) = first.moves(p) {
                assert(f1.contains(pa));
                if let Some(q) = destination(pa, rest) {
                    lemma_rewritten_whatever_adjusted(f1.at(pa), first, actions.skip(1));
                }
            }
        }
        assert forall|q: Position| #[trigger] g.contains(q) implies exists|p: Position|
            f.contains(p) && #[trigger] destination(p, actions) == Some(q) by {
            let pa = choose|pa: Position| f1.contains(pa) && #[trigger] destination(pa, rest) == Some(q);
            let p = match first {
                ActionView::Remove { at } => if pa.block == at.block && pa.offset >= at.offset {
                    Position { block: pa.block, offset: pa.offset + 1 }
                } else {
                    pa
                },
                ActionView::Rename { .. } => pa,
            };
            assert(f.contains(p));
            assert(first.moves(p) == Some(pa));
            assert(destination(p, actions) == Some(q));
        }
        assert forall|pa: Position, pb: Position|
            f.contains(pa) && f.contains(pb) && pa.before(pb) && (#[trigger] destination(
                pa,
                actions,
            )) is Some && (#[trigger] destination(pb, actions)) is Some implies destination(
            pa,
            actions,
        )->0.before(destination(pb, actions)->0) by {
            let m1 = first.moves(pa)->0;
            let m2 = first.moves(pb)->0;
            assert(f1.contains(m1) && f1.contains(m2));
            assert(m1.before(m2));
            assert(destination(m1, rest) == destination(pa, actions));
            assert(destination(m2, rest) == destination(pb, actions));
        }
    } else {
        assert forall|q: Position| #[trigger] f.contains(q) implies exists|p: Position|
            f.contains(p) && #[trigger] destination(p, actions) == Some(q) by {
            assert(destination(q, actions) == Some(q));
        }
    }
}

/// Every statement of the outcome of a batch comes from a statement of
/// the function in the same block, rewritten by the renamings of the
/// batch.
pub proof fn lemma_origin(f: FunctionView, actions: Seq<ActionView>, q: Position) -> (p: Position)
    requires
        batch_applicable(f, actions),
        perform_all(f, actions).contains(q),
    ensures
        f.contains(p),
        destination(p, actions) == Some(q),
        p.block == q.block,
        perform_all(f, actions).at(q) == rewritten(f.at(p), actions),
{
    lemma_batch_outcome(f, actions);
    choose|p: Position| f.contains(p) && #[trigger] destination(p, actions) == Some(q)
}

/// A batch whose removals address distinct statements of the snapshot it
/// was computed against takes out exactly the statements that it names:
/// the adjustments make each removal hit what it meant.
pub proof fn lemma_removed_exactly(f: FunctionView, actions: Seq<ActionView>, p: Position)
    requires
        removals_distinct_within(f, actions),
        f.contains(p),
    ensures
        destination(p, actions) is None <==> actions.contains(ActionView::Remove { at: p }),
    decreases actions.len(),
{
    if actions.len() > 0 {
        let first = actions[0];
        let tail = actions.skip(1);
        let rest = adjust_all(first, tail);
        lemma_distinct_removals_step(f, actions);
        let named = ActionView::Remove { at: p };
        match first.moves(p) {
            None => {
                assert(actions[0] == named);
            },
            Some(pa) => {
                lemma_removed_exactly(first.perform(f), rest, pa);
                let moved = ActionView::Remove { at: pa };
                if actions.contains(named) {
                    let i = choose|i: int| 0 <= i < actions.len() && actions[i] == named;
                    assert(tail[i - 1] == named);
                    assert(rest[i - 1] == moved);
                }
                if rest.contains(moved) {
                    let j = choose|j: int| 0 <= j < rest.len() && rest[j] == moved;
                    assert(tail[j] == actions[j + 1]);
                    assert(actions[j + 1] == named);
                }
            },
        }
    }
}

} // verus!

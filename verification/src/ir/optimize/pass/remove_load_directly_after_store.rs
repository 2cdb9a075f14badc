//! Reads of a stack slot that directly follow a write of it, in the same
//! block, need not go through memory: the value is the one just written.
use vstd::prelude::*;
use crate::ir::analyzer::{Analyzer, names_of};
use crate::ir::function::{FunctionView, Position, positions_of};
use crate::ir::optimize::action::{
    Action,
    ActionView,
    Actions,
    batch_applicable,
    lemma_distinct_removals_applicable,
    perform_all,
    removals_distinct_within,
};
use crate::ir::optimize::action::outcome::{
    destination,
    lemma_batch_outcome,
    lemma_origin,
    lemma_removed_exactly,
    lemma_rewritten_by_operands,
    lemma_rewritten_operand_source,
    lemma_rewritten_operand_untouched,
    rewritten,
    rewritten_operand,
};
use crate::ir::quantity::QuantityView;
use crate::ir::optimize::action::remove_statement::RemoveStatement;
use crate::ir::optimize::action::rename_local::RenameLocal;
use crate::ir::optimize::pass::Pass;
use crate::ir::statement::Role;

verus! {

/// This pass removes every load that stands
/// - in the same block as a store to the same trackable stack slot,
/// - behind that store, with no other store to the slot between them,
///
/// and replaces every use of the register the load defined by the value
/// that was stored.
#[derive(Clone, Copy, Debug, Hash, PartialEq, Eq)]
pub struct RemoveLoadDirectlyAfterStore;

/// What is asked for one load that the write at `store` reaches: take the
/// load out, then replace the register it defined by the value written.
pub open spec fn replacement(f: FunctionView, store: Position) -> spec_fn(Position) -> Seq<
    ActionView,
> {
    |load: Position|
        seq![
            ActionView::Remove { at: load },
            ActionView::Rename { from: f.at(load)->Load_to, to: f.at(store)->source },
        ]
}

/// What is asked for one write of `slot`: the replacement of every load
/// that it reaches in its block, in the order of the text.
pub open spec fn replacements_for_store(f: FunctionView, slot: Seq<char>) -> spec_fn(
    Position,
) -> Seq<ActionView> {
    |store: Position|
        f.access_info(slot).loads_dominated_by_store_in_block(store).flat_map(
            replacement(f, store),
        )
}

/// What is asked for one slot: what is asked for each of its writes, in
/// the order of the text.
pub open spec fn replacements_for_slot(f: FunctionView) -> spec_fn(Seq<char>) -> Seq<ActionView> {
    |slot: Seq<char>| f.access_info(slot).store.flat_map(replacements_for_store(f, slot))
}

/// Whether the pass asks to replace the load at `load` by the value that
/// the store at `store` writes to the slot `slot`: the slot is trackable,
/// and the store reaches the load within its block.
pub open spec fn asked(f: FunctionView, slot: Seq<char>, store: Position, load: Position) -> bool {
    &&& f.trackable(slot)
    &&& f.contains(store) && f.at(store).stores_to(slot)
    &&& f.contains(load) && f.at(load).loads_from(slot)
    &&& f.access_info(slot).dominates(store, load)
}

/// Whether no load that the pass takes out defines a register that also
/// names an allocated stack slot. Where every register is defined once,
/// this holds.
pub open spec fn removed_loads_define_no_slot(f: FunctionView) -> bool {
    forall|slot: Seq<char>, store: Position, load: Position| #[trigger]
        asked(f, slot, store, load) ==> !f.allocates(f.at(load)->Load_to)
}

/// An element is in a flattened mapping exactly if it is in the image of
/// some element.
proof fn lemma_flat_map_contains<A, B>(s: Seq<A>, g: spec_fn(A) -> Seq<B>, x: B)
    ensures
        s.flat_map(g).contains(x) <==> exists|j: int|
            0 <= j < s.len() && g(#[trigger] s[j]).contains(x),
    decreases s.len(),
{
    if s.len() == 0 {
        assert(s.flat_map(g) =~= Seq::empty());
    } else {
        let front = s.drop_last();
        let last = s.last();
        assert(s =~= front.push(last));
        front.lemma_flat_map_push(g, last);
        lemma_flat_map_contains(front, g, x);
        let all = s.flat_map(g);
        let head = front.flat_map(g);
        let tail = g(last);
        assert(all =~= head + tail);
        if all.contains(x) {
            let i = choose|i: int| 0 <= i < all.len() && all[i] == x;
            if i < head.len() {
                assert(head[i] == x);
                let j = choose|j: int| 0 <= j < front.len() && g(#[trigger] front[j]).contains(x);
                assert(g(s[j]).contains(x));
            } else {
                assert(tail[i - head.len()] == x);
                assert(g(s[s.len() - 1]).contains(x));
            }
        }
        if exists|j: int| 0 <= j < s.len() && g(#[trigger] s[j]).contains(x) {
            let j = choose|j: int| 0 <= j < s.len() && g(#[trigger] s[j]).contains(x);
            if j < front.len() {
                assert(g(front[j]).contains(x));
                let i = choose|i: int| 0 <= i < head.len() && head[i] == x;
                assert(all[i] == x);
            } else {
                let i = choose|i: int| 0 <= i < tail.len() && tail[i] == x;
                assert(all[head.len() + i] == x);
            }
        }
    }
}

/// The last write of `slot` before the offset `bound` in the block
/// `block`, where there is one.
proof fn lemma_last_store_before(f: FunctionView, slot: Seq<char>, block: int, bound: int) -> (s:
    Position)
    requires
        0 <= block < f.content.len(),
        0 <= bound <= f.content[block].content.len(),
        exists|o: int| 0 <= o < bound && (#[trigger] f.content[block].content[o]).stores_to(slot),
    ensures
        s.block == block,
        0 <= s.offset < bound,
        f.at(s).stores_to(slot),
        forall|o: int|
            s.offset < o < bound ==> !(#[trigger] f.content[block].content[o]).stores_to(slot),
    decreases bound,
{
    if f.content[block].content[bound - 1].stores_to(slot) {
        Position { block, offset: bound - 1 }
    } else {
        let o = choose|o: int|
            0 <= o < bound && (#[trigger] f.content[block].content[o]).stores_to(slot);
        assert(o < bound - 1);
        lemma_last_store_before(f, slot, block, bound - 1)
    }
}

/// Whether the removals among `actions` all address positions that pass
/// `within`, and no two of them the same one.
spec fn removals_apart(actions: Seq<ActionView>, within: Set<Position>) -> bool {
    &&& forall|i: int|
        0 <= i < actions.len() && (#[trigger] actions[i]) is Remove ==> within.contains(
            actions[i]->at,
        )
    &&& forall|i: int, j: int|
        0 <= i < j < actions.len() && (#[trigger] actions[i]) is Remove && (
        #[trigger] actions[j]) is Remove ==> actions[i]->at != actions[j]->at
}

/// Two batches whose removals lie in disjoint regions stay apart when one
/// is put behind the other.
proof fn lemma_removals_apart_concat(
    a: Seq<ActionView>,
    b: Seq<ActionView>,
    in_a: Set<Position>,
    in_b: Set<Position>,
    within: Set<Position>,
)
    requires
        removals_apart(a, in_a),
        removals_apart(b, in_b),
        forall|p: Position| !(#[trigger] in_a.contains(p) && in_b.contains(p)),
        forall|p: Position| #[trigger] in_a.contains(p) ==> within.contains(p),
        forall|p: Position| #[trigger] in_b.contains(p) ==> within.contains(p),
    ensures
        removals_apart(a + b, within),
{
    let c = a + b;
    assert forall|i: int| 0 <= i < c.len() && (#[trigger] c[i]) is Remove implies within.contains(
        c[i]->at,
    ) by {
        if i < a.len() {
            assert(c[i] == a[i]);
        } else {
            assert(c[i] == b[i - a.len()]);
        }
    }
    assert forall|i: int, j: int|
        0 <= i < j < c.len() && (#[trigger] c[i]) is Remove && (#[trigger] c[j]) is Remove implies c[i]->at
        != c[j]->at by {
        if i < a.len() {
            assert(c[i] == a[i]);
        } else {
            assert(c[i] == b[i - a.len()]);
        }
        if j < a.len() {
            assert(c[j] == a[j]);
        } else {
            assert(c[j] == b[j - a.len()]);
        }
    }
}

/// The replacements of distinct loads remove distinct statements, namely
/// those loads.
proof fn lemma_replacements_apart(f: FunctionView, store: Position, loads: Seq<Position>)
    requires
        loads.no_duplicates(),
    ensures
        removals_apart(
            loads.flat_map(replacement(f, store)),
            Set::new(|p: Position| loads.contains(p)),
        ),
    decreases loads.len(),
{
    let g = replacement(f, store);
    if loads.len() == 0 {
        assert(loads.flat_map(g) =~= Seq::empty());
    } else {
        let front = loads.drop_last();
        let last = loads.last();
        assert(loads =~= front.push(last));
        front.lemma_flat_map_push(g, last);
        lemma_replacements_apart(f, store, front);
        let one = g(last);
        assert(removals_apart(one, Set::new(|p: Position| p == last)));
        assert(!front.contains(last)) by {
            if front.contains(last) {
                let i = choose|i: int| 0 <= i < front.len() && front[i] == last;
                assert(loads[i] == loads[loads.len() - 1]);
            }
        }
        assert forall|p: Position| front.contains(p) || p == last implies loads.contains(p) by {
            if front.contains(p) {
                let i = choose|i: int| 0 <= i < front.len() && front[i] == p;
                assert(loads[i] == p);
            } else {
                assert(loads[loads.len() - 1] == p);
            }
        }
        lemma_removals_apart_concat(
            front.flat_map(g),
            one,
            Set::new(|p: Position| front.contains(p)),
            Set::new(|p: Position| p == last),
            Set::new(|p: Position| loads.contains(p)),
        );
    }
}

/// The loads that one write reaches are loads of the slot, each once.
proof fn lemma_dominated_loads(f: FunctionView, slot: Seq<char>, store: Position)
    ensures
        f.access_info(slot).loads_dominated_by_store_in_block(store).no_duplicates(),
        forall|p: Position|
            #![trigger f.access_info(slot).loads_dominated_by_store_in_block(store).contains(p)]
            f.access_info(slot).loads_dominated_by_store_in_block(store).contains(p) <==> (
            f.contains(p) && f.at(p).loads_from(slot) && f.access_info(slot).dominates(store, p)),
{
    let info = f.access_info(slot);
    f.lemma_occurrences(Role::LoadSource, slot);
    crate::ir::analyzer::lemma_filter_in_order(info.load, info.dominated_by(store));
    let found = info.loads_dominated_by_store_in_block(store);
    assert forall|i: int, j: int| 0 <= i < found.len() && 0 <= j < found.len() && i != j implies found[i]
        != found[j] by {
        if i < j {
            assert(found[i].before(found[j]));
        } else {
            assert(found[j].before(found[i]));
        }
    }
}

/// What is asked for the first `n` writes of a slot removes distinct
/// statements, each a load of the slot that one of those writes reaches.
proof fn lemma_store_replacements_apart(f: FunctionView, slot: Seq<char>, n: int)
    requires
        0 <= n <= f.access_info(slot).store.len(),
    ensures
        removals_apart(
            f.access_info(slot).store.take(n).flat_map(replacements_for_store(f, slot)),
            Set::new(
                |p: Position|
                    exists|k: int|
                        0 <= k < n && f.access_info(slot).dominates(
                            #[trigger] f.access_info(slot).store[k],
                            p,
                        ) && f.contains(p) && f.at(p).loads_from(slot),
            ),
        ),
    decreases n,
{
    let info = f.access_info(slot);
    let stores = info.store;
    let g = replacements_for_store(f, slot);
    if n == 0 {
        assert(stores.take(0).flat_map(g) =~= Seq::empty());
    } else {
        lemma_store_replacements_apart(f, slot, n - 1);
        stores.lemma_flat_map_take_append(g, n - 1);
        let store = stores[n - 1];
        let loads = info.loads_dominated_by_store_in_block(store);
        lemma_dominated_loads(f, slot, store);
        lemma_replacements_apart(f, store, loads);
        f.lemma_occurrences(Role::StoreTarget, slot);
        let in_a = Set::new(
            |p: Position|
                exists|k: int|
                    0 <= k < n - 1 && info.dominates(#[trigger] stores[k], p) && f.contains(p)
                        && f.at(p).loads_from(slot),
        );
        let in_b = Set::new(|p: Position| loads.contains(p));
        let within = Set::new(
            |p: Position|
                exists|k: int|
                    0 <= k < n && info.dominates(#[trigger] stores[k], p) && f.contains(p) && f.at(
                        p,
                    ).loads_from(slot),
        );
        assert forall|p: Position| !(#[trigger] in_a.contains(p) && in_b.contains(p)) by {
            if in_a.contains(p) && in_b.contains(p) {
                let k = choose|k: int|
                    0 <= k < n - 1 && info.dominates(#[trigger] stores[k], p) && f.contains(p)
                        && f.at(p).loads_from(slot);
                assert(stores[k].before(stores[n - 1]));
                assert(info.dominates(store, p));
            }
        }
        assert forall|p: Position| #[trigger] in_b.contains(p) implies within.contains(p) by {
            assert(info.dominates(stores[n - 1], p));
        }
        assert forall|p: Position| #[trigger] in_a.contains(p) implies within.contains(p) by {
            let k = choose|k: int|
                0 <= k < n - 1 && info.dominates(#[trigger] stores[k], p) && f.contains(p) && f.at(
                    p,
                ).loads_from(slot);
            assert(0 <= k < n && info.dominates(stores[k], p));
        }
        assert(g(store) == loads.flat_map(replacement(f, store)));
        lemma_removals_apart_concat(stores.take(n - 1).flat_map(g), g(store), in_a, in_b, within);
    }
}

/// What is asked for the first `n` variables removes distinct statements,
/// each a load of one of those variables.
proof fn lemma_slot_replacements_apart(f: FunctionView, n: int)
    requires
        0 <= n <= f.variables().len(),
    ensures
        removals_apart(
            f.variables().take(n).flat_map(replacements_for_slot(f)),
            Set::new(
                |p: Position|
                    exists|k: int|
                        0 <= k < n && f.contains(p) && f.at(p).loads_from(
                            #[trigger] f.variables()[k],
                        ),
            ),
        ),
    decreases n,
{
    let slots = f.variables();
    let g = replacements_for_slot(f);
    if n == 0 {
        assert(slots.take(0).flat_map(g) =~= Seq::empty());
    } else {
        lemma_slot_replacements_apart(f, n - 1);
        slots.lemma_flat_map_take_append(g, n - 1);
        let slot = slots[n - 1];
        let info = f.access_info(slot);
        lemma_store_replacements_apart(f, slot, info.store.len() as int);
        assert(info.store.take(info.store.len() as int) =~= info.store);
        f.lemma_variables();
        let in_a = Set::new(
            |p: Position|
                exists|k: int|
                    0 <= k < n - 1 && f.contains(p) && f.at(p).loads_from(#[trigger] slots[k]),
        );
        let in_b = Set::new(
            |p: Position|
                exists|k: int|
                    0 <= k < info.store.len() && info.dominates(#[trigger] info.store[k], p)
                        && f.contains(p) && f.at(p).loads_from(slot),
        );
        let within = Set::new(
            |p: Position|
                exists|k: int|
                    0 <= k < n && f.contains(p) && f.at(p).loads_from(#[trigger] slots[k]),
        );
        assert forall|p: Position| !(#[trigger] in_a.contains(p) && in_b.contains(p)) by {
            if in_a.contains(p) && in_b.contains(p) {
                let k = choose|k: int|
                    0 <= k < n - 1 && f.contains(p) && f.at(p).loads_from(#[trigger] slots[k]);
                assert(slots[k] == slots[n - 1]);
            }
        }
        assert forall|p: Position| #[trigger] in_b.contains(p) implies within.contains(p) by {
            assert(f.at(p).loads_from(slots[n - 1]));
        }
        assert forall|p: Position| #[trigger] in_a.contains(p) implies within.contains(p) by {
            let k = choose|k: int|
                0 <= k < n - 1 && f.contains(p) && f.at(p).loads_from(#[trigger] slots[k]);
            assert(0 <= k < n && f.at(p).loads_from(slots[k]));
        }
        lemma_removals_apart_concat(slots.take(n - 1).flat_map(g), g(slot), in_a, in_b, within);
    }
}

impl RemoveLoadDirectlyAfterStore {
    /// The batch that the pass asks for on `f`: for every trackable slot,
    /// for every write of it, for every load that the write reaches in its
    /// block, the removal of the load and then the renaming of the
    /// register it defined to the value written.
    pub open spec fn actions(f: FunctionView) -> Seq<ActionView> {
        f.variables().flat_map(replacements_for_slot(f))
    }

    /// The removals that the pass asks for address distinct statements of
    /// the function, so its batch can be applied in order.
    pub proof fn lemma_actions_applicable(f: FunctionView)
        ensures
            removals_distinct_within(f, Self::actions(f)),
            batch_applicable(f, Self::actions(f)),
    {
        lemma_slot_replacements_apart(f, f.variables().len() as int);
        assert(f.variables().take(f.variables().len() as int) =~= f.variables());
        lemma_distinct_removals_applicable(f, Self::actions(f));
    }

    /// The pass asks for exactly this: for every load that a store to a
    /// trackable slot reaches within its block, the removal of the load
    /// and the renaming of the register it defined to the value stored.
    pub proof fn lemma_actions_content(f: FunctionView, x: ActionView)
        ensures
            Self::actions(f).contains(x) <==> exists|
                slot: Seq<char>,
                store: Position,
                load: Position,
            |
                #[trigger] asked(f, slot, store, load) && (x == (ActionView::Remove { at: load })
                    || x == (ActionView::Rename {
                    from: f.at(load)->Load_to,
                    to: f.at(store)->source,
                })),
    {
        let slots = f.variables();
        f.lemma_variables();
        lemma_flat_map_contains(slots, replacements_for_slot(f), x);
        if Self::actions(f).contains(x) {
            let j = choose|j: int|
                0 <= j < slots.len() && replacements_for_slot(f)(#[trigger] slots[j]).contains(x);
            let slot = slots[j];
            let info = f.access_info(slot);
            lemma_flat_map_contains(info.store, replacements_for_store(f, slot), x);
            let k = choose|k: int|
                0 <= k < info.store.len() && replacements_for_store(f, slot)(
                    #[trigger] info.store[k],
                ).contains(x);
            let store = info.store[k];
            let loads = info.loads_dominated_by_store_in_block(store);
            lemma_flat_map_contains(loads, replacement(f, store), x);
            let m = choose|m: int|
                0 <= m < loads.len() && replacement(f, store)(#[trigger] loads[m]).contains(x);
            let load = loads[m];
            f.lemma_occurrences(Role::StoreTarget, slot);
            lemma_dominated_loads(f, slot, store);
            assert(slots.contains(slot));
            assert(info.store.contains(store));
            assert(loads.contains(load));
            assert(asked(f, slot, store, load));
            let pair = replacement(f, store)(load);
            let i = choose|i: int| 0 <= i < pair.len() && pair[i] == x;
            assert(pair[i] == x);
        }
        if exists|slot: Seq<char>, store: Position, load: Position|
            #[trigger] asked(f, slot, store, load) && (x == (ActionView::Remove { at: load }) || x
                == (ActionView::Rename { from: f.at(load)->Load_to, to: f.at(store)->source })) {
            let (slot, store, load) = choose|slot: Seq<char>, store: Position, load: Position|
                #[trigger] asked(f, slot, store, load) && (x == (ActionView::Remove { at: load })
                    || x == (ActionView::Rename {
                    from: f.at(load)->Load_to,
                    to: f.at(store)->source,
                }));
            let info = f.access_info(slot);
            let loads = info.loads_dominated_by_store_in_block(store);
            f.lemma_occurrences(Role::StoreTarget, slot);
            lemma_dominated_loads(f, slot, store);
            let pair = replacement(f, store)(load);
            assert(pair[0] == (ActionView::Remove { at: load }));
            assert(pair[1] == (ActionView::Rename {
                from: f.at(load)->Load_to,
                to: f.at(store)->source,
            }));
            assert(pair.contains(x));
            assert(loads.contains(load));
            let m = choose|m: int| 0 <= m < loads.len() && loads[m] == load;
            assert(replacement(f, store)(loads[m]).contains(x));
            lemma_flat_map_contains(loads, replacement(f, store), x);
            assert(info.store.contains(store));
            let k = choose|k: int| 0 <= k < info.store.len() && info.store[k] == store;
            assert(replacements_for_store(f, slot)(info.store[k]).contains(x));
            lemma_flat_map_contains(info.store, replacements_for_store(f, slot), x);
            assert(slots.contains(slot));
            let j = choose|j: int| 0 <= j < slots.len() && slots[j] == slot;
            assert(replacements_for_slot(f)(slots[j]).contains(x));
        }
    }

    /// The pass takes out exactly the loads that a store to a trackable
    /// slot reaches within its block. Every other statement stays, in its
    /// block and in its order, with its operands rewritten by the
    /// renamings of the batch.
    pub proof fn lemma_removes_the_reached_loads(f: FunctionView, p: Position)
        requires
            f.contains(p),
        ensures
            destination(p, Self::actions(f)) is None <==> exists|slot: Seq<char>, store: Position|
                #[trigger] asked(f, slot, store, p),
            destination(p, Self::actions(f)) matches Some(q) ==> perform_all(
                f,
                Self::actions(f),
            ).contains(q) && q.block == p.block && perform_all(f, Self::actions(f)).at(q)
                == rewritten(f.at(p), Self::actions(f)),
    {
        let batch = Self::actions(f);
        Self::lemma_actions_applicable(f);
        lemma_batch_outcome(f, batch);
        lemma_removed_exactly(f, batch, p);
        Self::lemma_actions_content(f, ActionView::Remove { at: p });
        if batch.contains(ActionView::Remove { at: p }) {
            let (slot, store, load) = choose|slot: Seq<char>, store: Position, load: Position|
                #[trigger] asked(f, slot, store, load) && ((ActionView::Remove { at: p })
                    == (ActionView::Remove { at: load }) || (ActionView::Remove { at: p })
                    == (ActionView::Rename {
                    from: f.at(load)->Load_to,
                    to: f.at(store)->source,
                }));
            assert(asked(f, slot, store, p));
        }
        if exists|slot: Seq<char>, store: Position| #[trigger] asked(f, slot, store, p) {
            let (slot, store) = choose|slot: Seq<char>, store: Position|
                #[trigger] asked(f, slot, store, p);
            assert(asked(f, slot, store, p));
        }
    }

    /// The pass replaces no use of a stack slot's register, as long as no
    /// load that it takes out defines such a register.
    proof fn lemma_slots_untouched(f: FunctionView, slot: Seq<char>)
        requires
            removed_loads_define_no_slot(f),
            f.allocates(slot),
        ensures
            rewritten_operand(QuantityView::Register(slot), Self::actions(f))
                == QuantityView::Register(slot),
    {
        let batch = Self::actions(f);
        assert forall|i: int| 0 <= i < batch.len() && (#[trigger] batch[i]) is Rename implies batch[i]->from
            != slot by {
            assert(batch.contains(batch[i]));
            Self::lemma_actions_content(f, batch[i]);
            let (v, store, load) = choose|v: Seq<char>, store: Position, load: Position|
                #[trigger] asked(f, v, store, load) && (batch[i] == (ActionView::Remove {
                    at: load,
                }) || batch[i] == (ActionView::Rename {
                    from: f.at(load)->Load_to,
                    to: f.at(store)->source,
                }));
            assert(!f.allocates(f.at(load)->Load_to));
        }
        lemma_rewritten_operand_untouched(slot, batch);
    }

    /// A statement that lets the address of a slot escape is still there
    /// after the pass, and still lets it escape.
    proof fn lemma_escape_stays(f: FunctionView, slot: Seq<char>, x: Position)
        requires
            removed_loads_define_no_slot(f),
            f.allocates(slot),
            f.contains(x),
            f.at(x).leaks(slot),
        ensures
            perform_all(f, Self::actions(f)).leaks(slot),
    {
        let batch = Self::actions(f);
        let g = perform_all(f, batch);
        Self::lemma_actions_applicable(f);
        lemma_batch_outcome(f, batch);
        lemma_removed_exactly(f, batch, x);
        if destination(x, batch) is None {
            Self::lemma_actions_content(f, ActionView::Remove { at: x });
            let (v, store, load) = choose|v: Seq<char>, store: Position, load: Position|
                #[trigger] asked(f, v, store, load) && ((ActionView::Remove { at: x })
                    == (ActionView::Remove { at: load }) || (ActionView::Remove { at: x })
                    == (ActionView::Rename {
                    from: f.at(load)->Load_to,
                    to: f.at(store)->source,
                }));
            assert(f.at(x) is Load);
        }
        let q = destination(x, batch)->0;
        lemma_rewritten_by_operands(f.at(x), batch);
        Self::lemma_slots_untouched(f, slot);
        assert(g.contains(q));
        assert(g.at(q).leaks(slot));
    }

    /// After the pass, no store to a trackable slot reaches a load of it
    /// within its block, as long as no load that the pass takes out
    /// defined a register that also names a stack slot.
    pub proof fn lemma_nothing_left(f: FunctionView)
        requires
            removed_loads_define_no_slot(f),
        ensures
            forall|slot: Seq<char>, store: Position, load: Position|
                !#[trigger] asked(perform_all(f, Self::actions(f)), slot, store, load),
    {
        let batch = Self::actions(f);
        let g = perform_all(f, batch);
        Self::lemma_actions_applicable(f);
        lemma_batch_outcome(f, batch);
        assert forall|slot: Seq<char>, store: Position, load: Position|
            !#[trigger] asked(g, slot, store, load) by {
            if asked(g, slot, store, load) {
                // The slot is allocated in the function as it was.
                let qa = choose|qa: Position| g.contains(qa) && (#[trigger] g.at(qa)).allocates(slot);
                let pa = lemma_origin(f, batch, qa);
                lemma_rewritten_by_operands(f.at(pa), batch);
                assert(f.at(pa).allocates(slot));
                assert(f.allocates(slot));
                Self::lemma_slots_untouched(f, slot);
                // Its address did not escape there.
                if f.leaks(slot) {
                    let x = choose|x: Position| f.contains(x) && (#[trigger] f.at(x)).leaks(slot);
                    Self::lemma_escape_stays(f, slot, x);
                }
                // No renaming put a use of the slot in.
                assert forall|i: int| 0 <= i < batch.len() && (#[trigger] batch[i]) is Rename implies batch[i]->to
                    != QuantityView::Register(slot) by {
                    assert(batch.contains(batch[i]));
                    Self::lemma_actions_content(f, batch[i]);
                    let (v, s, l) = choose|v: Seq<char>, s: Position, l: Position|
                        #[trigger] asked(f, v, s, l) && (batch[i] == (ActionView::Remove { at: l })
                            || batch[i] == (ActionView::Rename {
                            from: f.at(l)->Load_to,
                            to: f.at(s)->source,
                        }));
                    if batch[i]->to == QuantityView::Register(slot) {
                        assert(f.at(s).leaks(slot));
                    }
                }
                // So the store and the load were a store to the slot and a
                // load of it before.
                let ps = lemma_origin(f, batch, store);
                lemma_rewritten_by_operands(f.at(ps), batch);
                lemma_rewritten_operand_source(f.at(ps)->target, batch);
                assert(f.at(ps).stores_to(slot));
                let pl = lemma_origin(f, batch, load);
                lemma_rewritten_by_operands(f.at(pl), batch);
                lemma_rewritten_operand_source(f.at(pl)->from, batch);
                assert(f.at(pl).loads_from(slot));
                assert(f.trackable(slot));
                // They stood in the same order.
                if !(ps.offset < pl.offset) {
                    assert(pl.before(ps));
                    assert(destination(pl, batch)->0.before(destination(ps, batch)->0));
                }
                // The last store before the load reached it, so the pass
                // asked for its removal.
                assert(f.content[pl.block].content[ps.offset].stores_to(slot));
                let last = lemma_last_store_before(f, slot, pl.block, pl.offset);
                let info = f.access_info(slot);
                f.lemma_occurrences(Role::StoreTarget, slot);
                assert forall|k: int| 0 <= k < info.store.len() implies !((
                #[trigger] info.store[k]).block == last.block && last.offset < info.store[k].offset
                    < pl.offset) by {
                    assert(info.store.contains(info.store[k]));
                }
                assert(asked(f, slot, last, pl));
                Self::lemma_actions_content(f, ActionView::Remove { at: pl });
                lemma_removed_exactly(f, batch, pl);
            }
        }
    }

    /// Running the pass twice gives what running it once gives: the second
    /// run finds nothing to do. This holds as long as no load that the
    /// first run takes out defines a register that also names a stack
    /// slot.
    pub proof fn lemma_idempotent(f: FunctionView)
        requires
            removed_loads_define_no_slot(f),
        ensures
            Self::actions(perform_all(f, Self::actions(f))) == Seq::<ActionView>::empty(),
            perform_all(
                perform_all(f, Self::actions(f)),
                Self::actions(perform_all(f, Self::actions(f))),
            ) == perform_all(f, Self::actions(f)),
    {
        let g = perform_all(f, Self::actions(f));
        let again = Self::actions(g);
        Self::lemma_nothing_left(f);
        if again.len() > 0 {
            assert(again.contains(again[0]));
            Self::lemma_actions_content(g, again[0]);
        }
        assert(again =~= Seq::<ActionView>::empty());
    }

    /// The pass keeps a function well formed: it takes out loads only, so
    /// every block that ended in a terminator still does, and nothing
    /// stands behind one.
    pub proof fn lemma_keeps_well_formed(f: FunctionView)
        requires
            f.well_formed(),
        ensures
            perform_all(f, Self::actions(f)).well_formed(),
    {
        let batch = Self::actions(f);
        let g = perform_all(f, batch);
        Self::lemma_actions_applicable(f);
        lemma_batch_outcome(f, batch);
        assert forall|b: int| 0 <= b < g.content.len() implies (
        #[trigger] g.content[b]).ends_at_terminator() by {
            assert forall|i: int| 0 <= i < g.content[b].content.len() - 1 implies !(
            #[trigger] g.content[b].content[i]).is_terminator() by {
                let q = Position { block: b, offset: i };
                let next = Position { block: b, offset: i + 1 };
                let p = lemma_origin(f, batch, q);
                let p_next = lemma_origin(f, batch, next);
                lemma_rewritten_by_operands(f.at(p), batch);
                if !(p.offset < p_next.offset) {
                    assert(p_next.before(p));
                    assert(destination(p_next, batch)->0.before(destination(p, batch)->0));
                }
                assert(f.content[b].ends_at_terminator());
                assert(!f.content[b].content[p.offset].is_terminator());
            }
        }
        assert forall|b: int| 0 <= b < g.content.len() - 1 implies (
        #[trigger] g.content[b]).terminated() by {
            assert(f.content[b].terminated());
            let last = Position { block: b, offset: f.content[b].content.len() - 1 };
            assert(f.contains(last));
            lemma_removed_exactly(f, batch, last);
            if destination(last, batch) is None {
                Self::lemma_actions_content(f, ActionView::Remove { at: last });
                let (v, store, load) = choose|v: Seq<char>, store: Position, load: Position|
                    #[trigger] asked(f, v, store, load) && ((ActionView::Remove { at: last })
                        == (ActionView::Remove { at: load }) || (ActionView::Remove { at: last })
                        == (ActionView::Rename {
                        from: f.at(load)->Load_to,
                        to: f.at(store)->source,
                    }));
                assert(f.at(last) is Load);
            }
            let q = destination(last, batch)->0;
            lemma_rewritten_by_operands(f.at(last), batch);
            assert(g.contains(q) && g.at(q).is_terminator());
            if q.offset < g.content[b].content.len() - 1 {
                let next = Position { block: b, offset: q.offset + 1 };
                let p_next = lemma_origin(f, batch, next);
                if p_next != last {
                    assert(p_next.before(last));
                    assert(destination(p_next, batch)->0.before(destination(last, batch)->0));
                }
            }
            assert(g.content[b].content.last() == g.at(q));
        }
    }

    /// Decides on the batch for the analyzed function, which is not
    /// touched.
    pub fn run(&self, analyzer: &Analyzer) -> (result: Actions)
        ensures
            result@ == Self::actions(analyzer.content@),
            batch_applicable(analyzer.content@, result@),
    {
        let ghost f = analyzer.content@;
        let mut result = Actions::default();
        let variables = analyzer.memory_access_variables();
        let ghost slots = names_of(variables@);
        let mut v: usize = 0;
        assert(slots.take(0).flat_map(replacements_for_slot(f)) =~= Seq::empty());
        while v < variables.len()
            invariant
                v <= variables.len(),
                f == analyzer.content@,
                slots == names_of(variables@),
                slots == f.variables(),
                result@ == slots.take(v as int).flat_map(replacements_for_slot(f)),
            decreases variables.len() - v,
        {
            let variable = &variables[v];
            let info = analyzer.memory_access_info(variable);
            let ghost slot = variable@;
            let ghost for_slot = result@;
            let ghost per_store = replacements_for_store(f, slot);
            let mut s: usize = 0;
            assert(info@.store.take(0).flat_map(per_store) =~= Seq::empty());
            assert(result@ =~= for_slot + info@.store.take(0).flat_map(per_store));
            while s < info.store.len()
                invariant
                    s <= info.store.len(),
                    f == analyzer.content@,
                    info@ == f.access_info(slot),
                    per_store == replacements_for_store(f, slot),
                    result@ == for_slot + info@.store.take(s as int).flat_map(per_store),
                decreases info.store.len() - s,
            {
                let store_index = info.store[s];
                let ghost store = store_index@;
                proof {
                    f.lemma_occurrences(Role::StoreTarget, slot);
                    assert(info@.store[s as int] == store);
                    assert(info@.store.contains(store));
                }
                let store_statement = analyzer.content.statement(store_index).as_store();
                let loads = info.loads_dominated_by_store_in_block(store_index);
                let ghost for_store = result@;
                let ghost per_load = replacement(f, store);
                let mut l: usize = 0;
                assert(positions_of(loads@).take(0).flat_map(per_load) =~= Seq::empty());
                assert(result@ =~= for_store + positions_of(loads@).take(0).flat_map(per_load));
                while l < loads.len()
                    invariant
                        l <= loads.len(),
                        f == analyzer.content@,
                        info@ == f.access_info(slot),
                        positions_of(loads@) == info@.loads_dominated_by_store_in_block(store),
                        per_load == replacement(f, store),
                        f.contains(store),
                        store == store_index@,
                        analyzer.content@.at(store) == store_statement@,
                        result@ == for_store + positions_of(loads@).take(l as int).flat_map(
                            per_load,
                        ),
                    decreases loads.len() - l,
                {
                    let load_index = loads[l];
                    let ghost load = load_index@;
                    proof {
                        lemma_dominated_loads(f, slot, store);
                        assert(positions_of(loads@)[l as int] == load);
                        assert(positions_of(loads@).contains(load));
                    }
                    let load_statement = analyzer.content.statement(load_index).as_load();
                    let ghost so_far = result@;
                    result.push(Action::RemoveStatement(RemoveStatement::new(load_index)));
                    result.push(
                        Action::RenameLocal(
                            RenameLocal {
                                from: load_statement.to.clone(),
                                to: store_statement.source.clone(),
                            },
                        ),
                    );
                    proof {
                        positions_of(loads@).lemma_flat_map_take_append(per_load, l as int);
                        assert(result@ =~= so_far + per_load(load));
                        assert(result@ =~= for_store + positions_of(loads@).take(l + 1).flat_map(
                            per_load,
                        ));
                    }
                    l += 1;
                }
                proof {
                    assert(positions_of(loads@).take(loads.len() as int) =~= positions_of(loads@));
                    info@.store.lemma_flat_map_take_append(per_store, s as int);
                    assert(per_store(store) == positions_of(loads@).flat_map(per_load));
                    assert(result@ =~= for_slot + info@.store.take(s + 1).flat_map(per_store));
                }
                s += 1;
            }
            proof {
                assert(info@.store.take(info.store.len() as int) =~= info@.store);
                slots.lemma_flat_map_take_append(replacements_for_slot(f), v as int);
                assert(slots[v as int] == slot);
                assert(replacements_for_slot(f)(slot) == info@.store.flat_map(per_store));
            }
            v += 1;
        }
        proof {
            assert(slots.take(variables.len() as int) =~= slots);
            Self::lemma_actions_applicable(f);
        }
        result
    }

    /// This pass needs the results of no other pass.
    pub fn need(&self) -> (r: Vec<Pass>)
        ensures
            r@ == Seq::<Pass>::empty(),
    {
        Vec::new()
    }

    /// This pass makes the results of no other pass stale.
    pub fn invalidate(&self) -> (r: Vec<Pass>)
        ensures
            r@ == Seq::<Pass>::empty(),
    {
        Vec::new()
    }
}

} // verus!

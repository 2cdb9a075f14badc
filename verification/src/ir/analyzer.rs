//! Read-only facts about a function: which stack slots can be tracked,
//! where each is written and read, and which reads a write reaches within
//! its block.
use vstd::prelude::*;
use crate::ir::function::{FunctionDefinition, FunctionView, Position, StatementIndex, positions_of};
use crate::ir::quantity::{Quantity, QuantityView, RegisterName};
use crate::ir::statement::{IRStatement, Role, StatementView};

verus! {

/// The spellings of the names in `names`, in the same order.
pub open spec fn names_of(names: Seq<RegisterName>) -> Seq<Seq<char>> {
    names.map_values(|n: RegisterName| n@)
}

/// The model of a [`MemoryAccessInfo`].
pub struct MemoryAccessInfoView {
    pub store: Seq<Position>,
    pub load: Seq<Position>,
}

impl MemoryAccessInfoView {
    /// Whether the write at `store` reaches the read at `load` within one
    /// block: both stand in the same block, the read strictly behind the
    /// write, and no other write of this slot strictly between them.
    pub open spec fn dominates(self, store: Position, load: Position) -> bool {
        &&& load.block == store.block
        &&& store.offset < load.offset
        &&& forall|k: int|
            0 <= k < self.store.len() ==> !((#[trigger] self.store[k]).block == store.block
                && store.offset < self.store[k].offset < load.offset)
    }

    /// The test [`Self::dominates`] for the write at `store`, as a
    /// function of the read.
    pub open spec fn dominated_by(self, store: Position) -> spec_fn(Position) -> bool {
        |load: Position| self.dominates(store, load)
    }

    /// The reads of this slot that the write at `store` reaches within its
    /// block, in the order of the text.
    pub open spec fn loads_dominated_by_store_in_block(self, store: Position) -> Seq<Position> {
        self.load.filter(self.dominated_by(store))
    }
}

impl FunctionView {
    /// The test whether the statement at a position involves `register` in
    /// the way `role` names, as a function of the position.
    pub open spec fn involving(self, role: Role, register: Seq<char>) -> spec_fn(Position) -> bool {
        |p: Position| self.at(p).involves(role, register)
    }

    /// The positions of the statements that involve `register` in the way
    /// `role` names, in the order of the text.
    pub open spec fn occurrences(self, role: Role, register: Seq<char>) -> Seq<Position> {
        self.positions().filter(self.involving(role, register))
    }

    /// Whether some statement allocates the slot `register`.
    pub open spec fn allocates(self, register: Seq<char>) -> bool {
        exists|p: Position| self.contains(p) && (#[trigger] self.at(p)).allocates(register)
    }

    /// Whether some statement writes to the slot `register`.
    pub open spec fn stores_to(self, register: Seq<char>) -> bool {
        exists|p: Position| self.contains(p) && (#[trigger] self.at(p)).stores_to(register)
    }

    /// Whether some statement lets the address of the slot `register`
    /// escape.
    pub open spec fn leaks(self, register: Seq<char>) -> bool {
        exists|p: Position| self.contains(p) && (#[trigger] self.at(p)).leaks(register)
    }

    /// Whether `register` is a stack slot that the analysis can track: it
    /// is allocated in the function, written at least once, and its
    /// address never escapes.
    pub open spec fn trackable(self, register: Seq<char>) -> bool {
        self.allocates(register) && self.stores_to(register) && !self.leaks(register)
    }

    /// The trackable slots allocated at `positions`, each once, in the
    /// order in which the positions first name them.
    pub open spec fn variables_among(self, positions: Seq<Position>) -> Seq<Seq<char>>
        decreases positions.len(),
    {
        if positions.len() == 0 {
            Seq::empty()
        } else {
            let earlier = self.variables_among(positions.drop_last());
            match self.at(positions.last()) {
                StatementView::Alloca { to, .. } => if self.trackable(to) && !earlier.contains(to) {
                    earlier.push(to)
                } else {
                    earlier
                },
                _ => earlier,
            }
        }
    }

    /// The trackable slots of the function, each once, in the order of
    /// their first allocation.
    pub open spec fn variables(self) -> Seq<Seq<char>> {
        self.variables_among(self.positions())
    }

    /// Where the slot `register` is written and where it is read.
    pub open spec fn access_info(self, register: Seq<char>) -> MemoryAccessInfoView {
        MemoryAccessInfoView {
            store: self.occurrences(Role::StoreTarget, register),
            load: self.occurrences(Role::LoadSource, register),
        }
    }

    /// The occurrences of a register in one role are exactly the positions
    /// of the statements that involve it so, in the order of the text,
    /// each once.
    pub proof fn lemma_occurrences(self, role: Role, register: Seq<char>)
        ensures
            forall|p: Position|
                #![trigger self.occurrences(role, register).contains(p)]
                self.occurrences(role, register).contains(p) <==> (self.contains(p) && self.at(
                    p,
                ).involves(role, register)),
            forall|i: int, j: int|
                0 <= i < j < self.occurrences(role, register).len() ==> (
                #[trigger] self.occurrences(role, register)[i]).before(
                    #[trigger] self.occurrences(role, register)[j],
                ),
    {
        self.lemma_positions();
        lemma_filter_in_order(self.positions(), self.involving(role, register));
    }

    /// A register is among those found at `positions` exactly if it is
    /// trackable and allocated at one of them, and none is found twice.
    pub proof fn lemma_variables_among(self, positions: Seq<Position>)
        ensures
            forall|r: Seq<char>|
                #![trigger self.variables_among(positions).contains(r)]
                self.variables_among(positions).contains(r) <==> (self.trackable(r) && exists|
                    i: int,
                |
                    0 <= i < positions.len() && self.at(#[trigger] positions[i]).allocates(r)),
            self.variables_among(positions).no_duplicates(),
        decreases positions.len(),
    {
        if positions.len() > 0 {
            let front = positions.drop_last();
            let earlier = self.variables_among(front);
            let all = self.variables_among(positions);
            self.lemma_variables_among(front);
            assert forall|r: Seq<char>| all.contains(r) <==> (self.trackable(r) && exists|i: int|
                0 <= i < positions.len() && self.at(#[trigger] positions[i]).allocates(r)) by {
                if all.contains(r) {
                    if earlier.contains(r) {
                        let i = choose|i: int|
                            0 <= i < front.len() && self.at(#[trigger] front[i]).allocates(r);
                        assert(positions[i] == front[i]);
                    } else {
                        let k = choose|k: int| 0 <= k < all.len() && all[k] == r;
                        if k < earlier.len() {
                            assert(earlier[k] == r);
                        }
                        assert(self.at(positions[positions.len() - 1]).allocates(r));
                    }
                }
                if self.trackable(r) && exists|i: int|
                    0 <= i < positions.len() && self.at(#[trigger] positions[i]).allocates(r) {
                    let i = choose|i: int|
                        0 <= i < positions.len() && self.at(#[trigger] positions[i]).allocates(r);
                    if i < front.len() {
                        assert(front[i] == positions[i]);
                        assert(earlier.contains(r));
                        let k = choose|k: int| 0 <= k < earlier.len() && earlier[k] == r;
                        assert(all[k] == r);
                    } else {
                        if earlier.contains(r) {
                            let k = choose|k: int| 0 <= k < earlier.len() && earlier[k] == r;
                            assert(all[k] == r);
                        } else {
                            assert(all[all.len() - 1] == r);
                        }
                    }
                }
            }
        }
    }

    /// The variables of the function are exactly its trackable slots, each
    /// once. In particular no slot whose address escapes is among them.
    pub proof fn lemma_variables(self)
        ensures
            forall|r: Seq<char>| #[trigger] self.variables().contains(r) <==> self.trackable(r),
            self.variables().no_duplicates(),
            forall|r: Seq<char>| self.leaks(r) ==> !(#[trigger] self.variables().contains(r)),
    {
        self.lemma_positions();
        self.lemma_variables_among(self.positions());
        assert forall|r: Seq<char>| #[trigger] self.variables().contains(r) <==> self.trackable(
            r,
        ) by {
            if self.trackable(r) {
                let p = choose|p: Position| self.contains(p) && (#[trigger] self.at(p)).allocates(r);
                assert(self.positions().contains(p));
                let i = choose|i: int| 0 <= i < self.positions().len() && self.positions()[i] == p;
                assert(self.at(self.positions()[i]).allocates(r));
            }
        }
    }
}

/// Filtering positions that stand in the order of the text keeps exactly
/// those that pass the test, still in that order.
pub proof fn lemma_filter_in_order(s: Seq<Position>, pred: spec_fn(Position) -> bool)
    requires
        forall|i: int, j: int| 0 <= i < j < s.len() ==> (#[trigger] s[i]).before(#[trigger] s[j]),
    ensures
        forall|p: Position| #[trigger] s.filter(pred).contains(p) <==> (s.contains(p) && pred(p)),
        forall|i: int, j: int|
            0 <= i < j < s.filter(pred).len() ==> (#[trigger] s.filter(pred)[i]).before(
                #[trigger] s.filter(pred)[j],
            ),
    decreases s.len(),
{
    reveal(Seq::filter);
    let t = s.filter(pred);
    if s.len() > 0 {
        let front = s.drop_last();
        let u = front.filter(pred);
        lemma_filter_in_order(front, pred);
        assert forall|p: Position| #[trigger] t.contains(p) <==> (s.contains(p) && pred(p)) by {
            if t.contains(p) {
                let k = choose|k: int| 0 <= k < t.len() && t[k] == p;
                if k < u.len() {
                    assert(u[k] == p);
                    assert(u.contains(p));
                    let i = choose|i: int| 0 <= i < front.len() && front[i] == p;
                    assert(s[i] == p);
                } else {
                    assert(s[s.len() - 1] == p);
                }
            }
            if s.contains(p) && pred(p) {
                let i = choose|i: int| 0 <= i < s.len() && s[i] == p;
                if i < front.len() {
                    assert(front[i] == p);
                    assert(u.contains(p));
                    let k = choose|k: int| 0 <= k < u.len() && u[k] == p;
                    assert(t[k] == p);
                } else {
                    assert(t[t.len() - 1] == p);
                }
            }
        }
        assert forall|i: int, j: int| 0 <= i < j < t.len() implies (#[trigger] t[i]).before(
            #[trigger] t[j],
        ) by {
            if j < u.len() {
                assert(t[i] == u[i] && t[j] == u[j]);
            } else {
                assert(t[i] == u[i]);
                assert(u.contains(u[i]));
                let k = choose|k: int| 0 <= k < front.len() && front[k] == u[i];
                assert(s[k] == u[i]);
                assert(t[j] == s[s.len() - 1]);
            }
        }
    }
}

/// Where one stack slot is written and where it is read, each list in the
/// order of the function's text.
#[derive(Debug, PartialEq, Eq)]
pub struct MemoryAccessInfo {
    pub store: Vec<StatementIndex>,
    pub load: Vec<StatementIndex>,
}

impl View for MemoryAccessInfo {
    type V = MemoryAccessInfoView;

    open spec fn view(&self) -> MemoryAccessInfoView {
        MemoryAccessInfoView { store: positions_of(self.store@), load: positions_of(self.load@) }
    }
}

impl MemoryAccessInfo {
    /// Whether the write at `store` reaches the read at `load` within one
    /// block.
    pub fn dominates(&self, store: StatementIndex, load: StatementIndex) -> (r: bool)
        ensures
            r == self@.dominates(store@, load@),
    {
        if load.block != store.block || load.offset <= store.offset {
            return false;
        }
        let mut k: usize = 0;
        while k < self.store.len()
            invariant
                k <= self.store.len(),
                load.block == store.block,
                store.offset < load.offset,
                forall|i: int|
                    0 <= i < k ==> !((#[trigger] self@.store[i]).block == store@.block
                        && store@.offset < self@.store[i].offset < load@.offset),
            decreases self.store.len() - k,
        {
            let other = self.store[k];
            assert(self@.store[k as int] == other@);
            if other.block == store.block && store.offset < other.offset && other.offset
                < load.offset {
                return false;
            }
            k += 1;
        }
        true
    }

    /// The reads of this slot that the write at `store` reaches within its
    /// block: those in the same block, strictly behind the write, with no
    /// other write of the slot strictly between. A read in another block
    /// is never among them.
    pub fn loads_dominated_by_store_in_block(&self, store: StatementIndex) -> (r: Vec<
        StatementIndex,
    >)
        ensures
            positions_of(r@) == self@.loads_dominated_by_store_in_block(store@),
            forall|k: int| 0 <= k < r.len() ==> (#[trigger] r[k]).block == store.block,
    {
        let ghost pred = self@.dominated_by(store@);
        let mut result: Vec<StatementIndex> = Vec::new();
        let mut i: usize = 0;
        assert(self@.load.take(0) =~= Seq::empty());
        assert(positions_of(result@) =~= Seq::empty());
        assert(Seq::<Position>::empty().filter(pred) =~= Seq::empty()) by {
            reveal(Seq::filter);
        }
        while i < self.load.len()
            invariant
                i <= self.load.len(),
                pred == self@.dominated_by(store@),
                positions_of(result@) == self@.load.take(i as int).filter(pred),
                forall|k: int| 0 <= k < result.len() ==> (#[trigger] result[k]).block == store.block,
            decreases self.load.len() - i,
        {
            let load = self.load[i];
            let ghost before = positions_of(result@);
            if self.dominates(store, load) {
                result.push(load);
                assert(positions_of(result@) =~= before.push(load@));
            }
            proof {
                let front = self@.load.take(i as int);
                assert(self@.load.take(i + 1) =~= front.push(load@));
                front.lemma_filter_push(load@, pred);
            }
            i += 1;
        }
        assert(self@.load.take(self.load.len() as int) =~= self@.load);
        result
    }
}

/// A read-only view of a function, from which facts about it are
/// computed. Every fact is a function of the function's content alone.
pub struct Analyzer<'a> {
    pub content: &'a FunctionDefinition,
}

impl<'a> Analyzer<'a> {
    /// An analyzer of `content`.
    pub fn new(content: &'a FunctionDefinition) -> (r: Analyzer<'a>)
        ensures
            r.content == content,
    {
        Analyzer { content }
    }

    /// The addresses of the statements that involve `register` in the way
    /// `role` names, in the order of the text.
    pub fn occurrences(&self, role: Role, register: &RegisterName) -> (r: Vec<StatementIndex>)
        ensures
            positions_of(r@) == self.content@.occurrences(role, register@),
    {
        let ghost f = self.content@;
        let ghost pred = f.involving(role, register@);
        let mut result: Vec<StatementIndex> = Vec::new();
        let mut block: usize = 0;
        assert(positions_of(result@) =~= Seq::empty());
        assert(f.positions_before(0).filter(pred) =~= Seq::empty()) by {
            reveal(Seq::filter);
        }
        while block < self.content.content.len()
            invariant
                block <= self.content.content.len(),
                f == self.content@,
                pred == f.involving(role, register@),
                positions_of(result@) == f.positions_before(block as int).filter(pred),
            decreases self.content.content.len() - block,
        {
            let count = self.content.content[block].content.len();
            let mut offset: usize = 0;
            assert(f.positions_before(block as int) + f.positions_in(block as int).take(0)
                =~= f.positions_before(block as int));
            while offset < count
                invariant
                    block < self.content.content.len(),
                    offset <= count,
                    count == self.content.content[block as int].content.len(),
                    f == self.content@,
                    pred == f.involving(role, register@),
                    positions_of(result@) == (f.positions_before(block as int) + f.positions_in(
                        block as int,
                    ).take(offset as int)).filter(pred),
                decreases count - offset,
            {
                let index = StatementIndex::new(block, offset);
                let ghost before = positions_of(result@);
                if self.content.statement(index).involves(role, register) {
                    result.push(index);
                    assert(positions_of(result@) =~= before.push(index@));
                }
                proof {
                    let here = f.positions_in(block as int);
                    let front = f.positions_before(block as int) + here.take(offset as int);
                    assert(here.take(offset + 1) =~= here.take(offset as int).push(index@));
                    assert(f.positions_before(block as int) + here.take(offset + 1) =~= front.push(
                        index@,
                    ));
                    front.lemma_filter_push(index@, pred);
                }
                offset += 1;
            }
            assert(f.positions_in(block as int).take(count as int) =~= f.positions_in(block as int));
            block += 1;
        }
        result
    }

    /// Whether `register` is a stack slot that can be tracked: allocated
    /// in the function, written at least once, and never escaping.
    pub fn is_trackable(&self, register: &RegisterName) -> (r: bool)
        ensures
            r == self.content@.trackable(register@),
    {
        let ghost f = self.content@;
        let allocations = self.occurrences(Role::Allocation, register);
        let stores = self.occurrences(Role::StoreTarget, register);
        let escapes = self.occurrences(Role::Escape, register);
        proof {
            f.lemma_occurrences(Role::Allocation, register@);
            f.lemma_occurrences(Role::StoreTarget, register@);
            f.lemma_occurrences(Role::Escape, register@);
            lemma_nonempty_iff_some(f, Role::Allocation, register@);
            lemma_nonempty_iff_some(f, Role::StoreTarget, register@);
            lemma_nonempty_iff_some(f, Role::Escape, register@);
            assert(positions_of(allocations@).len() == allocations.len());
            assert(positions_of(stores@).len() == stores.len());
            assert(positions_of(escapes@).len() == escapes.len());
        }
        allocations.len() > 0 && stores.len() > 0 && escapes.len() == 0
    }

    /// The stack slots that can be tracked: the registers that a statement
    /// of the function allocates, that are written at least once and whose
    /// address never escapes. Each comes once, in the order of its first
    /// allocation. A slot whose address is stored somewhere, computed with
    /// or returned is never among them.
    pub fn memory_access_variables(&self) -> (r: Vec<RegisterName>)
        ensures
            names_of(r@) == self.content@.variables(),
            forall|k: int| 0 <= k < r.len() ==> self.content@.trackable(#[trigger] r[k]@),
            forall|k: int| 0 <= k < r.len() ==> !self.content@.leaks(#[trigger] r[k]@),
            forall|name: Seq<char>|
                self.content@.trackable(name) ==> exists|k: int|
                    0 <= k < r.len() && #[trigger] r[k]@ == name,
            forall|j: int, k: int| 0 <= j < k < r.len() ==> #[trigger] r[j]@ != #[trigger] r[k]@,
    {
        let ghost f = self.content@;
        let mut result: Vec<RegisterName> = Vec::new();
        let mut block: usize = 0;
        assert(names_of(result@) =~= Seq::empty());
        while block < self.content.content.len()
            invariant
                block <= self.content.content.len(),
                f == self.content@,
                names_of(result@) == f.variables_among(f.positions_before(block as int)),
            decreases self.content.content.len() - block,
        {
            let count = self.content.content[block].content.len();
            let mut offset: usize = 0;
            assert(f.positions_before(block as int) + f.positions_in(block as int).take(0)
                =~= f.positions_before(block as int));
            while offset < count
                invariant
                    block < self.content.content.len(),
                    offset <= count,
                    count == self.content.content[block as int].content.len(),
                    f == self.content@,
                    names_of(result@) == f.variables_among(
                        f.positions_before(block as int) + f.positions_in(block as int).take(
                            offset as int,
                        ),
                    ),
                decreases count - offset,
            {
                let index = StatementIndex::new(block, offset);
                let ghost before = names_of(result@);
                proof {
                    let here = f.positions_in(block as int);
                    let front = f.positions_before(block as int) + here.take(offset as int);
                    let next = f.positions_before(block as int) + here.take(offset + 1);
                    assert(here.take(offset + 1) =~= here.take(offset as int).push(index@));
                    assert(next =~= front.push(index@));
                    assert(next.drop_last() =~= front);
                    assert(next.last() == index@);
                }
                match self.content.statement(index) {
                    IRStatement::Alloca(alloca) => {
                        if !Self::names(&result, &alloca.to) && self.is_trackable(&alloca.to) {
                            result.push(alloca.to.clone());
                            assert(names_of(result@) =~= before.push(alloca.to@));
                        }
                    },
                    _ => {},
                }
                offset += 1;
            }
            assert(f.positions_in(block as int).take(count as int) =~= f.positions_in(block as int));
            block += 1;
        }
        proof {
            f.lemma_variables();
            let names = names_of(result@);
            assert forall|k: int| 0 <= k < result.len() implies f.trackable(
                #[trigger] result[k]@,
            ) && !f.leaks(result[k]@) by {
                assert(names[k] == result[k]@);
                assert(names.contains(result[k]@));
            }
            assert forall|name: Seq<char>| f.trackable(name) implies exists|k: int|
                0 <= k < result.len() && #[trigger] result[k]@ == name by {
                assert(names.contains(name));
                let k = choose|k: int| 0 <= k < names.len() && names[k] == name;
                assert(result[k]@ == name);
            }
            assert forall|j: int, k: int| 0 <= j < k < result.len() implies #[trigger] result[j]@
                != #[trigger] result[k]@ by {
                assert(names[j] == result[j]@ && names[k] == result[k]@);
            }
        }
        result
    }

    /// Whether `register` is among `list`.
    fn names(list: &Vec<RegisterName>, register: &RegisterName) -> (r: bool)
        ensures
            r == names_of(list@).contains(register@),
    {
        let mut k: usize = 0;
        while k < list.len()
            invariant
                k <= list.len(),
                forall|i: int| 0 <= i < k ==> names_of(list@)[i] != register@,
            decreases list.len() - k,
        {
            if list[k].same_as(register) {
                assert(names_of(list@)[k as int] == register@);
                return true;
            }
            k += 1;
        }
        false
    }

    /// Where the slot `variable` is written and where it is read, each
    /// list in the order of the function's text.
    pub fn memory_access_info(&self, variable: &RegisterName) -> (r: MemoryAccessInfo)
        ensures
            r@ == self.content@.access_info(variable@),
    {
        MemoryAccessInfo {
            store: self.occurrences(Role::StoreTarget, variable),
            load: self.occurrences(Role::LoadSource, variable),
        }
    }

    /// The reads that the write at `store_index` reaches within its block:
    /// every read of the slot that the write is to, in the same block,
    /// strictly behind the write, with no other write of the slot strictly
    /// between. A read in another block is never among them, whatever
    /// paths lead there. A write through a constant address reaches none.
    pub fn loads_dominated_by_store_in_block(&self, store_index: StatementIndex) -> (r: Vec<
        StatementIndex,
    >)
        requires
            self.content@.contains(store_index@),
            self.content@.at(store_index@) is Store,
        ensures
            positions_of(r@) == (match self.content@.at(store_index@)->target {
                QuantityView::Register(slot) => self.content@.access_info(
                    slot,
                ).loads_dominated_by_store_in_block(store_index@),
                QuantityView::Number(_) => Seq::empty(),
            }),
            forall|k: int| 0 <= k < r.len() ==> (#[trigger] r[k]).block == store_index.block,
    {
        match &self.content.statement(store_index).as_store().target {
            Quantity::RegisterName(slot) => {
                self.memory_access_info(slot).loads_dominated_by_store_in_block(store_index)
            },
            Quantity::NumberLiteral(_) => {
                let r: Vec<StatementIndex> = Vec::new();
                assert(positions_of(r@) =~= Seq::empty());
                r
            },
        }
    }
}

/// Some statement involves the register in the given role exactly if the
/// list of such statements is not empty.
pub proof fn lemma_nonempty_iff_some(f: FunctionView, role: Role, register: Seq<char>)
    ensures
        f.occurrences(role, register).len() > 0 <==> exists|p: Position|
            f.contains(p) && (#[trigger] f.at(p)).involves(role, register),
{
    f.lemma_occurrences(role, register);
    let found = f.occurrences(role, register);
    if found.len() > 0 {
        assert(found.contains(found[0]));
    }
    if exists|p: Position| f.contains(p) && (#[trigger] f.at(p)).involves(role, register) {
        let p = choose|p: Position| f.contains(p) && (#[trigger] f.at(p)).involves(role, register);
        assert(found.contains(p));
    }
}

} // verus!

//! Function bodies: ordered blocks of ordered statements, addressed by
//! block and offset.
use vstd::prelude::*;
use crate::ir::quantity::{Quantity, QuantityView, RegisterName};
use crate::ir::statement::{IRStatement, StatementView};
use crate::utility::data_type::Type;

verus! {

/// The model of a [`StatementIndex`]: a block and an offset in it.
pub struct Position {
    pub block: int,
    pub offset: int,
}

impl Position {
    /// Whether this position comes strictly before `other` in the order of
    /// the function's text: an earlier block, or the same block and an
    /// earlier offset.
    pub open spec fn before(self, other: Position) -> bool {
        self.block < other.block || (self.block == other.block && self.offset < other.offset)
    }

    /// Where the statement at this position stands once the statement at
    /// `removed` is gone: later statements of the same block move up by
    /// one, all others stay.
    pub open spec fn after_removal_of(self, removed: Position) -> Position {
        if self.block == removed.block && self.offset > removed.offset {
            Position { block: self.block, offset: self.offset - 1 }
        } else {
            self
        }
    }
}

/// The structural address of one statement: its block and its offset in
/// that block.
#[derive(Clone, Copy, Debug, PartialEq, Eq, Structural, Hash)]
pub struct StatementIndex {
    pub block: usize,
    pub offset: usize,
}

impl View for StatementIndex {
    type V = Position;

    open spec fn view(&self) -> Position {
        Position { block: self.block as int, offset: self.offset as int }
    }
}

impl StatementIndex {
    /// The address of the statement at `offset` in the block `block`.
    pub fn new(block: usize, offset: usize) -> (r: StatementIndex)
        ensures
            r == (StatementIndex { block, offset }),
    {
        StatementIndex { block, offset }
    }
}

/// The models of the addresses in `indexes`, in the same order.
pub open spec fn positions_of(indexes: Seq<StatementIndex>) -> Seq<Position> {
    indexes.map_values(|i: StatementIndex| i@)
}

/// The model of a [`BasicBlock`].
pub struct BlockView {
    pub name: Option<Seq<char>>,
    pub content: Seq<StatementView>,
}

impl BlockView {
    /// The block after every use of `from` has been replaced by `to`.
    pub open spec fn rename(self, from: Seq<char>, to: QuantityView) -> BlockView {
        BlockView {
            name: self.name,
            content: self.content.map_values(|s: StatementView| s.rename(from, to)),
        }
    }

    /// The block without the statement at `offset`.
    pub open spec fn remove(self, offset: int) -> BlockView {
        BlockView { name: self.name, content: self.content.remove(offset) }
    }

    /// Whether no statement stands behind a terminator.
    pub open spec fn ends_at_terminator(self) -> bool {
        forall|i: int|
            0 <= i < self.content.len() - 1 ==> !(#[trigger] self.content[i]).is_terminator()
    }

    /// Whether the block ends in a terminator.
    pub open spec fn terminated(self) -> bool {
        self.content.len() > 0 && self.content.last().is_terminator()
    }
}

/// An ordered sequence of statements, executed in order, with an optional
/// name. A block without a name is known by its place in the function.
#[derive(Debug, PartialEq, Eq, Hash)]
pub struct BasicBlock {
    pub name: Option<String>,
    pub content: Vec<IRStatement>,
}

impl View for BasicBlock {
    type V = BlockView;

    open spec fn view(&self) -> BlockView {
        BlockView {
            name: match self.name {
                Some(n) => Some(n@),
                None => None,
            },
            content: self.content@.map_values(|s: IRStatement| s@),
        }
    }
}

impl BasicBlock {
    /// Replaces every use of `from` in the block by `to`.
    pub fn on_register_change(&mut self, from: &RegisterName, to: &Quantity)
        ensures
            final(self)@ == old(self)@.rename(from@, to@),
    {
        let ghost before = *self;
        let mut offset: usize = 0;
        while offset < self.content.len()
            invariant
                offset <= self.content.len(),
                self.name == before.name,
                self.content.len() == before.content.len(),
                forall|j: int|
                    0 <= j < offset ==> (#[trigger] self.content@[j])@ == before.content@[j]@.rename(
                        from@,
                        to@,
                    ),
                forall|j: int|
                    offset <= j < self.content.len() ==> #[trigger] self.content@[j]
                        == before.content@[j],
            decreases self.content.len() - offset,
        {
            self.content[offset].on_register_change(from, to);
            offset += 1;
        }
        assert(self@.content =~= before@.rename(from@, to@).content);
    }
}

/// The model of a [`Parameter`].
pub struct ParameterView {
    pub name: Seq<char>,
    pub data_type: Type,
}

/// A parameter of a function: the register that holds it, and its type.
#[derive(Debug, PartialEq, Eq, Hash)]
pub struct Parameter {
    pub name: RegisterName,
    pub data_type: Type,
}

impl View for Parameter {
    type V = ParameterView;

    open spec fn view(&self) -> ParameterView {
        ParameterView { name: self.name@, data_type: self.data_type }
    }
}

/// The model of a [`FunctionHeader`].
pub struct HeaderView {
    pub name: Seq<char>,
    pub parameters: Seq<ParameterView>,
    pub return_type: Type,
}

/// The name, the parameters and the return type of a function.
#[derive(Debug, PartialEq, Eq, Hash)]
pub struct FunctionHeader {
    pub name: String,
    pub parameters: Vec<Parameter>,
    pub return_type: Type,
}

impl View for FunctionHeader {
    type V = HeaderView;

    open spec fn view(&self) -> HeaderView {
        HeaderView {
            name: self.name@,
            parameters: self.parameters@.map_values(|p: Parameter| p@),
            return_type: self.return_type,
        }
    }
}

/// The model of a [`FunctionDefinition`].
pub struct FunctionView {
    pub header: HeaderView,
    pub content: Seq<BlockView>,
}

impl FunctionView {
    /// Whether `p` addresses a statement of the function.
    pub open spec fn contains(self, p: Position) -> bool {
        0 <= p.block < self.content.len() && 0 <= p.offset < self.content[p.block].content.len()
    }

    /// The statement at `p`.
    pub open spec fn at(self, p: Position) -> StatementView
        recommends
            self.contains(p),
    {
        self.content[p.block].content[p.offset]
    }

    /// The positions of the block `block`, in order.
    pub open spec fn positions_in(self, block: int) -> Seq<Position> {
        Seq::new(self.content[block].content.len(), |o: int| Position { block, offset: o })
    }

    /// The positions of the first `blocks` blocks, in the order of the
    /// function's text.
    pub open spec fn positions_before(self, blocks: int) -> Seq<Position>
        decreases blocks,
    {
        if blocks <= 0 {
            Seq::empty()
        } else {
            self.positions_before(blocks - 1) + self.positions_in(blocks - 1)
        }
    }

    /// The positions of all statements, in the order of the function's
    /// text.
    pub open spec fn positions(self) -> Seq<Position> {
        self.positions_before(self.content.len() as int)
    }

    /// The function after every use of `from` has been replaced by `to`.
    pub open spec fn rename(self, from: Seq<char>, to: QuantityView) -> FunctionView {
        FunctionView {
            header: self.header,
            content: self.content.map_values(|b: BlockView| b.rename(from, to)),
        }
    }

    /// The function without the statement at `p`.
    pub open spec fn remove(self, p: Position) -> FunctionView {
        FunctionView {
            header: self.header,
            content: self.content.update(p.block, self.content[p.block].remove(p.offset)),
        }
    }

    /// Whether every block but possibly the last ends in a terminator, and
    /// no statement of any block stands behind one.
    pub open spec fn well_formed(self) -> bool {
        &&& forall|b: int|
            0 <= b < self.content.len() ==> (#[trigger] self.content[b]).ends_at_terminator()
        &&& forall|b: int|
            0 <= b < self.content.len() - 1 ==> (#[trigger] self.content[b]).terminated()
    }

    /// A position is among those of the first `blocks` blocks exactly if
    /// it addresses a statement in one of them, and those positions stand
    /// in the order of the text, each once.
    pub proof fn lemma_positions_before(self, blocks: int)
        requires
            0 <= blocks <= self.content.len(),
        ensures
            forall|p: Position|
                #![trigger self.positions_before(blocks).contains(p)]
                #![trigger self.contains(p)]
                self.positions_before(blocks).contains(p) <==> (self.contains(p) && p.block
                    < blocks),
            forall|i: int, j: int|
                0 <= i < j < self.positions_before(blocks).len() ==> (
                #[trigger] self.positions_before(blocks)[i]).before(
                    #[trigger] self.positions_before(blocks)[j],
                ),
        decreases blocks,
    {
        if blocks > 0 {
            self.lemma_positions_before(blocks - 1);
            let head = self.positions_before(blocks - 1);
            let tail = self.positions_in(blocks - 1);
            let all = self.positions_before(blocks);
            assert(all == head + tail);
            assert forall|p: Position| all.contains(p) <==> (self.contains(p) && p.block
                < blocks) by {
                if all.contains(p) {
                    let i = choose|i: int| 0 <= i < all.len() && all[i] == p;
                    if i < head.len() {
                        assert(head.contains(p));
                    } else {
                        assert(tail[i - head.len()] == p);
                    }
                }
                if self.contains(p) && p.block < blocks {
                    if p.block < blocks - 1 {
                        assert(head.contains(p));
                        let i = choose|i: int| 0 <= i < head.len() && head[i] == p;
                        assert(all[i] == p);
                    } else {
                        assert(tail[p.offset] == p);
                        assert(all[head.len() + p.offset] == p);
                    }
                }
            }
            assert forall|i: int, j: int| 0 <= i < j < all.len() implies (#[trigger] all[i]).before(
                #[trigger] all[j],
            ) by {
                if j < head.len() {
                    assert(all[i] == head[i] && all[j] == head[j]);
                    assert(head[i].before(head[j]));
                } else if i < head.len() {
                    assert(all[i] == head[i]);
                    assert(head.contains(head[i]));
                    assert(all[j] == tail[j - head.len()]);
                    assert(head[i].block < blocks - 1);
                    assert(tail[j - head.len()].block == blocks - 1);
                } else {
                    assert(all[i] == tail[i - head.len()]);
                    assert(all[j] == tail[j - head.len()]);
                    assert(tail[i - head.len()].offset == i - head.len());
                    assert(tail[j - head.len()].offset == j - head.len());
                }
            }
        }
    }

    /// The positions of the function are exactly the addresses of its
    /// statements, in the order of the text, each once.
    pub proof fn lemma_positions(self)
        ensures
            forall|p: Position|
                #![trigger self.positions().contains(p)]
                #![trigger self.contains(p)]
                self.positions().contains(p) <==> self.contains(p),
            forall|i: int, j: int|
                0 <= i < j < self.positions().len() ==> (#[trigger] self.positions()[i]).before(
                    #[trigger] self.positions()[j],
                ),
    {
        self.lemma_positions_before(self.content.len() as int);
    }
}

/// A function: its header and its ordered blocks.
#[derive(Debug, PartialEq, Eq, Hash)]
pub struct FunctionDefinition {
    pub header: FunctionHeader,
    pub content: Vec<BasicBlock>,
}

impl View for FunctionDefinition {
    type V = FunctionView;

    open spec fn view(&self) -> FunctionView {
        FunctionView { header: self.header@, content: self.content@.map_values(|b: BasicBlock| b@) }
    }
}

impl FunctionDefinition {
    /// Whether `index` addresses a statement of the function.
    pub fn has(&self, index: StatementIndex) -> (r: bool)
        ensures
            r == self@.contains(index@),
    {
        index.block < self.content.len() && index.offset < self.content[index.block].content.len()
    }

    /// The statement at `index`.
    pub fn statement(&self, index: StatementIndex) -> (r: &IRStatement)
        requires
            self@.contains(index@),
        ensures
            r@ == self@.at(index@),
            *r == self.content[index.block as int].content[index.offset as int],
    {
        &self.content[index.block].content[index.offset]
    }

    /// Replaces every use of `from` in the function by `to`.
    pub fn on_register_change(&mut self, from: &RegisterName, to: &Quantity)
        ensures
            final(self)@ == old(self)@.rename(from@, to@),
    {
        let ghost before = *self;
        let mut block: usize = 0;
        while block < self.content.len()
            invariant
                block <= self.content.len(),
                self.header == before.header,
                self.content.len() == before.content.len(),
                forall|j: int|
                    0 <= j < block ==> (#[trigger] self.content@[j])@ == before.content@[j]@.rename(
                        from@,
                        to@,
                    ),
                forall|j: int|
                    block <= j < self.content.len() ==> #[trigger] self.content@[j]
                        == before.content@[j],
            decreases self.content.len() - block,
        {
            self.content[block].on_register_change(from, to);
            block += 1;
        }
        assert(self@.content =~= before@.rename(from@, to@).content);
    }

    /// Takes the statement at `index` out of its block. The statements
    /// behind it in that block move up by one.
    pub fn remove(&mut self, index: StatementIndex)
        requires
            old(self)@.contains(index@),
        ensures
            final(self)@ == old(self)@.remove(index@),
    {
        let ghost before = self@;
        self.content[index.block].content.remove(index.offset);
        assert(self@.content[index.block as int].content =~= before.content[index.block as int].remove(
            index.offset as int,
        ).content);
        assert(self@.content =~= before.remove(index@).content);
    }
}

} // verus!

//! The statements of the intermediate representation.
use vstd::prelude::*;
use vstd::std_specs::convert::FromSpecImpl;
use crate::ir::quantity::{Quantity, QuantityView, RegisterName};
use crate::utility::data_type::Type;

verus! {

/// The arithmetic and comparison operations on two operands.
#[derive(Clone, Copy, Debug, PartialEq, Eq, Structural, Hash)]
pub enum BinaryOperation {
    Add,
    Sub,
    And,
    Or,
    Xor,
    Equal,
    NotEqual,
    LessThan,
    LessOrEqualThan,
    GreaterThan,
    GreaterOrEqualThan,
}

/// The ways in which a statement can involve a register that holds the
/// address of a stack slot.
#[derive(Clone, Copy, Debug, PartialEq, Eq, Structural, Hash)]
pub enum Role {
    /// The statement allocates the slot and binds its address to the
    /// register.
    Allocation,
    /// The statement writes to the slot.
    StoreTarget,
    /// The statement reads from the slot.
    LoadSource,
    /// The statement lets the address escape.
    Escape,
}

/// The model of a statement: the statement with every name as a sequence
/// of characters and every constant as a mathematical integer.
pub enum StatementView {
    Alloca { to: Seq<char>, alloc_type: Type },
    Store { data_type: Type, source: QuantityView, target: QuantityView },
    Load { to: Seq<char>, data_type: Type, from: QuantityView },
    BinaryCalculate {
        operation: BinaryOperation,
        operand1: QuantityView,
        operand2: QuantityView,
        to: Seq<char>,
        data_type: Type,
    },
    Jump { label: Seq<char> },
    Ret { value: Option<QuantityView> },
}

impl StatementView {
    /// The operand positions of the statement, in the order of its fields.
    /// A register that a statement defines is no operand.
    pub open spec fn operands(self) -> Seq<QuantityView> {
        match self {
            StatementView::Alloca { .. } => seq![],
            StatementView::Store { source, target, .. } => seq![source, target],
            StatementView::Load { from, .. } => seq![from],
            StatementView::BinaryCalculate { operand1, operand2, .. } => seq![operand1, operand2],
            StatementView::Jump { .. } => seq![],
            StatementView::Ret { value } => match value {
                Some(v) => seq![v],
                None => seq![],
            },
        }
    }

    /// The statement after every use of `from` has been replaced by `to`.
    pub open spec fn rename(self, from: Seq<char>, to: QuantityView) -> StatementView {
        match self {
            StatementView::Alloca { .. } => self,
            StatementView::Store { data_type, source, target } => StatementView::Store {
                data_type,
                source: source.rename(from, to),
                target: target.rename(from, to),
            },
            StatementView::Load { to: result, data_type, from: address } => StatementView::Load {
                to: result,
                data_type,
                from: address.rename(from, to),
            },
            StatementView::BinaryCalculate {
                operation,
                operand1,
                operand2,
                to: result,
                data_type,
            } => StatementView::BinaryCalculate {
                operation,
                operand1: operand1.rename(from, to),
                operand2: operand2.rename(from, to),
                to: result,
                data_type,
            },
            StatementView::Jump { .. } => self,
            StatementView::Ret { value } => StatementView::Ret {
                value: match value {
                    Some(v) => Some(v.rename(from, to)),
                    None => None,
                },
            },
        }
    }

    /// Whether the statement involves `register` in the way `role` names.
    pub open spec fn involves(self, role: Role, register: Seq<char>) -> bool {
        match role {
            Role::Allocation => self.allocates(register),
            Role::StoreTarget => self.stores_to(register),
            Role::LoadSource => self.loads_from(register),
            Role::Escape => self.leaks(register),
        }
    }

    /// Whether the statement ends a block.
    pub open spec fn is_terminator(self) -> bool {
        self is Jump || self is Ret
    }

    /// Whether the statement allocates the stack slot `register`.
    pub open spec fn allocates(self, register: Seq<char>) -> bool {
        self matches StatementView::Alloca { to, .. } && to == register
    }

    /// Whether the statement writes to the address held in `register`.
    pub open spec fn stores_to(self, register: Seq<char>) -> bool {
        self matches StatementView::Store { target, .. } && target == QuantityView::Register(
            register,
        )
    }

    /// Whether the statement reads from the address held in `register`.
    pub open spec fn loads_from(self, register: Seq<char>) -> bool {
        self matches StatementView::Load { from, .. } && from == QuantityView::Register(register)
    }

    /// Whether the statement lets the address held in `register` escape:
    /// it stores the address itself somewhere, computes with it, or
    /// returns it. Reading and writing through the address is no escape.
    pub open spec fn leaks(self, register: Seq<char>) -> bool {
        match self {
            StatementView::Store { source, .. } => source == QuantityView::Register(register),
            StatementView::BinaryCalculate { operand1, operand2, .. } => operand1
                == QuantityView::Register(register) || operand2 == QuantityView::Register(
                register,
            ),
            StatementView::Ret { value } => value == Some(QuantityView::Register(register)),
            _ => false,
        }
    }
}

/// Allocates a stack slot and binds its address to `to`.
#[derive(Debug, PartialEq, Eq, Hash)]
pub struct Alloca {
    pub to: RegisterName,
    pub alloc_type: Type,
}

/// Writes `source` to the address in `target`.
#[derive(Debug, PartialEq, Eq, Hash)]
pub struct Store {
    pub data_type: Type,
    pub source: Quantity,
    pub target: Quantity,
}

/// Reads the address in `from` into the register `to`.
#[derive(Debug, PartialEq, Eq, Hash)]
pub struct Load {
    pub to: RegisterName,
    pub data_type: Type,
    pub from: Quantity,
}

/// Applies `operation` to two operands and binds the result to `to`.
#[derive(Debug, PartialEq, Eq, Hash)]
pub struct BinaryCalculate {
    pub operation: BinaryOperation,
    pub operand1: Quantity,
    pub operand2: Quantity,
    pub to: RegisterName,
    pub data_type: Type,
}

/// Continues at the block called `label`.
#[derive(Debug, PartialEq, Eq, Hash)]
pub struct Jump {
    pub label: String,
}

/// Leaves the function, with a value or without.
#[derive(Debug, PartialEq, Eq, Hash)]
pub struct Ret {
    pub value: Option<Quantity>,
}

impl View for Alloca {
    type V = StatementView;

    open spec fn view(&self) -> StatementView {
        StatementView::Alloca { to: self.to@, alloc_type: self.alloc_type }
    }
}

impl View for Store {
    type V = StatementView;

    open spec fn view(&self) -> StatementView {
        StatementView::Store {
            data_type: self.data_type,
            source: self.source@,
            target: self.target@,
        }
    }
}

impl View for Load {
    type V = StatementView;

    open spec fn view(&self) -> StatementView {
        StatementView::Load { to: self.to@, data_type: self.data_type, from: self.from@ }
    }
}

impl View for BinaryCalculate {
    type V = StatementView;

    open spec fn view(&self) -> StatementView {
        StatementView::BinaryCalculate {
            operation: self.operation,
            operand1: self.operand1@,
            operand2: self.operand2@,
            to: self.to@,
            data_type: self.data_type,
        }
    }
}

impl View for Jump {
    type V = StatementView;

    open spec fn view(&self) -> StatementView {
        StatementView::Jump { label: self.label@ }
    }
}

impl View for Ret {
    type V = StatementView;

    open spec fn view(&self) -> StatementView {
        StatementView::Ret {
            value: match self.value {
                Some(v) => Some(v@),
                None => None,
            },
        }
    }
}

impl Clone for Alloca {
    fn clone(&self) -> (r: Self)
        ensures
            r == *self,
    {
        Alloca { to: self.to.clone(), alloc_type: self.alloc_type }
    }
}

impl Clone for Store {
    fn clone(&self) -> (r: Self)
        ensures
            r == *self,
    {
        Store {
            data_type: self.data_type,
            source: self.source.clone(),
            target: self.target.clone(),
        }
    }
}

impl Clone for Load {
    fn clone(&self) -> (r: Self)
        ensures
            r == *self,
    {
        Load { to: self.to.clone(), data_type: self.data_type, from: self.from.clone() }
    }
}

impl Clone for BinaryCalculate {
    fn clone(&self) -> (r: Self)
        ensures
            r == *self,
    {
        BinaryCalculate {
            operation: self.operation,
            operand1: self.operand1.clone(),
            operand2: self.operand2.clone(),
            to: self.to.clone(),
            data_type: self.data_type,
        }
    }
}

impl Clone for Jump {
    fn clone(&self) -> (r: Self)
        ensures
            r == *self,
    {
        Jump { label: self.label.clone() }
    }
}

impl Clone for Ret {
    fn clone(&self) -> (r: Self)
        ensures
            r == *self,
    {
        match &self.value {
            Some(v) => Ret { value: Some(v.clone()) },
            None => Ret { value: None },
        }
    }
}

impl Store {
    /// Replaces every use of `from` among the operands by `to`.
    pub fn on_register_change(&mut self, from: &RegisterName, to: &Quantity)
        ensures
            final(self)@ == old(self)@.rename(from@, to@),
    {
        self.source.on_register_change(from, to);
        self.target.on_register_change(from, to);
    }
}

impl Load {
    /// Replaces every use of `from` among the operands by `to`. The
    /// register that the load defines stays.
    pub fn on_register_change(&mut self, from: &RegisterName, to: &Quantity)
        ensures
            final(self)@ == old(self)@.rename(from@, to@),
    {
        self.from.on_register_change(from, to);
    }
}

impl BinaryCalculate {
    /// Replaces every use of `from` among the operands by `to`. The
    /// register that the calculation defines stays.
    pub fn on_register_change(&mut self, from: &RegisterName, to: &Quantity)
        ensures
            final(self)@ == old(self)@.rename(from@, to@),
    {
        self.operand1.on_register_change(from, to);
        self.operand2.on_register_change(from, to);
    }
}

impl Ret {
    /// Replaces the returned value by `to` if it is a use of `from`.
    pub fn on_register_change(&mut self, from: &RegisterName, to: &Quantity)
        ensures
            final(self)@ == old(self)@.rename(from@, to@),
    {
        match &mut self.value {
            Some(v) => {
                v.on_register_change(from, to);
            },
            None => {},
        }
    }
}

/// A statement: one of a closed set of variants.
#[derive(Debug, PartialEq, Eq, Hash)]
pub enum IRStatement {
    Alloca(Alloca),
    Store(Store),
    Load(Load),
    BinaryCalculate(BinaryCalculate),
    Jump(Jump),
    Ret(Ret),
}

impl View for IRStatement {
    type V = StatementView;

    open spec fn view(&self) -> StatementView {
        match self {
            IRStatement::Alloca(s) => s@,
            IRStatement::Store(s) => s@,
            IRStatement::Load(s) => s@,
            IRStatement::BinaryCalculate(s) => s@,
            IRStatement::Jump(s) => s@,
            IRStatement::Ret(s) => s@,
        }
    }
}

impl Clone for IRStatement {
    fn clone(&self) -> (r: Self)
        ensures
            r == *self,
    {
        match self {
            IRStatement::Alloca(s) => IRStatement::Alloca(s.clone()),
            IRStatement::Store(s) => IRStatement::Store(s.clone()),
            IRStatement::Load(s) => IRStatement::Load(s.clone()),
            IRStatement::BinaryCalculate(s) => IRStatement::BinaryCalculate(s.clone()),
            IRStatement::Jump(s) => IRStatement::Jump(s.clone()),
            IRStatement::Ret(s) => IRStatement::Ret(s.clone()),
        }
    }
}

impl From<Alloca> for IRStatement {
    fn from(statement: Alloca) -> (r: IRStatement) {
        IRStatement::Alloca(statement)
    }
}

impl FromSpecImpl<Alloca> for IRStatement {
    open spec fn obeys_from_spec() -> bool {
        true
    }

    open spec fn from_spec(statement: Alloca) -> IRStatement {
        IRStatement::Alloca(statement)
    }
}

impl From<Store> for IRStatement {
    fn from(statement: Store) -> (r: IRStatement) {
        IRStatement::Store(statement)
    }
}

impl FromSpecImpl<Store> for IRStatement {
    open spec fn obeys_from_spec() -> bool {
        true
    }

    open spec fn from_spec(statement: Store) -> IRStatement {
        IRStatement::Store(statement)
    }
}

impl From<Load> for IRStatement {
    fn from(statement: Load) -> (r: IRStatement) {
        IRStatement::Load(statement)
    }
}

impl FromSpecImpl<Load> for IRStatement {
    open spec fn obeys_from_spec() -> bool {
        true
    }

    open spec fn from_spec(statement: Load) -> IRStatement {
        IRStatement::Load(statement)
    }
}

impl From<BinaryCalculate> for IRStatement {
    fn from(statement: BinaryCalculate) -> (r: IRStatement) {
        IRStatement::BinaryCalculate(statement)
    }
}

impl FromSpecImpl<BinaryCalculate> for IRStatement {
    open spec fn obeys_from_spec() -> bool {
        true
    }

    open spec fn from_spec(statement: BinaryCalculate) -> IRStatement {
        IRStatement::BinaryCalculate(statement)
    }
}

impl From<Jump> for IRStatement {
    fn from(statement: Jump) -> (r: IRStatement) {
        IRStatement::Jump(statement)
    }
}

impl FromSpecImpl<Jump> for IRStatement {
    open spec fn obeys_from_spec() -> bool {
        true
    }

    open spec fn from_spec(statement: Jump) -> IRStatement {
        IRStatement::Jump(statement)
    }
}

impl From<Ret> for IRStatement {
    fn from(statement: Ret) -> (r: IRStatement) {
        IRStatement::Ret(statement)
    }
}

impl FromSpecImpl<Ret> for IRStatement {
    open spec fn obeys_from_spec() -> bool {
        true
    }

    open spec fn from_spec(statement: Ret) -> IRStatement {
        IRStatement::Ret(statement)
    }
}

impl IRStatement {
    /// The store that this statement is.
    pub fn as_store(&self) -> (r: &Store)
        requires
            self@ is Store,
        ensures
            *self == IRStatement::Store(*r),
    {
        match self {
            IRStatement::Store(s) => s,
            _ => vstd::pervasive::unreached(),
        }
    }

    /// The load that this statement is.
    pub fn as_load(&self) -> (r: &Load)
        requires
            self@ is Load,
        ensures
            *self == IRStatement::Load(*r),
    {
        match self {
            IRStatement::Load(s) => s,
            _ => vstd::pervasive::unreached(),
        }
    }

    /// Whether the statement involves `register` in the way `role` names.
    pub fn involves(&self, role: Role, register: &RegisterName) -> (r: bool)
        ensures
            r == self@.involves(role, register@),
    {
        match role {
            Role::Allocation => match self {
                IRStatement::Alloca(s) => s.to.same_as(register),
                _ => false,
            },
            Role::StoreTarget => match self {
                IRStatement::Store(s) => s.target.is_register(register),
                _ => false,
            },
            Role::LoadSource => match self {
                IRStatement::Load(s) => s.from.is_register(register),
                _ => false,
            },
            Role::Escape => match self {
                IRStatement::Store(s) => s.source.is_register(register),
                IRStatement::BinaryCalculate(s) => s.operand1.is_register(register)
                    || s.operand2.is_register(register),
                IRStatement::Ret(s) => match &s.value {
                    Some(v) => v.is_register(register),
                    None => false,
                },
                _ => false,
            },
        }
    }

    /// Replaces every use of `from` among the operands by `to`.
    pub fn on_register_change(&mut self, from: &RegisterName, to: &Quantity)
        ensures
            final(self)@ == old(self)@.rename(from@, to@),
    {
        match self {
            IRStatement::Alloca(_) => {},
            IRStatement::Store(s) => {
                s.on_register_change(from, to);
            },
            IRStatement::Load(s) => {
                s.on_register_change(from, to);
            },
            IRStatement::BinaryCalculate(s) => {
                s.on_register_change(from, to);
            },
            IRStatement::Jump(_) => {},
            IRStatement::Ret(s) => {
                s.on_register_change(from, to);
            },
        }
    }
}

} // verus!

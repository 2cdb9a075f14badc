//! Registers and the operands built from them.
use vstd::prelude::*;
use vstd::std_specs::convert::FromSpecImpl;
use crate::utility::text::{integer_text, push_integer};

verus! {

/// The name of a register: an opaque identifier of a value or an address.
///
/// Two names denote the same register when they are spelled alike, so the
/// model of a name is its sequence of characters.
#[derive(Debug, PartialEq, Eq, Hash)]
pub struct RegisterName(pub String);

impl View for RegisterName {
    type V = Seq<char>;

    open spec fn view(&self) -> Seq<char> {
        self.0@
    }
}

impl Clone for RegisterName {
    fn clone(&self) -> (r: Self)
        ensures
            r == *self,
    {
        RegisterName(self.0.clone())
    }
}

impl RegisterName {
    /// Whether both names denote the same register.
    pub fn same_as(&self, other: &RegisterName) -> (r: bool)
        ensures
            r == (self@ == other@),
    {
        self.0 == other.0
    }
}

/// The model of a [`Quantity`].
pub enum QuantityView {
    /// A use of the register spelled so.
    Register(Seq<char>),
    /// An immediate constant.
    Number(int),
}

impl QuantityView {
    /// The operand as it is written in a description: the name of the
    /// register, or the constant in decimal.
    pub open spec fn text(self) -> Seq<char> {
        match self {
            QuantityView::Register(name) => name,
            QuantityView::Number(n) => integer_text(n),
        }
    }

    /// The operand after every use of `from` has been replaced by `to`.
    pub open spec fn rename(self, from: Seq<char>, to: QuantityView) -> QuantityView {
        if self == QuantityView::Register(from) {
            to
        } else {
            self
        }
    }
}

/// An operand: a use of a register, or an immediate constant.
#[derive(Debug, PartialEq, Eq, Hash)]
pub enum Quantity {
    RegisterName(RegisterName),
    NumberLiteral(i64),
}

impl View for Quantity {
    type V = QuantityView;

    open spec fn view(&self) -> QuantityView {
        match self {
            Quantity::RegisterName(name) => QuantityView::Register(name@),
            Quantity::NumberLiteral(n) => QuantityView::Number(*n as int),
        }
    }
}

impl Clone for Quantity {
    fn clone(&self) -> (r: Self)
        ensures
            r == *self,
    {
        match self {
            Quantity::RegisterName(name) => Quantity::RegisterName(name.clone()),
            Quantity::NumberLiteral(n) => Quantity::NumberLiteral(*n),
        }
    }
}

impl From<RegisterName> for Quantity {
    fn from(name: RegisterName) -> (r: Quantity) {
        Quantity::RegisterName(name)
    }
}

impl FromSpecImpl<RegisterName> for Quantity {
    open spec fn obeys_from_spec() -> bool {
        true
    }

    open spec fn from_spec(name: RegisterName) -> Quantity {
        Quantity::RegisterName(name)
    }
}

impl From<i64> for Quantity {
    fn from(n: i64) -> (r: Quantity) {
        Quantity::NumberLiteral(n)
    }
}

impl FromSpecImpl<i64> for Quantity {
    open spec fn obeys_from_spec() -> bool {
        true
    }

    open spec fn from_spec(n: i64) -> Quantity {
        Quantity::NumberLiteral(n)
    }
}

impl Quantity {
    /// Whether this operand is a use of `name`.
    pub fn is_register(&self, name: &RegisterName) -> (r: bool)
        ensures
            r == (self@ == QuantityView::Register(name@)),
    {
        match self {
            Quantity::RegisterName(own) => own.same_as(name),
            Quantity::NumberLiteral(_) => false,
        }
    }

    /// The operand as it is written in a description: the name of the
    /// register, or the constant in decimal.
    pub fn to_string(&self) -> (r: String)
        ensures
            r@ == self@.text(),
    {
        match self {
            Quantity::RegisterName(name) => name.0.clone(),
            Quantity::NumberLiteral(n) => {
                let mut text = String::new();
                push_integer(&mut text, *n);
                assert(text@ =~= integer_text(*n as int));
                text
            },
        }
    }

    /// Replaces this operand by `to` if it is a use of `from`.
    pub fn on_register_change(&mut self, from: &RegisterName, to: &Quantity)
        ensures
            final(self)@ == old(self)@.rename(from@, to@),
    {
        if self.is_register(from) {
            *self = to.clone();
        }
    }
}

} // verus!

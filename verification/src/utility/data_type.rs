//! The types that values of the intermediate representation can have.
use vstd::prelude::*;

verus! {

/// An integer type of a given signedness and width in bits.
#[derive(Clone, Copy, Debug, PartialEq, Eq, Structural, Hash)]
pub struct Integer {
    pub signed: bool,
    pub width: usize,
}

/// The type of a value.
#[derive(Clone, Copy, Debug, PartialEq, Eq, Structural, Hash)]
pub enum Type {
    /// A machine integer.
    Integer(Integer),
    /// The address of a stack slot.
    Address,
    /// No value at all, as for a function that returns nothing.
    Unit,
}

impl Type {
    /// The signed integer type of `width` bits.
    pub fn signed(width: usize) -> (r: Type)
        ensures
            r == Type::Integer(Integer { signed: true, width }),
    {
        Type::Integer(Integer { signed: true, width })
    }

    /// The unsigned integer type of `width` bits.
    pub fn unsigned(width: usize) -> (r: Type)
        ensures
            r == Type::Integer(Integer { signed: false, width }),
    {
        Type::Integer(Integer { signed: false, width })
    }
}

} // verus!

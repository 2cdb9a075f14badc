//! The intermediate representation and what works on it.
pub mod analyzer;
pub mod function;
pub mod optimize;
pub mod quantity;
pub mod statement;

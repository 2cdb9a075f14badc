//! The optimization core of a compiler backend: a register-based
//! intermediate representation, read-only analyses over it, and rewrite
//! passes that hand back batches of mutations.
pub mod ir;
pub mod utility;

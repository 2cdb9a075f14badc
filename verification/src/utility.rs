//! Pieces shared by the front end and the intermediate representation.
pub mod data_type;
pub mod parsing;
pub mod text;

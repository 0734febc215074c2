//! What holds of the library as a whole, beyond the contracts of single
//! functions.

pub mod accepted_assertions;
pub mod accepted_signatures;
pub mod assertion;
pub mod configurations;
pub mod identities;
pub mod resolution;
pub mod signature;
pub mod text;
pub mod tree;

//! Objects and identifiers that know the repository they belong to.

pub mod object;
pub mod oid;

pub use object::{Object, ObjectRef, TreeRef};
pub use oid::Oid;

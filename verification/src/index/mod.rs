//! The pack index: a sorted table from object identifiers to offsets into a
//! pack data file.

pub mod file;
pub mod layout;
pub mod lookup;

pub use file::{Entry, Error, File};
pub use layout::Kind;

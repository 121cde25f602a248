//! Walking the ancestry of commits.

pub mod ancestors;
pub mod laws;
pub mod model;
pub mod state;

pub use ancestors::Ancestors;
pub use model::{Error, Parents, Sorting};
pub use state::State;

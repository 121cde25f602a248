//! Lookup across several object databases, each with loose objects and packs.

pub mod find;
pub mod model;

pub use model::{Backend, Bundle, Decoded, Entry, Location, Never, PackLocation, Store, Version};

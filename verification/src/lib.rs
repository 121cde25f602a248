//! Read access to a content-addressed object store: the pack index codec,
//! lookup across several object databases, and the traversal of commit
//! ancestry.

pub mod bytes;
pub mod commit;
pub mod easy;
pub mod explode;
pub mod hash;
pub mod index;
pub mod object;
pub mod release;
pub mod store;
pub mod tag;
pub mod text;
pub mod traverse;
pub mod workspace;

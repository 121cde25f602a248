//! Objects as the store hands them out.

use vstd::prelude::*;

verus! {

/// The four kinds of object.
#[derive(PartialEq, Eq, Debug, Hash, Clone, Copy, Structural)]
pub enum Kind {
    Tree,
    Blob,
    Commit,
    Tag,
}

/// An object read from the store: its kind and its bytes.
#[derive(Debug)]
pub struct Data {
    pub kind: Kind,
    pub data: Vec<u8>,
}

impl Data {
    /// An object of `kind` with the bytes `data`.
    pub fn new(kind: Kind, data: Vec<u8>) -> (r: Data)
        ensures
            r.kind == kind,
            r.data == data,
    {
        Data { kind, data }
    }

    /// The bytes of the object if it is a commit, for a traversal to read.
    pub fn try_into_commit_bytes(self) -> (r: Option<Vec<u8>>)
        ensures
            r == if self.kind == Kind::Commit {
                Some(self.data)
            } else {
                None
            },
    {
        match self.kind {
            Kind::Commit => Some(self.data),
            _ => None,
        }
    }
}

} // verus!

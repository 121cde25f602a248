//! Objects with and without a handle to their repository.

use crate::commit::{commit_tokens, tokens, Token};
use crate::hash::ObjectId;
use crate::object::Kind;
use crate::store::Store;
use crate::tag::{tag_tokens, tokens as tokens_of_tag, Token as TagToken};
use git_object::decode::Error as DecodeError;
use vstd::prelude::*;
use vstd::slice::slice_to_vec;

verus! {

/// What stands for the loose objects of a database: the directory that holds
/// them.
#[derive(Debug)]
pub struct LooseDb {
    pub path: String,
}

/// What stands for a pack data file: its path.
#[derive(Debug)]
pub struct PackFile {
    pub path: String,
}

/// Access to the objects of a repository.
pub struct Handle {
    pub objects: Store<LooseDb, PackFile>,
}

/// An object on its own, with its data.
#[derive(Debug)]
pub struct Object {
    pub id: ObjectId,
    pub kind: Kind,
    pub data: Vec<u8>,
}

/// An object together with the repository it was read from.
pub struct ObjectRef<'repo> {
    pub id: ObjectId,
    pub kind: Kind,
    pub data: Vec<u8>,
    pub handle: &'repo Handle,
}

/// A tree together with the repository it was read from.
pub struct TreeRef<'repo> {
    pub id: ObjectId,
    pub data: Vec<u8>,
    pub handle: &'repo Handle,
}

impl Object {
    /// Gives the object a handle to a repository.
    pub fn attach(self, handle: &Handle) -> (r: ObjectRef<'_>)
        ensures
            r.id == self.id,
            r.kind == self.kind,
            r.data == self.data,
            r.handle == handle,
    {
        ObjectRef { id: self.id, kind: self.kind, data: self.data, handle }
    }
}

impl<'repo> ObjectRef<'repo> {
    /// The object as a tree. The object must be a tree.
    pub fn into_tree(self) -> (r: TreeRef<'repo>)
        requires
            self.kind == Kind::Tree,
        ensures
            r.id == self.id,
            r.data == self.data,
            r.handle == self.handle,
    {
        TreeRef { id: self.id, data: self.data, handle: self.handle }
    }

    /// The object as a tree, or the object itself if it is no tree.
    pub fn try_into_tree(self) -> (r: Result<TreeRef<'repo>, Self>)
        ensures
            match r {
                Ok(tree) => {
                    &&& self.kind == Kind::Tree
                    &&& tree.id == self.id
                    &&& tree.data == self.data
                    &&& tree.handle == self.handle
                },
                Err(this) => self.kind != Kind::Tree && this == self,
            },
    {
        match self.kind {
            Kind::Tree => Ok(TreeRef { id: self.id, data: self.data, handle: self.handle }),
            _ => Err(self),
        }
    }

    /// A copy of the object without the handle.
    pub fn to_owned(&self) -> (r: Object)
        ensures
            r.id == self.id,
            r.kind == self.kind,
            r.data@ == self.data@,
    {
        Object { id: self.id, kind: self.kind, data: slice_to_vec(self.data.as_slice()) }
    }

    /// The object without the handle.
    pub fn into_owned(self) -> (r: Object)
        ensures
            r.id == self.id,
            r.kind == self.kind,
            r.data@ == self.data@,
    {
        Object { id: self.id, kind: self.kind, data: self.data }
    }

    /// Cuts the tie to the repository.
    pub fn detach(self) -> (r: Object)
        ensures
            r.id == self.id,
            r.kind == self.kind,
            r.data@ == self.data@,
    {
        self.into_owned()
    }

    /// The tokens of the commit. The object must be a commit.
    pub fn to_commit_iter(&self) -> (r: Vec<Result<Token, DecodeError>>)
        requires
            self.kind == Kind::Commit,
        ensures
            r@ == commit_tokens(self.data@),
    {
        tokens(self.data.as_slice())
    }

    /// The tokens of the tag. The object must be a tag.
    pub fn to_tag_iter(&self) -> (r: Vec<Result<TagToken, DecodeError>>)
        requires
            self.kind == Kind::Tag,
        ensures
            r@ == tag_tokens(self.data@),
    {
        tokens_of_tag(self.data.as_slice())
    }

    /// The tokens of the tag, if the object is one.
    pub fn try_to_tag_iter(&self) -> (r: Option<Vec<Result<TagToken, DecodeError>>>)
        ensures
            match r {
                Some(tokens) => self.kind == Kind::Tag && tokens@ == tag_tokens(self.data@),
                None => self.kind != Kind::Tag,
            },
    {
        match self.kind {
            Kind::Tag => Some(tokens_of_tag(self.data.as_slice())),
            _ => None,
        }
    }

    /// The tokens of the commit, if the object is one.
    pub fn try_to_commit_iter(&self) -> (r: Option<Vec<Result<Token, DecodeError>>>)
        ensures
            match r {
                Some(tokens) => self.kind == Kind::Commit && tokens@ == commit_tokens(self.data@),
                None => self.kind != Kind::Commit,
            },
    {
        match self.kind {
            Kind::Commit => Some(tokens(self.data.as_slice())),
            _ => None,
        }
    }
}

} // verus!

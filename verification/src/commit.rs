//! Commits as the traversal reads them: a sequence of tokens.

use crate::hash::ObjectId;
use git_object::commit::ref_iter::Token as RawToken;
use git_object::decode::Error as DecodeError;
use git_hash::ObjectId as RawId;
use git_object::CommitRefIter;
use vstd::prelude::*;

verus! {

/// The error with which `git_object` gives up on a malformed object.
#[verifier::external_type_specification]
#[verifier::external_body]
pub struct ExDecodeError(DecodeError);

/// One field of a commit. A well-formed commit holds, in this order, its tree,
/// any number of parents, the author, the committer, and what else it states.
#[derive(Debug, Clone, Copy)]
pub enum Token {
    Tree { id: ObjectId },
    Parent { id: ObjectId },
    Author,
    /// The committer, with the time of the commit in seconds since the epoch.
    Committer { time: u32 },
    Encoding,
    ExtraHeader,
    Message,
}

/// The tokens that `git_object::CommitRefIter` reads from the bytes of a
/// commit, up to and including the first that cannot be read.
pub uninterp spec fn commit_tokens(data: Seq<u8>) -> Seq<Result<Token, DecodeError>>;

/// `git_object::CommitRefIter::from_bytes`, walked to its end: the tokens of
/// the commit in `data`, each as a `Token` of this library. What the tokens
/// are is the outside parser's business; this says only that the same bytes
/// give the same tokens.
#[verifier::external_body]
pub(crate) fn tokens(data: &[u8]) -> (r: Vec<Result<Token, DecodeError>>)
    ensures
        r@ == commit_tokens(data@),
{
    let mut out = Vec::new();
    for token in CommitRefIter::from_bytes(data) {
        out.push(match token {
            Ok(RawToken::Tree { id: RawId::Sha1(bytes) }) => Ok(Token::Tree { id: ObjectId { bytes } }),
            Ok(RawToken::Parent { id: RawId::Sha1(bytes) }) => Ok(Token::Parent { id: ObjectId { bytes } }),
            Ok(RawToken::Author { .. }) => Ok(Token::Author),
            Ok(RawToken::Committer { signature }) => Ok(Token::Committer { time: signature.time.seconds_since_unix_epoch }),
            Ok(RawToken::Encoding(_)) => Ok(Token::Encoding),
            Ok(RawToken::ExtraHeader(_)) => Ok(Token::ExtraHeader),
            Ok(RawToken::Message(_)) => Ok(Token::Message),
            Err(err) => Err(err),
        });
    }
    out
}

} // verus!

//! Tags as a sequence of tokens.

use crate::hash::ObjectId;
use git_hash::ObjectId as RawId;
use git_object::decode::Error as DecodeError;
use git_object::tag::ref_iter::Token as RawToken;
use git_object::TagRefIter;
use vstd::prelude::*;

verus! {

/// One field of a tag. A well-formed tag holds, in this order, its target,
/// the kind of the target, its name, its tagger if it has one, and its
/// message.
#[derive(Debug, Clone, Copy)]
pub enum Token {
    Target { id: ObjectId },
    TargetKind,
    Name,
    Tagger,
    Body,
}

/// The tokens that `git_object::TagRefIter` reads from the bytes of a tag, up
/// to and including the first that cannot be read.
pub uninterp spec fn tag_tokens(data: Seq<u8>) -> Seq<Result<Token, DecodeError>>;

/// `git_object::TagRefIter::from_bytes`, walked to its end: the tokens of the
/// tag in `data`, each as a `Token` of this library. What the tokens are is
/// the outside parser's business; this says only that the same bytes give the
/// same tokens.
#[verifier::external_body]
pub(crate) fn tokens(data: &[u8]) -> (r: Vec<Result<Token, DecodeError>>)
    ensures
        r@ == tag_tokens(data@),
{
    let mut out = Vec::new();
    for token in TagRefIter::from_bytes(data) {
        out.push(match token {
            Ok(RawToken::Target { id: RawId::Sha1(bytes) }) => Ok(Token::Target { id: ObjectId { bytes } }),
            Ok(RawToken::TargetKind(_)) => Ok(Token::TargetKind),
            Ok(RawToken::Name(_)) => Ok(Token::Name),
            Ok(RawToken::Tagger(_)) => Ok(Token::Tagger),
            Ok(RawToken::Body { .. }) => Ok(Token::Body),
            Err(err) => Err(err),
        });
    }
    out
}

} // verus!

//! Choices made when a pack is taken apart into loose objects.

use crate::hash::ObjectId;
use crate::object::Kind;
use vstd::prelude::*;
use vstd::string::StringExecFns;

verus! {

/// How much of a pack is checked while it is taken apart.
#[derive(PartialEq, Eq, Debug, Clone, Copy, Structural)]
pub enum SafetyCheck {
    SkipFileChecksumVerification,
    SkipFileAndObjectChecksumVerification,
    SkipFileAndObjectChecksumVerificationAndNoAbortOnDecodeError,
    All,
}

impl Default for SafetyCheck {
    fn default() -> (r: SafetyCheck)
        ensures
            r == SafetyCheck::All,
    {
        SafetyCheck::All
    }
}

/// What is asked of a pack that is taken apart.
#[derive(Debug, Clone, Copy)]
pub struct Context {
    /// The number of threads to use at most; `None` leaves the choice open.
    pub thread_limit: Option<usize>,
    /// Whether to remove the pack once its objects are written.
    pub delete_pack: bool,
    /// Whether objects that are written nowhere are compressed all the same.
    pub sink_compress: bool,
    /// Whether each object is read back and checked once it is written.
    pub verify: bool,
    /// Whether the work was asked to stop.
    pub should_interrupt: bool,
}

impl Default for Context {
    fn default() -> (r: Context)
        ensures
            r.thread_limit is None,
            !r.delete_pack,
            !r.sink_compress,
            !r.verify,
            !r.should_interrupt,
    {
        Context {
            thread_limit: None,
            delete_pack: false,
            sink_compress: false,
            verify: false,
            should_interrupt: false,
        }
    }
}

/// How the objects of a pack are visited.
#[derive(PartialEq, Eq, Debug, Clone, Copy, Structural)]
pub enum Algorithm {
    /// Each object is looked up and decoded by itself.
    Lookup,
    /// The objects are decoded along the tree that their deltas form.
    DeltaTreeLookup,
}

/// What became of an object that was written out.
#[derive(PartialEq, Eq, Debug, Clone, Copy, Structural)]
pub enum Written {
    /// It was written under the identifier that the pack has for it.
    Unchanged,
    /// A tree was written under another identifier, which happens where
    /// outdated file modes are rewritten.
    TreeRewritten,
    /// An object other than a tree was written under another identifier.
    Mismatch,
}

/// What the name `s` stands for.
pub open spec fn spec_parse(s: Seq<char>) -> Option<SafetyCheck> {
    if s == "skip-file-checksum"@ {
        Some(SafetyCheck::SkipFileChecksumVerification)
    } else if s == "skip-file-and-object-checksum"@ {
        Some(SafetyCheck::SkipFileAndObjectChecksumVerification)
    } else if s == "skip-file-and-object-checksum-and-no-abort-on-decode"@ {
        Some(SafetyCheck::SkipFileAndObjectChecksumVerificationAndNoAbortOnDecodeError)
    } else if s == "all"@ {
        Some(SafetyCheck::All)
    } else {
        None
    }
}

impl SafetyCheck {
    /// The names of the checks, `all` first.
    pub fn variants() -> (r: [&'static str; 4])
        ensures
            r@[0]@ == "all"@,
            r@[1]@ == "skip-file-checksum"@,
            r@[2]@ == "skip-file-and-object-checksum"@,
            r@[3]@ == "skip-file-and-object-checksum-and-no-abort-on-decode"@,
    {
        [
            "all",
            "skip-file-checksum",
            "skip-file-and-object-checksum",
            "skip-file-and-object-checksum-and-no-abort-on-decode",
        ]
    }

    /// Reads the name of a check; any other text is an error that quotes it.
    pub fn parse(s: &str) -> (r: Result<SafetyCheck, String>)
        ensures
            match r {
                Ok(check) => spec_parse(s@) == Some(check),
                Err(msg) => spec_parse(s@) is None && msg@ == "Unknown value for safety check: '"@
                    + s@ + "'"@,
            },
    {
        let text = String::from_str(s);
        if text == String::from_str("skip-file-checksum") {
            Ok(SafetyCheck::SkipFileChecksumVerification)
        } else if text == String::from_str("skip-file-and-object-checksum") {
            Ok(SafetyCheck::SkipFileAndObjectChecksumVerification)
        } else if text == String::from_str("skip-file-and-object-checksum-and-no-abort-on-decode") {
            Ok(SafetyCheck::SkipFileAndObjectChecksumVerificationAndNoAbortOnDecodeError)
        } else if text == String::from_str("all") {
            Ok(SafetyCheck::All)
        } else {
            Err(String::from_str("Unknown value for safety check: '").concat(s).concat("'"))
        }
    }
}

impl std::str::FromStr for SafetyCheck {
    type Err = String;

    fn from_str(s: &str) -> (r: Result<Self, Self::Err>)
        ensures
            match r {
                Ok(check) => spec_parse(s@) == Some(check),
                Err(msg) => spec_parse(s@) is None && msg@ == "Unknown value for safety check: '"@
                    + s@ + "'"@,
            },
    {
        SafetyCheck::parse(s)
    }
}

/// How to visit the objects of a pack: along the tree of deltas only where
/// the objects are written nowhere and are not compressed either.
pub fn algorithm(writes_objects: bool, sink_compress: bool) -> (r: Algorithm)
    ensures
        r == if writes_objects || sink_compress {
            Algorithm::Lookup
        } else {
            Algorithm::DeltaTreeLookup
        },
{
    if writes_objects {
        Algorithm::Lookup
    } else if sink_compress {
        Algorithm::Lookup
    } else {
        Algorithm::DeltaTreeLookup
    }
}

/// Judges an object that was written out under `written` and is `expected`
/// in the pack: a tree may come out under another identifier, any other
/// object may not.
pub fn check_written(kind: Kind, expected: &ObjectId, written: &ObjectId) -> (r: Written)
    ensures
        r == if written@ == expected@ {
            Written::Unchanged
        } else if kind == Kind::Tree {
            Written::TreeRewritten
        } else {
            Written::Mismatch
        },
{
    if written == expected {
        Written::Unchanged
    } else {
        match kind {
            Kind::Tree => Written::TreeRewritten,
            _ => Written::Mismatch,
        }
    }
}

} // verus!

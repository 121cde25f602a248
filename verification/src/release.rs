//! Words and names used when releasing crates.

use vstd::prelude::*;
use vstd::string::StringExecFns;

verus! {

/// "WOULD" for a dry run, "Will" for a real one.
pub fn will(not_really: bool) -> (r: &'static str)
    ensures
        r@ == if not_really {
            "WOULD"@
        } else {
            "Will"@
        },
{
    if not_really {
        "WOULD"
    } else {
        "Will"
    }
}

/// The name of the tag for `version` of `package`, as `tag_name_for` gives it.
pub open spec fn spec_tag_name_for(package: Seq<char>, version: Seq<char>) -> Seq<char> {
    package + "-v"@ + version
}

/// The name of the tag for `version` of `package`: the version behind a "v",
/// with the package's name and a hyphen in front unless the workspace has
/// only that package.
pub fn tag_name(package: &str, version: &str, is_single_package_workspace: bool) -> (r: String)
    ensures
        r@ == if is_single_package_workspace {
            "v"@ + version@
        } else {
            spec_tag_name_for(package@, version@)
        },
{
    if is_single_package_workspace {
        String::from_str("v").concat(version)
    } else {
        tag_name_for(package, version)
    }
}

/// The name of the tag for `version` of `package` in a workspace of several
/// packages.
pub fn tag_name_for(package: &str, version: &str) -> (r: String)
    ensures
        r@ == spec_tag_name_for(package@, version@),
{
    String::from_str(package).concat("-v").concat(version)
}

/// How a release is to be made.
#[derive(Debug, Clone, Copy)]
pub struct Options {
    /// Only say what would be done.
    pub dry_run: bool,
    /// Release even with changes in the working tree.
    pub allow_dirty: bool,
}

/// A release that may be started: the crates to release, each after the
/// crates of the workspace that it depends on.
#[derive(Debug)]
pub struct Release {
    pub options: Options,
    pub version_bump_spec: String,
    pub crates: Vec<String>,
}

/// What `release` says where no crate was named.
pub open spec fn no_crates_message() -> Seq<char> {
    "Please provide at least one crate name which also is a workspace member"@
}

/// Takes the request for a release: at least one crate has to be named.
pub fn release(options: Options, version_bump_spec: String, crates: Vec<String>) -> (r: Result<
    Release,
    String,
>)
    ensures
        match r {
            Ok(release) => {
                &&& crates@.len() > 0
                &&& release.options == options
                &&& release.version_bump_spec == version_bump_spec
                &&& release.crates == crates
            },
            Err(msg) => crates@.len() == 0 && msg@ == no_crates_message(),
        },
{
    if crates.len() == 0 {
        return Err(
            String::from_str(
                "Please provide at least one crate name which also is a workspace member",
            ),
        );
    }
    Ok(Release { options, version_bump_spec, crates })
}

} // verus!

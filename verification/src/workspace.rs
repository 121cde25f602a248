//! Questions about the packages of a workspace.

use vstd::prelude::*;
use vstd::string::StringExecFns;

verus! {

/// A version number.
#[derive(Debug, Clone, Copy, PartialEq, Eq, Structural)]
pub struct Version {
    pub major: u64,
    pub minor: u64,
    pub patch: u64,
}

/// What a package says of a package it depends on.
#[derive(Debug)]
pub struct Dependency {
    pub name: String,
    /// Whether the package asks for certain versions of the dependency.
    pub has_version_requirement: bool,
}

/// A package as the workspace lists it.
#[derive(Debug)]
pub struct Package {
    pub name: String,
    pub id: String,
    pub dependencies: Vec<Dependency>,
}

/// The packages that a workspace knows, its own and those it depends on, and
/// the identifiers of its own.
#[derive(Debug)]
pub struct Metadata {
    pub packages: Vec<Package>,
    pub workspace_members: Vec<String>,
}

/// `packages[i]` is the first package with the name `name`.
pub open spec fn is_first_named(packages: Seq<Package>, name: Seq<char>, i: int) -> bool {
    &&& 0 <= i < packages.len()
    &&& packages[i].name@ == name
    &&& forall|j: int| 0 <= j < i ==> packages[j].name@ != name
}

/// `packages[i]` is the first package with the identifier `id`.
pub open spec fn is_first_with_id(packages: Seq<Package>, id: Seq<char>, i: int) -> bool {
    &&& 0 <= i < packages.len()
    &&& packages[i].id@ == id
    &&& forall|j: int| 0 <= j < i ==> packages[j].id@ != id
}

/// Some package has the name `name`.
pub open spec fn has_named(packages: Seq<Package>, name: Seq<char>) -> bool {
    exists|i: int| 0 <= i < packages.len() && (#[trigger] packages[i]).name@ == name
}

/// Some package has the identifier `id`.
pub open spec fn has_id(packages: Seq<Package>, id: Seq<char>) -> bool {
    exists|i: int| 0 <= i < packages.len() && (#[trigger] packages[i]).id@ == id
}

/// `id` is the identifier of a package of the workspace itself.
pub open spec fn is_member_id(members: Seq<String>, id: Seq<char>) -> bool {
    exists|i: int| 0 <= i < members.len() && (#[trigger] members[i])@ == id
}

/// What `package_by_name` says of a name that no package has.
pub open spec fn not_listed_message(name: Seq<char>) -> Seq<char> {
    "workspace member '"@ + name + "' must be a listed package"@
}

/// The names and versions of `publishees`, each as the name, " v" and the
/// version, with ", " between them.
pub open spec fn spec_names_and_versions(publishees: Seq<(&Package, String)>) -> Seq<char>
    decreases publishees.len(),
{
    if publishees.len() == 0 {
        Seq::empty()
    } else {
        let last = publishees.last();
        let item = last.0.name@ + " v"@ + last.1@;
        if publishees.len() == 1 {
            item
        } else {
            spec_names_and_versions(publishees.drop_last()) + ", "@ + item
        }
    }
}

/// Whether the version is one before the first major release.
pub fn is_pre_release_version(semver: &Version) -> (r: bool)
    ensures
        r == (semver.major == 0),
{
    semver.major == 0
}

/// Whether the package asks for certain versions of the dependency.
pub fn is_dependency_with_version_requirement(dep: &Dependency) -> (r: bool)
    ensures
        r == dep.has_version_requirement,
{
    dep.has_version_requirement
}

/// Whether `dependency` names `package`.
pub fn package_eq_dependency(package: &Package, dependency: &Dependency) -> (r: bool)
    ensures
        r == (package.name@ == dependency.name@),
{
    package.name == dependency.name
}

/// The first package with the name `name`.
fn first_named<'a>(meta: &'a Metadata, name: &String) -> (r: Option<&'a Package>)
    ensures
        match r {
            Some(package) => exists|i: int|
                #[trigger] is_first_named(meta.packages@, name@, i) && *package
                    == meta.packages@[i],
            None => !has_named(meta.packages@, name@),
        },
{
    let mut i: usize = 0;
    while i < meta.packages.len()
        invariant
            i <= meta.packages@.len(),
            forall|j: int| 0 <= j < i ==> meta.packages@[j].name@ != name@,
        decreases meta.packages@.len() - i,
    {
        if meta.packages[i].name == *name {
            assert(is_first_named(meta.packages@, name@, i as int));
            return Some(&meta.packages[i]);
        }
        i += 1;
    }
    None
}

/// The first package with the identifier `id`.
fn first_with_id<'a>(meta: &'a Metadata, id: &String) -> (r: Option<&'a Package>)
    ensures
        match r {
            Some(package) => exists|i: int|
                #[trigger] is_first_with_id(meta.packages@, id@, i) && *package
                    == meta.packages@[i],
            None => !has_id(meta.packages@, id@),
        },
{
    let mut i: usize = 0;
    while i < meta.packages.len()
        invariant
            i <= meta.packages@.len(),
            forall|j: int| 0 <= j < i ==> meta.packages@[j].id@ != id@,
        decreases meta.packages@.len() - i,
    {
        if meta.packages[i].id == *id {
            assert(is_first_with_id(meta.packages@, id@, i as int));
            return Some(&meta.packages[i]);
        }
        i += 1;
    }
    None
}

/// Whether `id` is the identifier of a package of the workspace itself.
fn is_member(meta: &Metadata, id: &String) -> (r: bool)
    ensures
        r == is_member_id(meta.workspace_members@, id@),
{
    let mut i: usize = 0;
    while i < meta.workspace_members.len()
        invariant
            i <= meta.workspace_members@.len(),
            forall|j: int| 0 <= j < i ==> meta.workspace_members@[j]@ != id@,
        decreases meta.workspace_members@.len() - i,
    {
        if meta.workspace_members[i] == *id {
            return true;
        }
        i += 1;
    }
    false
}

/// The first package with the name `crate_name`, if it belongs to the
/// workspace itself.
pub fn workspace_package_by_name<'a>(meta: &'a Metadata, crate_name: &str) -> (r: Option<
    &'a Package,
>)
    ensures
        match r {
            Some(package) => {
                &&& exists|i: int|
                    #[trigger] is_first_named(meta.packages@, crate_name@, i) && *package
                        == meta.packages@[i]
                &&& is_member_id(meta.workspace_members@, package.id@)
            },
            None => forall|i: int|
                #[trigger] is_first_named(meta.packages@, crate_name@, i) ==> !is_member_id(
                    meta.workspace_members@,
                    meta.packages@[i].id@,
                ),
        },
{
    let name = String::from_str(crate_name);
    match first_named(meta, &name) {
        Some(package) => {
            if is_member(meta, &package.id) {
                Some(package)
            } else {
                proof {
                    let k = choose|k: int|
                        #[trigger] is_first_named(meta.packages@, crate_name@, k) && *package
                            == meta.packages@[k];
                    assert forall|i: int| #[trigger]
                        is_first_named(meta.packages@, crate_name@, i) implies i == k by {}
                }
                None
            }
        },
        None => None,
    }
}

/// The first package with the identifier `id`, if it belongs to the workspace
/// itself.
pub fn workspace_package_by_id<'a>(meta: &'a Metadata, id: &String) -> (r: Option<&'a Package>)
    ensures
        match r {
            Some(package) => {
                &&& exists|i: int|
                    #[trigger] is_first_with_id(meta.packages@, id@, i) && *package
                        == meta.packages@[i]
                &&& is_member_id(meta.workspace_members@, id@)
            },
            None => !has_id(meta.packages@, id@) || !is_member_id(meta.workspace_members@, id@),
        },
{
    match first_with_id(meta, id) {
        Some(package) => {
            if is_member(meta, &package.id) {
                Some(package)
            } else {
                None
            }
        },
        None => None,
    }
}

/// Whether a package with the name `crate_name` belongs to the workspace
/// itself: the first package of that name decides.
pub fn is_workspace_member(meta: &Metadata, crate_name: &str) -> (r: bool)
    ensures
        r == exists|i: int|
            #[trigger] is_first_named(meta.packages@, crate_name@, i) && is_member_id(
                meta.workspace_members@,
                meta.packages@[i].id@,
            ),
{
    workspace_package_by_name(meta, crate_name).is_some()
}

/// The first package with the name `name`, or an error that names it.
pub fn package_by_name<'a>(meta: &'a Metadata, name: &str) -> (r: Result<&'a Package, String>)
    ensures
        match r {
            Ok(package) => exists|i: int|
                #[trigger] is_first_named(meta.packages@, name@, i) && *package
                    == meta.packages@[i],
            Err(msg) => !has_named(meta.packages@, name@) && msg@ == not_listed_message(name@),
        },
{
    match first_named(meta, &String::from_str(name)) {
        Some(package) => Ok(package),
        None => Err(
            String::from_str("workspace member '").concat(name).concat(
                "' must be a listed package",
            ),
        ),
    }
}

/// The first package that `dep` names. There has to be one.
pub fn package_for_dependency<'a>(meta: &'a Metadata, dep: &Dependency) -> (r: &'a Package)
    requires
        has_named(meta.packages@, dep.name@),
    ensures
        exists|i: int|
            #[trigger] is_first_named(meta.packages@, dep.name@, i) && *r == meta.packages@[i],
{
    let n: usize = meta.packages.len();
    let mut i: usize = 0;
    loop
        invariant
            n == meta.packages@.len(),
            i <= meta.packages@.len(),
            has_named(meta.packages@, dep.name@),
            forall|j: int| 0 <= j < i ==> meta.packages@[j].name@ != dep.name@,
        decreases meta.packages@.len() - i,
    {
        proof {
            let k = choose|k: int|
                0 <= k < meta.packages@.len() && (#[trigger] meta.packages@[k]).name@
                    == dep.name@;
            assert(i <= k);
        }
        if meta.packages[i].name == dep.name {
            assert(is_first_named(meta.packages@, dep.name@, i as int));
            return &meta.packages[i];
        }
        i += 1;
    }
}

/// The first package with the identifier `id`. There has to be one.
pub fn package_by_id<'a>(meta: &'a Metadata, id: &String) -> (r: &'a Package)
    requires
        has_id(meta.packages@, id@),
    ensures
        exists|i: int|
            #[trigger] is_first_with_id(meta.packages@, id@, i) && *r == meta.packages@[i],
{
    let n: usize = meta.packages.len();
    let mut i: usize = 0;
    loop
        invariant
            n == meta.packages@.len(),
            i <= meta.packages@.len(),
            has_id(meta.packages@, id@),
            forall|j: int| 0 <= j < i ==> meta.packages@[j].id@ != id@,
        decreases meta.packages@.len() - i,
    {
        proof {
            let k = choose|k: int|
                0 <= k < meta.packages@.len() && (#[trigger] meta.packages@[k]).id@ == id@;
            assert(i <= k);
        }
        if meta.packages[i].id == *id {
            assert(is_first_with_id(meta.packages@, id@, i as int));
            return &meta.packages[i];
        }
        i += 1;
    }
}

/// The names and versions of the packages to publish, for a message.
pub fn names_and_versions(publishees: &Vec<(&Package, String)>) -> (r: String)
    ensures
        r@ == spec_names_and_versions(publishees@),
{
    let mut out = String::new();
    let mut i: usize = 0;
    while i < publishees.len()
        invariant
            i <= publishees@.len(),
            out@ == spec_names_and_versions(publishees@.take(i as int)),
        decreases publishees@.len() - i,
    {
        let ghost before = out@;
        if i > 0 {
            out.append(", ");
        }
        out.append(publishees[i].0.name.as_str());
        out.append(" v");
        out.append(publishees[i].1.as_str());
        proof {
            let now = publishees@.take(i + 1);
            assert(now.drop_last() =~= publishees@.take(i as int));
            assert(now.last() == publishees@[i as int]);
            let item = publishees@[i as int].0.name@ + " v"@ + publishees@[i as int].1@;
            if i == 0 {
                assert(before =~= Seq::<char>::empty());
                assert(out@ =~= item);
            } else {
                assert(out@ =~= before + ", "@ + item);
            }
        }
        i += 1;
    }
    assert(publishees@.take(i as int) =~= publishees@);
    out
}

} // verus!

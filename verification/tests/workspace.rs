use objstore::workspace::{
    is_dependency_with_version_requirement, is_pre_release_version, is_workspace_member,
    names_and_versions, package_by_id, package_by_name, package_eq_dependency,
    package_for_dependency, workspace_package_by_id, workspace_package_by_name, Dependency,
    Metadata, Package, Version,
};

fn dep(name: &str, has_version_requirement: bool) -> Dependency {
    Dependency { name: name.to_string(), has_version_requirement }
}

fn package(name: &str, id: &str, dependencies: Vec<Dependency>) -> Package {
    Package { name: name.to_string(), id: id.to_string(), dependencies }
}

fn meta() -> Metadata {
    Metadata {
        packages: vec![
            package("git-odb", "git-odb 0.21", vec![dep("git-hash", true), dep("serde", true)]),
            package("serde", "serde 1.0", Vec::new()),
            package("git-hash", "git-hash 0.6", Vec::new()),
            package("git-hash", "git-hash 0.5 (registry)", Vec::new()),
            package("shadowed", "shadowed 1 (registry)", Vec::new()),
            package("shadowed", "shadowed 2", Vec::new()),
        ],
        workspace_members: vec![
            "git-odb 0.21".to_string(),
            "git-hash 0.6".to_string(),
            "shadowed 2".to_string(),
        ],
    }
}

#[test]
fn versions_before_one_are_pre_releases() {
    assert!(is_pre_release_version(&Version { major: 0, minor: 9, patch: 1 }));
    assert!(!is_pre_release_version(&Version { major: 1, minor: 0, patch: 0 }));
}

#[test]
fn dependencies_tell_their_requirement_and_their_package() {
    assert!(is_dependency_with_version_requirement(&dep("a", true)));
    assert!(!is_dependency_with_version_requirement(&dep("a", false)));
    let meta = meta();
    assert!(package_eq_dependency(&meta.packages[0], &dep("git-odb", false)));
    assert!(!package_eq_dependency(&meta.packages[0], &dep("git-hash", false)));
}

#[test]
fn the_first_package_of_a_name_decides_membership() {
    let meta = meta();
    assert!(is_workspace_member(&meta, "git-odb"));
    assert!(is_workspace_member(&meta, "git-hash"));
    assert!(!is_workspace_member(&meta, "serde"));
    assert!(!is_workspace_member(&meta, "shadowed"));
    assert!(!is_workspace_member(&meta, "unknown"));
    assert_eq!(workspace_package_by_name(&meta, "git-hash").unwrap().id, "git-hash 0.6");
    assert!(workspace_package_by_name(&meta, "shadowed").is_none());
    assert!(workspace_package_by_name(&meta, "serde").is_none());
}

#[test]
fn packages_are_found_by_id() {
    let meta = meta();
    assert_eq!(
        workspace_package_by_id(&meta, &"shadowed 2".to_string()).unwrap().name,
        "shadowed"
    );
    assert!(workspace_package_by_id(&meta, &"serde 1.0".to_string()).is_none());
    assert!(workspace_package_by_id(&meta, &"unknown".to_string()).is_none());
    assert_eq!(package_by_id(&meta, &"serde 1.0".to_string()).name, "serde");
    assert_eq!(package_by_id(&meta, &"git-hash 0.5 (registry)".to_string()).name, "git-hash");
}

#[test]
fn packages_are_found_by_name() {
    let meta = meta();
    assert_eq!(package_by_name(&meta, "git-hash").unwrap().id, "git-hash 0.6");
    assert_eq!(
        package_by_name(&meta, "nope").unwrap_err(),
        "workspace member 'nope' must be a listed package"
    );
    assert_eq!(package_for_dependency(&meta, &dep("serde", true)).id, "serde 1.0");
    assert_eq!(package_for_dependency(&meta, &dep("shadowed", true)).id, "shadowed 1 (registry)");
}

#[test]
fn names_and_versions_are_joined_by_commas() {
    let meta = meta();
    assert_eq!(names_and_versions(&Vec::new()), "");
    assert_eq!(
        names_and_versions(&vec![(&meta.packages[0], "0.22.0".to_string())]),
        "git-odb v0.22.0"
    );
    assert_eq!(
        names_and_versions(&vec![
            (&meta.packages[0], "0.22.0".to_string()),
            (&meta.packages[2], "0.7.0".to_string()),
            (&meta.packages[1], "1.0.1".to_string()),
        ]),
        "git-odb v0.22.0, git-hash v0.7.0, serde v1.0.1"
    );
}

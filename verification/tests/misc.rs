use objstore::easy::object::{Handle, LooseDb, PackFile};
use objstore::easy::oid::ExistingError;
use objstore::easy::{Object, ObjectRef, Oid};
use objstore::explode::{algorithm, check_written, Algorithm, Context, SafetyCheck, Written};
use objstore::hash::ObjectId;
use objstore::object::{Data, Kind};
use objstore::release::{release, tag_name, tag_name_for, will, Options};
use objstore::store::{Bundle, Decoded, Never, Store};
use objstore::text::decimal;

fn empty_handle() -> Handle {
    Handle { objects: Store::new(Vec::new()) }
}

fn id(n: u8) -> ObjectId {
    ObjectId { bytes: [n; 20] }
}

#[test]
fn size_of_oid() {
    assert_eq!(
        std::mem::size_of::<Oid<'_>>(),
        32,
        "size of oid shouldn't change without notice"
    )
}

#[test]
fn will_tells_dry_runs_apart() {
    assert_eq!(will(true), "WOULD");
    assert_eq!(will(false), "Will");
}

#[test]
fn tag_names_carry_the_package_unless_it_is_alone() {
    assert_eq!(tag_name("git-odb", "0.21.0", false), "git-odb-v0.21.0");
    assert_eq!(tag_name("git-odb", "0.21.0", true), "v0.21.0");
    assert_eq!(tag_name_for("git-odb", "0.21.0"), "git-odb-v0.21.0");
    assert_eq!(tag_name("", "", false), "-v");
}

#[test]
fn decimal_writes_numbers() {
    assert_eq!(decimal(0), "0");
    assert_eq!(decimal(7), "7");
    assert_eq!(decimal(10), "10");
    assert_eq!(decimal(1063), "1063");
    assert_eq!(decimal(u64::MAX), "18446744073709551615");
}

#[test]
fn safety_check_names_parse() {
    assert_eq!(
        SafetyCheck::variants(),
        [
            "all",
            "skip-file-checksum",
            "skip-file-and-object-checksum",
            "skip-file-and-object-checksum-and-no-abort-on-decode"
        ]
    );
    assert_eq!("all".parse::<SafetyCheck>(), Ok(SafetyCheck::All));
    assert_eq!(
        "skip-file-checksum".parse::<SafetyCheck>(),
        Ok(SafetyCheck::SkipFileChecksumVerification)
    );
    assert_eq!(
        SafetyCheck::parse("skip-file-and-object-checksum"),
        Ok(SafetyCheck::SkipFileAndObjectChecksumVerification)
    );
    assert_eq!(
        SafetyCheck::parse("skip-file-and-object-checksum-and-no-abort-on-decode"),
        Ok(SafetyCheck::SkipFileAndObjectChecksumVerificationAndNoAbortOnDecodeError)
    );
    assert_eq!(
        SafetyCheck::parse("none"),
        Err("Unknown value for safety check: 'none'".to_string())
    );
    assert_eq!(SafetyCheck::default(), SafetyCheck::All);
    for name in SafetyCheck::variants() {
        assert!(SafetyCheck::parse(name).is_ok());
    }
}

#[test]
fn context_defaults_to_nothing_asked() {
    let ctx = Context::default();
    assert_eq!(ctx.thread_limit, None);
    assert!(!ctx.delete_pack && !ctx.sink_compress && !ctx.verify && !ctx.should_interrupt);
}

#[test]
fn the_delta_tree_is_walked_only_without_output_and_compression() {
    assert_eq!(algorithm(true, false), Algorithm::Lookup);
    assert_eq!(algorithm(true, true), Algorithm::Lookup);
    assert_eq!(algorithm(false, true), Algorithm::Lookup);
    assert_eq!(algorithm(false, false), Algorithm::DeltaTreeLookup);
}

#[test]
fn only_trees_may_be_written_under_another_id() {
    assert_eq!(check_written(Kind::Blob, &id(1), &id(1)), Written::Unchanged);
    assert_eq!(check_written(Kind::Tree, &id(1), &id(1)), Written::Unchanged);
    assert_eq!(check_written(Kind::Tree, &id(1), &id(2)), Written::TreeRewritten);
    assert_eq!(check_written(Kind::Blob, &id(1), &id(2)), Written::Mismatch);
    assert_eq!(check_written(Kind::Commit, &id(1), &id(2)), Written::Mismatch);
    assert_eq!(check_written(Kind::Tag, &id(1), &id(2)), Written::Mismatch);
}

#[test]
fn objects_attach_and_detach() {
    let handle = empty_handle();
    let object = Object { id: id(3), kind: Kind::Blob, data: vec![1, 2, 3] };
    let attached: ObjectRef<'_> = object.attach(&handle);
    assert_eq!(attached.id, id(3));
    assert_eq!(attached.kind, Kind::Blob);
    assert_eq!(attached.data, vec![1, 2, 3]);
    let copy = attached.to_owned();
    assert_eq!((copy.id, copy.kind, copy.data), (id(3), Kind::Blob, vec![1, 2, 3]));
    let owned = attached.into_owned();
    assert_eq!((owned.id, owned.kind, &owned.data), (id(3), Kind::Blob, &vec![1, 2, 3]));
    let detached = owned.attach(&handle).detach();
    assert_eq!((detached.id, detached.kind, detached.data), (id(3), Kind::Blob, vec![1, 2, 3]));
}

#[test]
fn only_trees_turn_into_trees() {
    let handle = empty_handle();
    let tree = Object { id: id(4), kind: Kind::Tree, data: vec![9] }.attach(&handle);
    let tree = tree.into_tree();
    assert_eq!((tree.id, tree.data), (id(4), vec![9]));
    let tree = Object { id: id(4), kind: Kind::Tree, data: vec![9] }.attach(&handle);
    assert!(tree.try_into_tree().is_ok());
    let blob = Object { id: id(5), kind: Kind::Blob, data: vec![8] }.attach(&handle);
    match blob.try_into_tree() {
        Err(this) => assert_eq!((this.id, this.kind, this.data), (id(5), Kind::Blob, vec![8])),
        Ok(_) => panic!("a blob is no tree"),
    }
}

#[test]
fn only_commits_have_commit_tokens() {
    let handle = empty_handle();
    let blob = Object { id: id(5), kind: Kind::Blob, data: vec![8] }.attach(&handle);
    assert!(blob.try_to_commit_iter().is_none());
    let data = format!("tree {}\n", "ab".repeat(20)).into_bytes();
    let commit = Object { id: id(6), kind: Kind::Commit, data }.attach(&handle);
    let tokens = commit.try_to_commit_iter().unwrap();
    assert_eq!(tokens.len(), commit.to_commit_iter().len());
    assert!(matches!(
        tokens[0],
        Ok(objstore::commit::Token::Tree { id }) if id == ObjectId { bytes: [0xab; 20] }
    ));
}

#[test]
fn commit_data_hands_out_its_bytes() {
    assert_eq!(Data::new(Kind::Commit, vec![1, 2]).try_into_commit_bytes(), Some(vec![1, 2]));
    assert_eq!(Data::new(Kind::Tree, vec![1, 2]).try_into_commit_bytes(), None);
    assert_eq!(Data::new(Kind::Blob, vec![]).try_into_commit_bytes(), None);
    assert_eq!(Data::new(Kind::Tag, vec![0]).try_into_commit_bytes(), None);
}

#[test]
fn oids_find_their_objects() {
    let handle = Handle {
        objects: Store::new(vec![objstore::store::Backend {
            loose: LooseDb { path: "objects".to_string() },
            bundles: Vec::<Bundle<PackFile>>::new(),
        }]),
    };
    let contains = |db: &LooseDb, i: &ObjectId| db.path == "objects" && *i == id(1);
    let find = |_: &LooseDb, i: &ObjectId, mut buf: Vec<u8>| -> Result<Option<Data>, String> {
        if *i == id(1) {
            buf.extend_from_slice(b"hello");
            Ok(Some(Data { kind: Kind::Blob, data: buf }))
        } else {
            Ok(None)
        }
    };
    let decode = |_: &Bundle<PackFile>, _: u64, _: Vec<u8>, _: &Never| -> Result<Decoded, String> {
        Err("no packs here".to_string())
    };
    let oid = Oid::from_id(id(1), &handle);
    let object = oid.try_object(&contains, &find, &decode).unwrap().unwrap();
    assert_eq!((object.id, object.kind, object.data), (id(1), Kind::Blob, b"hello".to_vec()));
    let object = oid.object(&contains, &find, &decode).unwrap();
    assert_eq!(object.data, b"hello".to_vec());
    assert_eq!(Oid::from_id(id(1), &handle).detach(), id(1));

    let missing = Oid::from_id(id(2), &handle);
    assert!(missing.try_object(&contains, &find, &decode).unwrap().is_none());
    match missing.object(&contains, &find, &decode) {
        Err(ExistingError::NotFound { oid }) => assert_eq!(oid, id(2)),
        _ => panic!("expected the object to be missing"),
    }
    let failing = |_: &LooseDb, _: &ObjectId, _: Vec<u8>| -> Result<Option<Data>, String> {
        Err("unreadable".to_string())
    };
    match oid.object(&contains, &failing, &decode) {
        Err(ExistingError::Find(err)) => assert_eq!(err, "unreadable"),
        _ => panic!("expected the lookup to fail"),
    }
}

#[test]
fn a_release_needs_a_crate() {
    let options = Options { dry_run: true, allow_dirty: false };
    assert_eq!(
        release(options, "patch".to_string(), Vec::new()).unwrap_err(),
        "Please provide at least one crate name which also is a workspace member"
    );
    let request = release(options, "minor".to_string(), vec!["git-odb".to_string()]).unwrap();
    assert_eq!(request.crates, vec!["git-odb".to_string()]);
    assert_eq!(request.version_bump_spec, "minor");
    assert!(request.options.dry_run && !request.options.allow_dirty);
}

#[test]
fn oids_are_equal_if_their_ids_are() {
    let handle = empty_handle();
    let other = empty_handle();
    assert!(Oid::from_id(id(1), &handle) == Oid::from_id(id(1), &other));
    assert!(Oid::from_id(id(1), &handle) != Oid::from_id(id(2), &handle));
    assert_eq!(ObjectId::from(Oid::from_id(id(7), &handle)), id(7));
    assert!(Oid::from_id(id(1), &handle) < Oid::from_id(id(2), &other));
    assert_eq!(
        Oid::from_id(id(3), &handle).partial_cmp(&Oid::from_id(id(3), &other)),
        Some(std::cmp::Ordering::Equal)
    );
}

#[test]
fn the_ancestors_of_an_oid_are_found_in_its_repository() {
    fn commit(parents: &[ObjectId]) -> Vec<u8> {
        let mut out = format!("tree {}\n", "00".repeat(20));
        for parent in parents {
            let hex: String = parent.bytes.iter().map(|b| format!("{:02x}", b)).collect();
            out.push_str(&format!("parent {}\n", hex));
        }
        out.push_str("author A <a@example.com> 1 +0000\ncommitter C <c@example.com> 2 +0000\n\nm\n");
        out.into_bytes()
    }
    let objects = vec![
        (id(1), Kind::Commit, commit(&[])),
        (id(2), Kind::Commit, commit(&[id(1)])),
        (id(3), Kind::Commit, commit(&[id(2), id(9)])),
        (id(9), Kind::Blob, b"no commit".to_vec()),
    ];
    let handle = Handle {
        objects: Store::new(vec![objstore::store::Backend {
            loose: LooseDb { path: "objects".to_string() },
            bundles: Vec::<Bundle<PackFile>>::new(),
        }]),
    };
    let table = &objects;
    let contains = move |_: &LooseDb, i: &ObjectId| table.iter().any(|o| o.0 == *i);
    let find = move |_: &LooseDb, i: &ObjectId, mut buf: Vec<u8>| -> Result<Option<Data>, String> {
        Ok(table.iter().find(|o| o.0 == *i).map(|o| {
            buf.clear();
            buf.extend_from_slice(&o.2);
            Data { kind: o.1, data: buf }
        }))
    };
    let decode = |_: &Bundle<PackFile>, _: u64, _: Vec<u8>, _: &Never| -> Result<Decoded, String> {
        Err("no packs here".to_string())
    };

    let mut start = Oid::from_id(id(2), &handle).ancestors();
    let mut walk = start.all(contains, find, decode);
    assert!(walk.next().unwrap().unwrap() == Oid::from_id(id(2), &handle));
    assert_eq!(walk.next().unwrap().unwrap().detach(), id(1));
    assert!(walk.next().is_none());
    assert!(start.all(contains, find, decode).next().is_none());

    let mut start = Oid::from_id(id(3), &handle).ancestors();
    let mut walk = start.all(contains, find, decode);
    let mut seen = Vec::new();
    while let Some(item) = walk.next() {
        seen.push(item.map(|oid| oid.detach()));
    }
    assert_eq!(seen.len(), 4);
    assert_eq!(*seen[0].as_ref().unwrap(), id(3));
    assert_eq!(*seen[1].as_ref().unwrap(), id(2));
    assert!(matches!(seen[2], Err(objstore::traverse::Error::NotFound { oid }) if oid == id(9)));
    assert_eq!(*seen[3].as_ref().unwrap(), id(1));
}

#[test]
fn only_tags_have_tag_tokens() {
    let handle = empty_handle();
    let blob = Object { id: id(5), kind: Kind::Blob, data: vec![8] }.attach(&handle);
    assert!(blob.try_to_tag_iter().is_none());
    let data = format!(
        "object {}\ntype commit\ntag v1\ntagger T <t@example.com> 5 +0000\n\nmessage\n",
        "cd".repeat(20)
    )
    .into_bytes();
    let tag = Object { id: id(6), kind: Kind::Tag, data }.attach(&handle);
    let tokens = tag.try_to_tag_iter().unwrap();
    assert_eq!(tokens.len(), 5);
    assert_eq!(tag.to_tag_iter().len(), 5);
    assert!(matches!(
        tokens[0],
        Ok(objstore::tag::Token::Target { id }) if id == ObjectId { bytes: [0xcd; 20] }
    ));
    assert!(matches!(tokens[1], Ok(objstore::tag::Token::TargetKind)));
    assert!(matches!(tokens[2], Ok(objstore::tag::Token::Name)));
    assert!(matches!(tokens[3], Ok(objstore::tag::Token::Tagger)));
    assert!(matches!(tokens[4], Ok(objstore::tag::Token::Body)));

    let broken = Object { id: id(7), kind: Kind::Tag, data: b"no tag".to_vec() }.attach(&handle);
    let tokens = broken.to_tag_iter();
    assert_eq!(tokens.len(), 1);
    assert!(tokens[0].is_err());
}

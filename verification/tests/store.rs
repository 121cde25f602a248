use objstore::hash::ObjectId;
use objstore::index::File;
use objstore::object::{Data, Kind};
use objstore::store::find::Found;
use objstore::store::{
    Backend, Bundle, Decoded, Location, Never, PackLocation, Store, Version,
};

fn id(first: u8, last: u8) -> ObjectId {
    let mut bytes = [0u8; 20];
    bytes[0] = first;
    bytes[19] = last;
    ObjectId { bytes }
}

fn index(entries: &[(ObjectId, u32, u32)]) -> File {
    let mut out = vec![0xff, b't', b'O', b'c', 0, 0, 0, 2];
    for b in 0..256usize {
        let n = entries.iter().filter(|e| (e.0.bytes[0] as usize) <= b).count() as u32;
        out.extend_from_slice(&n.to_be_bytes());
    }
    for e in entries {
        out.extend_from_slice(&e.0.bytes);
    }
    for e in entries {
        out.extend_from_slice(&e.2.to_be_bytes());
    }
    for e in entries {
        out.extend_from_slice(&e.1.to_be_bytes());
    }
    out.extend_from_slice(&[0u8; 40]);
    File::at(out).unwrap()
}

/// What stands for a pack data file in these tests: its bytes.
type Pack = Vec<u8>;

/// What stands for the loose objects of a database: the objects themselves.
type Loose = Vec<(ObjectId, Vec<u8>)>;

fn store() -> Store<Loose, Pack> {
    Store::new(vec![
        Backend {
            loose: vec![(id(9, 1), b"loose one".to_vec())],
            bundles: vec![
                Bundle {
                    index: index(&[(id(1, 1), 10, 0xa1), (id(1, 2), 20, 0xa2)]),
                    pack: (0..100u8).collect(),
                    id: 7,
                },
                Bundle { index: index(&[(id(2, 1), 30, 0xb1)]), pack: (100..200u8).collect(), id: 8 },
            ],
        },
        Backend {
            loose: vec![(id(1, 1), b"shadowed".to_vec()), (id(9, 2), b"loose two".to_vec())],
            bundles: vec![Bundle {
                index: index(&[(id(2, 1), 40, 0xc1), (id(3, 1), 50, 0xc2)]),
                pack: (0..60u8).collect(),
                id: 8,
            }],
        },
    ])
}

fn loose_contains(db: &Loose, id: &ObjectId) -> bool {
    db.iter().any(|(at, _)| at == id)
}

fn loose_find(db: &Loose, id: &ObjectId, mut buf: Vec<u8>) -> Result<Option<Data>, String> {
    Ok(db.iter().find(|(at, _)| at == id).map(|(_, data)| {
        buf.clear();
        buf.extend_from_slice(data);
        Data { kind: Kind::Blob, data: buf }
    }))
}

/// A cache that counts how often it is handed to the decoding.
type Counter = std::cell::Cell<usize>;

fn decode_counted(
    bundle: &Bundle<Pack>,
    pack_offset: u64,
    buf: Vec<u8>,
    cache: &Counter,
) -> Result<Decoded, String> {
    cache.set(cache.get() + 1);
    decode(bundle, pack_offset, buf, &Never)
}

fn decode(
    bundle: &Bundle<Pack>,
    pack_offset: u64,
    mut buf: Vec<u8>,
    _: &Never,
) -> Result<Decoded, String> {
    match bundle.pack.get(pack_offset as usize) {
        Some(byte) => {
            buf.clear();
            buf.push(*byte);
            Ok(Decoded { kind: Kind::Tree, data: buf, entry_size: 10 })
        }
        None => Err(format!("pack {} has no entry at {}", bundle.id, pack_offset)),
    }
}

fn measure(bundle: &Bundle<Pack>, pack_offset: u64, mut buf: Vec<u8>) -> (Vec<u8>, Option<usize>) {
    buf.clear();
    buf.push(bundle.id as u8);
    let size = if (pack_offset as usize) < bundle.pack.len() { Some(pack_offset as usize + 1) } else { None };
    (buf, size)
}

fn slice(bundle: &Bundle<Pack>, start: u64, end: u64) -> Option<(Vec<u8>, Version)> {
    bundle.pack.get(start as usize..end as usize).map(|data| (data.to_vec(), Version::V2))
}

#[test]
fn packs_of_a_database_are_looked_through_in_order() {
    let store = store();
    let db = &store.dbs[0];
    assert_eq!(db.find_packed(&id(1, 2)), Some(PackLocation { bundle_index: 0, entry_index: 1 }));
    assert_eq!(db.find_packed(&id(2, 1)), Some(PackLocation { bundle_index: 1, entry_index: 0 }));
    assert_eq!(db.find_packed(&id(3, 1)), None);
    assert_eq!(db.find_packed(&id(9, 1)), None);
}

#[test]
fn the_first_database_with_the_object_wins() {
    let store = store();
    assert!(matches!(
        store.locate(&id(1, 1), &loose_contains),
        Found::Packed { db: 0, at: PackLocation { bundle_index: 0, entry_index: 0 } }
    ));
    assert!(matches!(
        store.locate(&id(2, 1), &loose_contains),
        Found::Packed { db: 0, at: PackLocation { bundle_index: 1, entry_index: 0 } }
    ));
    assert!(matches!(
        store.locate(&id(3, 1), &loose_contains),
        Found::Packed { db: 1, at: PackLocation { bundle_index: 0, entry_index: 1 } }
    ));
    assert!(matches!(store.locate(&id(9, 1), &loose_contains), Found::Loose { db: 0 }));
    assert!(matches!(store.locate(&id(9, 2), &loose_contains), Found::Loose { db: 1 }));
    assert!(matches!(store.locate(&id(9, 3), &loose_contains), Found::Absent));
}

#[test]
fn contains_agrees_with_find() {
    let store = store();
    for first in 0..12u8 {
        for last in 0..4u8 {
            let id = id(first, last);
            let found = store
                .try_find_cached(&id, Vec::new(), &Never, &loose_contains, &loose_find, &decode)
                .unwrap();
            assert_eq!(store.contains(&id, &loose_contains), found.is_some());
            let plain =
                store.try_find(&id, Vec::new(), &loose_contains, &loose_find, &decode).unwrap();
            assert_eq!(plain.is_some(), found.is_some());
        }
    }
    assert!(store.contains(&id(1, 1), &loose_contains));
    assert!(store.contains(&id(9, 2), &loose_contains));
    assert!(!store.contains(&id(9, 3), &loose_contains));
}

#[test]
fn packed_objects_come_with_their_location() {
    let store = store();
    let (data, location) = store
        .try_find_cached(&id(1, 2), vec![1, 2, 3], &Never, &loose_contains, &loose_find, &decode)
        .unwrap()
        .unwrap();
    assert_eq!((data.kind, data.data), (Kind::Tree, vec![20]));
    assert_eq!(
        location,
        Some(Location { pack_id: 7, pack_offset: 20, index_file_id: 1, entry_size: 10 })
    );
    let (data, location) = store
        .try_find_cached(&id(3, 1), Vec::new(), &Never, &loose_contains, &loose_find, &decode)
        .unwrap()
        .unwrap();
    assert_eq!(data.data, vec![50]);
    assert_eq!(
        location,
        Some(Location { pack_id: 8, pack_offset: 50, index_file_id: 1, entry_size: 10 })
    );
}

#[test]
fn loose_objects_come_without_a_location() {
    let store = store();
    let (data, location) = store
        .try_find_cached(&id(9, 2), Vec::new(), &Never, &loose_contains, &loose_find, &decode)
        .unwrap()
        .unwrap();
    assert_eq!((data.kind, data.data), (Kind::Blob, b"loose two".to_vec()));
    assert_eq!(location, None);
    let data = store
        .try_find(&id(9, 1), Vec::new(), &loose_contains, &loose_find, &decode)
        .unwrap()
        .unwrap();
    assert_eq!(data.data, b"loose one".to_vec());
}

#[test]
fn absence_is_no_error_but_a_failed_decoding_is() {
    let store = store();
    let found =
        store.try_find_cached(&id(9, 3), Vec::new(), &Never, &loose_contains, &loose_find, &decode);
    assert!(matches!(found, Ok(None)));
    let failing = |_: &Bundle<Pack>, _: u64, _: Vec<u8>, _: &Never| -> Result<Decoded, String> {
        Err("corrupt pack".to_string())
    };
    let found = store.try_find_cached(
        &id(1, 1),
        Vec::new(),
        &Never,
        &loose_contains,
        &loose_find,
        &failing,
    );
    assert_eq!(found.unwrap_err(), "corrupt pack");
    let found = store.try_find(&id(1, 1), Vec::new(), &loose_contains, &loose_find, &failing);
    assert_eq!(found.unwrap_err(), "corrupt pack");
}

#[test]
fn only_packed_objects_have_a_location() {
    let store = store();
    let mut buf = vec![0u8; 4];
    assert_eq!(
        store.location_by_oid(&id(1, 2), &mut buf, &measure),
        Some(Location { pack_id: 7, pack_offset: 20, index_file_id: 1, entry_size: 21 })
    );
    assert_eq!(buf, vec![7]);
    assert_eq!(
        store.location_by_oid(&id(2, 1), &mut buf, &measure),
        Some(Location { pack_id: 8, pack_offset: 30, index_file_id: 0, entry_size: 31 })
    );
    let mut buf = vec![5u8];
    assert_eq!(store.location_by_oid(&id(9, 1), &mut buf, &measure), None);
    assert_eq!(buf, vec![5]);
    assert_eq!(store.location_by_oid(&id(9, 3), &mut buf, &measure), None);
    let unreadable = |_: &Bundle<Pack>, _: u64, buf: Vec<u8>| (buf, None);
    assert_eq!(store.location_by_oid(&id(1, 1), &mut buf, &unreadable), None);
}

#[test]
fn packs_are_found_by_their_id() {
    let store = store();
    assert_eq!(store.find_pack(7), Some((0, 0)));
    assert_eq!(store.find_pack(8), Some((0, 1)));
    assert_eq!(store.find_pack(9), None);
    let entries = store.index_iter_by_pack_id(8).unwrap();
    assert_eq!(entries.len(), 1);
    assert_eq!((entries[0].oid, entries[0].offset, entries[0].crc32), (id(2, 1), 30, Some(0xb1)));
    assert_eq!(store.index_iter_by_pack_id(7).unwrap().len(), 2);
    assert!(store.index_iter_by_pack_id(1).is_none());
}

#[test]
fn entries_are_sliced_out_of_their_pack() {
    let store = store();
    let location = Location { pack_id: 7, pack_offset: 0, index_file_id: 1, entry_size: 3 };
    let entry = store.entry_by_location(&location, &slice).unwrap();
    assert_eq!(entry.data, vec![20, 21, 22]);
    assert_eq!(entry.crc32, Some(0xa2));
    assert_eq!(entry.version, Version::V2);

    let location = Location { pack_id: 8, pack_offset: 0, index_file_id: 0, entry_size: 2 };
    let entry = store.entry_by_location(&location, &slice).unwrap();
    assert_eq!(entry.data, vec![130, 131]);
    assert_eq!(entry.crc32, Some(0xb1));
}

#[test]
fn entries_that_are_not_there_are_none() {
    let store = store();
    let unknown_pack = Location { pack_id: 1, pack_offset: 0, index_file_id: 0, entry_size: 3 };
    assert!(store.entry_by_location(&unknown_pack, &slice).is_none());
    let unknown_entry = Location { pack_id: 7, pack_offset: 0, index_file_id: 2, entry_size: 3 };
    assert!(store.entry_by_location(&unknown_entry, &slice).is_none());
    let too_long = Location { pack_id: 7, pack_offset: 0, index_file_id: 0, entry_size: 91 };
    assert!(store.entry_by_location(&too_long, &slice).is_none());
    let overflowing =
        Location { pack_id: 7, pack_offset: 0, index_file_id: 0, entry_size: usize::MAX };
    assert!(store.entry_by_location(&overflowing, &slice).is_none());
}

#[test]
fn entry_ranges_start_at_the_offset() {
    let location = Location { pack_id: 0, pack_offset: 0, index_file_id: 0, entry_size: 12 };
    assert_eq!(location.entry_range(30), Some((30, 42)));
    assert_eq!(location.entry_range(u64::MAX - 12), Some((u64::MAX - 12, u64::MAX)));
    assert_eq!(location.entry_range(u64::MAX - 11), None);
}

#[test]
fn an_empty_store_has_nothing() {
    let store: Store<Loose, Pack> = Store::new(Vec::new());
    assert!(!store.contains(&id(1, 1), &loose_contains));
    assert!(matches!(
        store.try_find(&id(1, 1), Vec::new(), &loose_contains, &loose_find, &decode),
        Ok(None)
    ));
    assert!(store.find_pack(0).is_none());
}

#[test]
fn the_cache_is_handed_to_the_decoding_of_packed_objects_only() {
    let store = store();
    let cache = Counter::new(0);
    let found = store
        .try_find_cached(&id(1, 1), Vec::new(), &cache, &loose_contains, &loose_find, &decode_counted)
        .unwrap();
    assert!(found.is_some());
    assert_eq!(cache.get(), 1);
    let found = store
        .try_find_cached(&id(9, 1), Vec::new(), &cache, &loose_contains, &loose_find, &decode_counted)
        .unwrap();
    assert!(found.is_some());
    assert_eq!(cache.get(), 1);
    let found = store
        .try_find_cached(&id(9, 3), Vec::new(), &cache, &loose_contains, &loose_find, &decode_counted)
        .unwrap();
    assert!(found.is_none());
    assert_eq!(cache.get(), 1);
}

use objstore::hash::{compare, ObjectId, Order};
use objstore::index::layout::{decode_offset, OffsetSlot};
use objstore::index::{Entry, Error, File, Kind};

fn oid(first: u8, last: u8) -> [u8; 20] {
    let mut bytes = [0u8; 20];
    bytes[0] = first;
    bytes[10] = 0xab;
    bytes[19] = last;
    bytes
}

fn fan_of(oids: &[[u8; 20]]) -> Vec<u8> {
    let mut out = Vec::new();
    for b in 0..256usize {
        let n = oids.iter().filter(|o| (o[0] as usize) <= b).count() as u32;
        out.extend_from_slice(&n.to_be_bytes());
    }
    out
}

fn footer() -> Vec<u8> {
    let mut out = vec![0x11u8; 20];
    out.extend_from_slice(&[0x22u8; 20]);
    out
}

fn v1_index(entries: &[([u8; 20], u32)]) -> Vec<u8> {
    let oids: Vec<[u8; 20]> = entries.iter().map(|e| e.0).collect();
    let mut out = fan_of(&oids);
    for (oid, offset) in entries {
        out.extend_from_slice(&offset.to_be_bytes());
        out.extend_from_slice(oid);
    }
    out.extend_from_slice(&footer());
    out
}

fn v2_index(entries: &[([u8; 20], u64, u32)]) -> Vec<u8> {
    let oids: Vec<[u8; 20]> = entries.iter().map(|e| e.0).collect();
    let mut out = vec![0xff, b't', b'O', b'c', 0, 0, 0, 2];
    out.extend_from_slice(&fan_of(&oids));
    for (oid, _, _) in entries {
        out.extend_from_slice(oid);
    }
    for (_, _, crc) in entries {
        out.extend_from_slice(&crc.to_be_bytes());
    }
    let mut large: Vec<u64> = Vec::new();
    for (_, offset, _) in entries {
        if *offset < 0x8000_0000 {
            out.extend_from_slice(&(*offset as u32).to_be_bytes());
        } else {
            out.extend_from_slice(&(0x8000_0000u32 | large.len() as u32).to_be_bytes());
            large.push(*offset);
        }
    }
    for offset in large {
        out.extend_from_slice(&offset.to_be_bytes());
    }
    out.extend_from_slice(&footer());
    out
}

fn corrupt_message(r: Result<File, Error>) -> String {
    match r {
        Err(Error::Corrupt(msg)) => msg,
        Err(Error::UnsupportedVersion(v)) => panic!("unsupported version {}", v),
        Ok(_) => panic!("the file was opened"),
    }
}

#[test]
fn empty_v1_index_opens() {
    let file = File::at(v1_index(&[])).unwrap();
    assert_eq!(file.kind(), Kind::V1);
    assert_eq!(file.version(), 1);
    assert_eq!(file.num_objects(), 0);
    assert!(file.iter().is_empty());
}

#[test]
fn empty_v2_index_opens() {
    let file = File::at(v2_index(&[])).unwrap();
    assert_eq!(file.kind(), Kind::V2);
    assert_eq!(file.version(), 2);
    assert_eq!(file.num_objects(), 0);
    assert!(file.iter().is_empty());
}

#[test]
fn default_kind_is_v2() {
    assert_eq!(Kind::default(), Kind::V2);
}

#[test]
fn v1_entries_come_in_stored_order_without_crc32() {
    let entries = [(oid(1, 1), 12u32), (oid(1, 2), 300), (oid(0xfe, 0), 0x7fff_ffff)];
    let file = File::at(v1_index(&entries)).unwrap();
    assert_eq!(file.num_objects(), 3);
    let got = file.iter();
    assert_eq!(got.len(), 3);
    for (i, (id, offset)) in entries.iter().enumerate() {
        assert_eq!(
            got[i],
            Entry { oid: ObjectId { bytes: *id }, offset: *offset as u64, crc32: None }
        );
    }
}

#[test]
fn v1_offsets_with_the_high_bit_are_taken_as_they_are() {
    let entries = [(oid(7, 7), 0x8000_0005u32)];
    let file = File::at(v1_index(&entries)).unwrap();
    assert_eq!(file.pack_offset_at_index(0), 0x8000_0005);
}

#[test]
fn v2_entries_come_in_stored_order_with_crc32() {
    let entries = [
        (oid(0, 1), 12u64, 0xdead_beefu32),
        (oid(0, 2), 0x7fff_ffff, 1),
        (oid(0x80, 0), 99, 2),
        (oid(0xff, 0xff), 100, 0xffff_ffff),
    ];
    let file = File::at(v2_index(&entries)).unwrap();
    assert_eq!(file.num_objects(), 4);
    let got = file.iter();
    assert_eq!(got.len(), 4);
    for (i, (id, offset, crc)) in entries.iter().enumerate() {
        assert_eq!(
            got[i],
            Entry { oid: ObjectId { bytes: *id }, offset: *offset, crc32: Some(*crc) }
        );
        assert_eq!(file.entry_at_index(i as u32), got[i]);
        assert_eq!(file.oid_at_index(i as u32), ObjectId { bytes: *id });
        assert_eq!(file.pack_offset_at_index(i as u32), *offset);
        assert_eq!(file.crc32_at_index(i as u32), Some(*crc));
    }
}

#[test]
fn iteration_strictly_increases_by_oid() {
    let entries = [
        (oid(0, 1), 1u64, 0u32),
        (oid(0, 2), 2, 0),
        (oid(3, 0), 3, 0),
        (oid(3, 9), 4, 0),
        (oid(200, 0), 5, 0),
    ];
    let got = File::at(v2_index(&entries)).unwrap().iter();
    assert_eq!(got.len(), entries.len());
    for pair in got.windows(2) {
        assert!(pair[0].oid.less_than(&pair[1].oid));
        assert!(!pair[1].oid.less_than(&pair[0].oid));
    }
}

#[test]
fn iteration_can_be_started_again() {
    let entries = [(oid(5, 5), 77u64, 3u32)];
    let file = File::at(v2_index(&entries)).unwrap();
    assert_eq!(file.iter(), file.iter());
    assert_eq!(file.iter().len(), 1);
}

#[test]
fn large_offsets_are_read_from_their_table() {
    let entries = [
        (oid(1, 0), 0x8000_0000u64, 10u32),
        (oid(2, 0), 5, 11),
        (oid(3, 0), 0x1234_5678_9abc_def0, 12),
        (oid(4, 0), u64::MAX, 13),
    ];
    let file = File::at(v2_index(&entries)).unwrap();
    assert_eq!(file.pack_offset_at_index(0), 0x8000_0000);
    assert_eq!(file.pack_offset_at_index(1), 5);
    assert_eq!(file.pack_offset_at_index(2), 0x1234_5678_9abc_def0);
    assert_eq!(file.pack_offset_at_index(3), u64::MAX);
    let offsets: Vec<u64> = file.iter().iter().map(|e| e.offset).collect();
    assert_eq!(offsets, vec![0x8000_0000, 5, 0x1234_5678_9abc_def0, u64::MAX]);
}

#[test]
fn stored_offsets_decode_to_direct_or_indirect() {
    assert_eq!(decode_offset(0), OffsetSlot::Direct(0));
    assert_eq!(decode_offset(0x7fff_ffff), OffsetSlot::Direct(0x7fff_ffff));
    assert_eq!(decode_offset(0x8000_0000), OffsetSlot::Indirect(0));
    assert_eq!(decode_offset(0x8000_0003), OffsetSlot::Indirect(3));
    assert_eq!(decode_offset(0xffff_ffff), OffsetSlot::Indirect(0x7fff_ffff));
}

#[test]
fn checksums_are_the_trailing_forty_bytes() {
    let file = File::at(v2_index(&[(oid(1, 1), 1, 1)])).unwrap();
    assert_eq!(file.checksum_of_pack(), ObjectId { bytes: [0x11; 20] });
    assert_eq!(file.checksum_of_index(), ObjectId { bytes: [0x22; 20] });
    let file = File::at(v1_index(&[])).unwrap();
    assert_eq!(file.checksum_of_pack(), ObjectId { bytes: [0x11; 20] });
    assert_eq!(file.checksum_of_index(), ObjectId { bytes: [0x22; 20] });
}

#[test]
fn fan_counts_first_bytes() {
    let entries = [(oid(0, 1), 1u64, 0u32), (oid(3, 0), 3, 0), (oid(3, 9), 4, 0)];
    let file = File::at(v2_index(&entries)).unwrap();
    assert_eq!(file.fan(0), 1);
    assert_eq!(file.fan(2), 1);
    assert_eq!(file.fan(3), 3);
    assert_eq!(file.fan(255), 3);
}

#[test]
fn every_entry_lies_in_the_bucket_of_its_first_byte() {
    let entries = [
        (oid(0, 1), 1u64, 0u32),
        (oid(0, 2), 2, 0),
        (oid(3, 0), 3, 0),
        (oid(3, 9), 4, 0),
        (oid(255, 0), 5, 0),
    ];
    let file = File::at(v2_index(&entries)).unwrap();
    for (i, e) in file.iter().iter().enumerate() {
        let first = e.oid.bytes[0];
        let start = if first == 0 { 0 } else { file.fan(first - 1) };
        assert!(start as usize <= i && i < file.fan(first) as usize);
    }
}

#[test]
fn lookup_finds_every_entry_and_nothing_else() {
    let entries = [
        (oid(0, 1), 1u64, 0u32),
        (oid(0, 2), 2, 0),
        (oid(3, 0), 3, 0),
        (oid(3, 9), 4, 0),
        (oid(255, 0), 5, 0),
    ];
    let file = File::at(v2_index(&entries)).unwrap();
    for (i, (id, _, _)) in entries.iter().enumerate() {
        assert_eq!(file.lookup(&ObjectId { bytes: *id }), Some(i as u32));
    }
    assert_eq!(file.lookup(&ObjectId { bytes: oid(0, 0) }), None);
    assert_eq!(file.lookup(&ObjectId { bytes: oid(0, 3) }), None);
    assert_eq!(file.lookup(&ObjectId { bytes: oid(3, 5) }), None);
    assert_eq!(file.lookup(&ObjectId { bytes: oid(100, 0) }), None);
    assert_eq!(file.lookup(&ObjectId { bytes: oid(255, 1) }), None);

    let v1 = [(oid(9, 1), 1u32), (oid(9, 2), 2)];
    let file = File::at(v1_index(&v1)).unwrap();
    assert_eq!(file.lookup(&ObjectId { bytes: oid(9, 2) }), Some(1));
    assert_eq!(file.lookup(&ObjectId { bytes: oid(9, 3) }), None);
}

#[test]
fn a_file_shorter_than_an_empty_index_is_corrupt() {
    assert_eq!(
        corrupt_message(File::at(vec![0u8; 1063])),
        "Pack index of size 1063 is too small for even an empty index"
    );
    assert_eq!(
        corrupt_message(File::at(Vec::new())),
        "Pack index of size 0 is too small for even an empty index"
    );
    assert!(File::at(vec![0u8; 1064]).is_ok());
}

#[test]
fn a_version_other_than_two_is_unsupported() {
    let mut data = v2_index(&[]);
    data[7] = 3;
    match File::at(data) {
        Err(err @ Error::UnsupportedVersion(3)) => {
            assert_eq!(err.message(), "Unsupported index version: 3")
        }
        _ => panic!("expected an unsupported version"),
    }
    let mut data = v2_index(&[]);
    data[4] = 1;
    data[7] = 0;
    assert!(matches!(File::at(data), Err(Error::UnsupportedVersion(0x0100_0000))));
}

#[test]
fn a_decreasing_fan_table_is_corrupt() {
    let mut data = v1_index(&[(oid(1, 1), 1)]);
    data[7] = 2;
    let msg = corrupt_message(File::at(data));
    assert_eq!(msg, "Pack index has a fan-out table that decreases");
    assert_eq!(Error::Corrupt(msg.clone()).message(), msg);
}

#[test]
fn a_file_too_short_for_its_objects_is_corrupt() {
    let mut data = v2_index(&[(oid(1, 1), 1, 1), (oid(2, 2), 2, 2)]);
    data.pop();
    assert_eq!(
        corrupt_message(File::at(data)),
        "Pack index is too small for the objects it counts"
    );
    let mut data = v1_index(&[(oid(1, 1), 1)]);
    data.truncate(1064);
    assert_eq!(
        corrupt_message(File::at(data)),
        "Pack index is too small for the objects it counts"
    );
}

#[test]
fn a_large_offset_outside_of_its_table_is_corrupt() {
    let mut data = v2_index(&[(oid(1, 1), 0x8000_0000, 1)]);
    let at = 1032 + 24;
    data[at..at + 4].copy_from_slice(&0x8000_0001u32.to_be_bytes());
    assert_eq!(
        corrupt_message(File::at(data)),
        "Pack index names a 64-bit offset outside of its table"
    );
}

#[test]
fn byte_strings_compare_bytewise() {
    assert_eq!(compare(&[1, 2, 3], &[1, 2, 3]), Order::Equal);
    assert_eq!(compare(&[1, 2, 3], &[1, 3, 0]), Order::Less);
    assert_eq!(compare(&[2, 0, 0], &[1, 255, 255]), Order::Greater);
    assert_eq!(compare(&[], &[]), Order::Equal);
}

#[test]
fn identifiers_have_keys_that_order_as_their_bytes() {
    let mut bytes = [0u8; 20];
    for (i, b) in bytes.iter_mut().enumerate() {
        *b = i as u8 + 1;
    }
    let id = ObjectId { bytes };
    assert_eq!(id.key(), (0x0102_0304_0506_0708, 0x090a_0b0c_0d0e_0f10, 0x1112_1314));
    assert_eq!(ObjectId::from_20_bytes(&bytes), id);
    assert_eq!(id.as_slice(), &bytes[..]);
    assert_eq!(ObjectId::null(), ObjectId { bytes: [0; 20] });
    assert!(ObjectId::null().less_than(&id));
    assert!(!id.less_than(&id));
    assert_ne!(id, ObjectId::null());
}

#[test]
fn validity_is_sorted_identifiers_and_a_counting_fan_table() {
    let sorted = [(oid(0, 1), 1u64, 0u32), (oid(0, 2), 2, 0), (oid(3, 0), 3, 0), (oid(255, 0), 4, 0)];
    assert!(File::at(v2_index(&sorted)).unwrap().is_valid());
    assert!(File::at(v2_index(&[])).unwrap().is_valid());
    assert!(File::at(v1_index(&[(oid(1, 1), 1), (oid(200, 0), 2)])).unwrap().is_valid());

    let unsorted = [(oid(0, 2), 1u64, 0u32), (oid(0, 1), 2, 0)];
    assert!(!File::at(v2_index(&unsorted)).unwrap().is_valid());
    let twice = [(oid(4, 4), 1u64, 0u32), (oid(4, 4), 2, 0)];
    assert!(!File::at(v2_index(&twice)).unwrap().is_valid());

    let mut miscounted = v2_index(&sorted);
    let at = 8 + 4 * 2 + 3;
    assert_eq!(miscounted[at], 2);
    miscounted[at] = 3;
    assert!(!File::at(miscounted).unwrap().is_valid());
    let mut miscounted = v2_index(&sorted);
    let at = 8 + 4 * 3 + 3;
    assert_eq!(miscounted[at], 3);
    miscounted[at] = 2;
    miscounted[at - 4] = 2;
    assert!(File::at(miscounted.clone()).is_ok());
    assert!(!File::at(miscounted).unwrap().is_valid());
}

#[test]
fn identifiers_are_ordered_bytewise() {
    let low = ObjectId { bytes: oid(1, 255) };
    let high = ObjectId { bytes: oid(2, 0) };
    assert!(low < high && high > low && low <= low && low >= low);
    assert_eq!(low.partial_cmp(&high), Some(std::cmp::Ordering::Less));
    assert_eq!(high.partial_cmp(&low), Some(std::cmp::Ordering::Greater));
    assert_eq!(low.partial_cmp(&low), Some(std::cmp::Ordering::Equal));
    assert_eq!(low.cmp(&high), std::cmp::Ordering::Less);
    let mut ids = vec![high, ObjectId::null(), low, ObjectId { bytes: [255; 20] }];
    ids.sort();
    assert_eq!(ids, vec![ObjectId::null(), low, high, ObjectId { bytes: [255; 20] }]);
    for pair in ids.windows(2) {
        assert!(pair[0].less_than(&pair[1]));
    }
}

//! The byte layout of a pack index, in both of its versions.
//!
//! A version 2 index starts with a signature and a version number; a version 1
//! index starts with the fan-out table at once. After the table of 256
//! big-endian counts come the entries and, at the very end, two checksums of
//! 20 bytes each.

use crate::bytes::{be_u32, be_u64};
use vstd::prelude::*;

verus! {

/// The two on-disk versions of a pack index.
#[derive(PartialEq, Eq, Debug, Hash, Clone, Copy, Structural)]
pub enum Kind {
    V1,
    V2,
}

impl Default for Kind {
    fn default() -> (r: Kind)
        ensures
            r == Kind::V2,
    {
        Kind::V2
    }
}

/// The smallest index there is: a fan-out table and the two checksums.
pub const MIN_SIZE: usize = 1064;

/// A 32-bit offset at or above this mark is an index into the table of 64-bit
/// offsets.
pub const HIGH_BIT: u32 = 0x8000_0000;

/// Whether `data` starts with the signature of version 2.
pub open spec fn is_v2(data: Seq<u8>) -> bool {
    &&& data.len() >= 4
    &&& data[0] == 0xff
    &&& data[1] == 0x74
    &&& data[2] == 0x4f
    &&& data[3] == 0x63
}

/// The version of the index in `data`, told by the signature.
pub open spec fn kind_of(data: Seq<u8>) -> Kind {
    if is_v2(data) {
        Kind::V2
    } else {
        Kind::V1
    }
}

/// Where the fan-out table starts.
pub open spec fn fan_start(kind: Kind) -> int {
    match kind {
        Kind::V1 => 0,
        Kind::V2 => 8,
    }
}

/// The version number that the file states; a version 1 index states none.
pub open spec fn version_of(data: Seq<u8>) -> u32 {
    match kind_of(data) {
        Kind::V1 => 1,
        Kind::V2 => be_u32(data.subrange(4, 8)),
    }
}

/// The count at `b` in the fan-out table.
pub open spec fn fan_at(data: Seq<u8>, b: int) -> u32 {
    let at = fan_start(kind_of(data)) + 4 * b;
    be_u32(data.subrange(at, at + 4))
}

/// The number of objects, which is the last count of the fan-out table.
pub open spec fn count(data: Seq<u8>) -> int {
    fan_at(data, 255) as int
}

/// The fan-out table never decreases.
pub open spec fn fan_monotone(data: Seq<u8>) -> bool {
    forall|b: int| 0 <= b < 255 ==> fan_at(data, b) <= #[trigger] fan_at(data, b + 1)
}

/// The length that the tables for all counted objects and the checksums need.
pub open spec fn needed_len(data: Seq<u8>) -> int {
    match kind_of(data) {
        Kind::V1 => 1024 + 24 * count(data) + 40,
        Kind::V2 => 1032 + 28 * count(data) + 40,
    }
}

/// Where the identifier of entry `i` starts.
pub open spec fn oid_pos(data: Seq<u8>, i: int) -> int {
    match kind_of(data) {
        Kind::V1 => 1024 + 24 * i + 4,
        Kind::V2 => 1032 + 20 * i,
    }
}

/// Where the 32-bit offset of entry `i` starts.
pub open spec fn offset_pos(data: Seq<u8>, i: int) -> int {
    match kind_of(data) {
        Kind::V1 => 1024 + 24 * i,
        Kind::V2 => 1032 + 24 * count(data) + 4 * i,
    }
}

/// Where the checksum of entry `i` starts in a version 2 index.
pub open spec fn crc32_pos(data: Seq<u8>, i: int) -> int {
    1032 + 20 * count(data) + 4 * i
}

/// Where slot `k` of the table of 64-bit offsets starts in a version 2 index.
pub open spec fn large_pos(data: Seq<u8>, k: int) -> int {
    1032 + 28 * count(data) + 8 * k
}

/// The identifier of entry `i`.
pub open spec fn oid_at(data: Seq<u8>, i: int) -> Seq<u8> {
    data.subrange(oid_pos(data, i), oid_pos(data, i) + 20)
}

/// The 32-bit offset field of entry `i`, as stored.
pub open spec fn raw_offset_at(data: Seq<u8>, i: int) -> u32 {
    be_u32(data.subrange(offset_pos(data, i), offset_pos(data, i) + 4))
}

/// What a stored 32-bit offset stands for.
#[derive(PartialEq, Eq, Debug, Clone, Copy, Structural)]
pub enum OffsetSlot {
    /// The offset itself.
    Direct(u32),
    /// The place of the offset in the table of 64-bit offsets.
    Indirect(u32),
}

/// Reads a stored 32-bit offset: with its highest bit set, the other 31 bits
/// are a place in the table of 64-bit offsets.
pub open spec fn spec_decode_offset(raw: u32) -> OffsetSlot {
    if raw >= HIGH_BIT {
        OffsetSlot::Indirect((raw - HIGH_BIT) as u32)
    } else {
        OffsetSlot::Direct(raw)
    }
}

/// Computes `spec_decode_offset`.
pub fn decode_offset(raw: u32) -> (r: OffsetSlot)
    ensures
        r == spec_decode_offset(raw),
{
    if raw >= HIGH_BIT {
        OffsetSlot::Indirect(raw - HIGH_BIT)
    } else {
        OffsetSlot::Direct(raw)
    }
}

/// The slot that entry `i` of a version 2 index names lies inside the table of
/// 64-bit offsets, before the checksums.
pub open spec fn large_in_range(data: Seq<u8>, i: int) -> bool {
    match spec_decode_offset(raw_offset_at(data, i)) {
        OffsetSlot::Direct(_) => true,
        OffsetSlot::Indirect(k) => large_pos(data, k as int) + 8 <= data.len() - 40,
    }
}

/// The pack offset of entry `i`.
pub open spec fn offset_at(data: Seq<u8>, i: int) -> u64 {
    let raw = raw_offset_at(data, i);
    match kind_of(data) {
        Kind::V1 => raw as u64,
        Kind::V2 => match spec_decode_offset(raw) {
            OffsetSlot::Direct(ofs) => ofs as u64,
            OffsetSlot::Indirect(k) => be_u64(
                data.subrange(large_pos(data, k as int), large_pos(data, k as int) + 8),
            ),
        },
    }
}

/// The checksum of entry `i`: only a version 2 index has one.
pub open spec fn crc32_at(data: Seq<u8>, i: int) -> Option<u32> {
    match kind_of(data) {
        Kind::V1 => None,
        Kind::V2 => Some(be_u32(data.subrange(crc32_pos(data, i), crc32_pos(data, i) + 4))),
    }
}

/// The file is long enough for even an empty index.
pub open spec fn long_enough(data: Seq<u8>) -> bool {
    data.len() >= MIN_SIZE
}

/// The file states a version that is understood.
pub open spec fn version_supported(data: Seq<u8>) -> bool {
    kind_of(data) == Kind::V2 ==> version_of(data) == 2
}

/// The tables hold what the fan-out table counts.
pub open spec fn tables_complete(data: Seq<u8>) -> bool {
    needed_len(data) <= data.len()
}

/// Every entry of a version 2 index that names a 64-bit offset names one that
/// is there.
pub open spec fn large_offsets_in_range(data: Seq<u8>) -> bool {
    kind_of(data) == Kind::V2 ==> forall|i: int|
        0 <= i < count(data) ==> #[trigger] large_in_range(data, i)
}

/// `data` holds a pack index whose every entry can be read.
pub open spec fn well_formed(data: Seq<u8>) -> bool {
    &&& long_enough(data)
    &&& version_supported(data)
    &&& fan_monotone(data)
    &&& tables_complete(data)
    &&& large_offsets_in_range(data)
}

} // verus!

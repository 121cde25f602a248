//! Opening a pack index and reading its entries.

use crate::bytes::{u32_at, u64_at};
use crate::hash::ObjectId;
use crate::index::layout::{
    count, crc32_at, decode_offset, fan_at, fan_monotone, fan_start, kind_of, large_in_range,
    long_enough, needed_len, offset_at, oid_at, tables_complete, version_of, version_supported,
    well_formed, Kind, OffsetSlot, MIN_SIZE,
};
use crate::text::{decimal, spec_decimal};
use vstd::prelude::*;
use vstd::slice::slice_subrange;
use vstd::string::StringExecFns;

verus! {

/// Why an index could not be opened.
#[derive(Debug)]
pub enum Error {
    /// The file breaks the layout of an index.
    Corrupt(String),
    /// The file states a version that is not understood.
    UnsupportedVersion(u32),
}

/// One object of a pack: its identifier, where it starts in the pack data
/// file, and the checksum of its packed bytes where the index holds one.
#[derive(PartialEq, Eq, Debug, Hash, Clone, Copy)]
pub struct Entry {
    pub oid: ObjectId,
    pub offset: u64,
    pub crc32: Option<u32>,
}

/// A pack index held in memory. It is never changed once opened.
pub struct File {
    data: Vec<u8>,
    kind: Kind,
    version: u32,
    num_objects: u32,
    fan: [u32; 256],
}

/// What `Error::Corrupt` says of a file of `len` bytes that is shorter than an
/// empty index.
pub open spec fn too_small_message(len: nat) -> Seq<char> {
    "Pack index of size "@ + spec_decimal(len) + " is too small for even an empty index"@
}

/// What `Error::Corrupt` says of `data`, which is not well formed though its
/// version is understood.
pub open spec fn corrupt_message(data: Seq<u8>) -> Seq<char> {
    if !long_enough(data) {
        too_small_message(data.len())
    } else if !fan_monotone(data) {
        "Pack index has a fan-out table that decreases"@
    } else if !tables_complete(data) {
        "Pack index is too small for the objects it counts"@
    } else {
        "Pack index names a 64-bit offset outside of its table"@
    }
}

/// `e` is entry `i` of the index in `data`.
pub open spec fn is_entry(data: Seq<u8>, i: int, e: Entry) -> bool {
    &&& e.oid@ == oid_at(data, i)
    &&& e.offset == offset_at(data, i)
    &&& e.crc32 == crc32_at(data, i)
}

impl Error {
    /// The error in words.
    pub open spec fn spec_message(&self) -> Seq<char> {
        match self {
            Error::Corrupt(msg) => msg@,
            Error::UnsupportedVersion(version) => "Unsupported index version: "@ + spec_decimal(
                *version as nat,
            ),
        }
    }

    /// The error in words.
    pub fn message(&self) -> (r: String)
        ensures
            r@ == self.spec_message(),
    {
        match self {
            Error::Corrupt(msg) => msg.clone(),
            Error::UnsupportedVersion(version) => {
                let number = decimal(*version as u64);
                String::from_str("Unsupported index version: ").concat(number.as_str())
            },
        }
    }
}

fn too_small(len: usize) -> (r: Error)
    ensures
        r matches Error::Corrupt(msg) && msg@ == too_small_message(len as nat),
{
    let number = decimal(len as u64);
    let msg = String::from_str("Pack index of size ").concat(number.as_str()).concat(
        " is too small for even an empty index",
    );
    Error::Corrupt(msg)
}

impl File {
    /// The bytes of the index file.
    pub closed spec fn bytes(&self) -> Seq<u8> {
        self.data@
    }

    /// The fields agree with the bytes, and the bytes are a well-formed index.
    pub closed spec fn wf(&self) -> bool {
        &&& well_formed(self.data@)
        &&& self.kind == kind_of(self.data@)
        &&& self.version == version_of(self.data@)
        &&& self.num_objects == count(self.data@)
        &&& forall|b: int| 0 <= b < 256 ==> self.fan@[b] == #[trigger] fan_at(self.data@, b)
    }

    #[verifier::type_invariant]
    pub(crate) open spec fn inv(self) -> bool {
        self.wf()
    }

    /// The version of the index format.
    pub closed spec fn spec_kind(&self) -> Kind {
        self.kind
    }

    /// The number of objects in the index.
    pub closed spec fn spec_num_objects(&self) -> u32 {
        self.num_objects
    }

    /// What a well-formed file's fields are, in terms of its bytes.
    pub proof fn lemma_wf(self)
        requires
            self.wf(),
        ensures
            well_formed(self.bytes()),
            self.spec_kind() == kind_of(self.bytes()),
            self.spec_num_objects() == count(self.bytes()),
    {
    }

    /// Opens the index held in `data`.
    ///
    /// The file must be long enough for an empty index, state a version that
    /// is understood, have a fan-out table that never decreases, hold the
    /// tables for as many objects as the table counts, and name only 64-bit
    /// offsets that are there.
    pub fn at(data: Vec<u8>) -> (r: Result<File, Error>)
        ensures
            r.is_ok() == well_formed(data@),
            match r {
                Ok(file) => file.wf() && file.bytes() == data@,
                Err(Error::UnsupportedVersion(version)) => {
                    &&& long_enough(data@)
                    &&& !version_supported(data@)
                    &&& version == version_of(data@)
                },
                Err(Error::Corrupt(msg)) => {
                    &&& long_enough(data@) ==> version_supported(data@)
                    &&& msg@ == corrupt_message(data@)
                },
            },
    {
        let len: usize = data.len();
        if len < MIN_SIZE {
            return Err(too_small(len));
        }
        let v2 = data[0] == 0xff && data[1] == 0x74 && data[2] == 0x4f && data[3] == 0x63;
        let kind = if v2 {
            Kind::V2
        } else {
            Kind::V1
        };
        let mut version: u32 = 1;
        let mut start: usize = 0;
        if v2 {
            version = u32_at(data.as_slice(), 4);
            if version != 2 {
                return Err(Error::UnsupportedVersion(version));
            }
            start = 8;
        }
        let fan = read_fan(data.as_slice(), start);
        let mut b: usize = 0;
        while b < 255
            invariant
                b <= 255,
                long_enough(data@),
                version_supported(data@),
                forall|j: int| 0 <= j < 256 ==> fan@[j] == #[trigger] fan_at(data@, j),
                forall|j: int| 0 <= j < b ==> fan_at(data@, j) <= #[trigger] fan_at(data@, j + 1),
            decreases 255 - b,
        {
            if fan[b] > fan[b + 1] {
                assert(fan_at(data@, b as int) > fan_at(data@, b as int + 1));
                return Err(
                    Error::Corrupt(
                        String::from_str("Pack index has a fan-out table that decreases"),
                    ),
                );
            }
            b += 1;
        }
        let num_objects: u32 = fan[255];
        let needed: u64 = if v2 {
            1032 + 28 * (num_objects as u64) + 40
        } else {
            1024 + 24 * (num_objects as u64) + 40
        };
        if (len as u64) < needed {
            return Err(
                Error::Corrupt(
                    String::from_str("Pack index is too small for the objects it counts"),
                ),
            );
        }
        if v2 {
            let base: usize = 1032 + 24 * (num_objects as usize);
            let large: usize = 1032 + 28 * (num_objects as usize);
            let mut i: u32 = 0;
            while i < num_objects
                invariant
                    i <= num_objects,
                    len == data@.len(),
                    long_enough(data@),
                    version_supported(data@),
                    fan_monotone(data@),
                    num_objects == count(data@),
                    kind_of(data@) == Kind::V2,
                    tables_complete(data@),
                    base == 1032 + 24 * num_objects,
                    large == 1032 + 28 * num_objects,
                    forall|j: int| 0 <= j < i ==> #[trigger] large_in_range(data@, j),
                decreases num_objects - i,
            {
                let raw = u32_at(data.as_slice(), base + 4 * (i as usize));
                match decode_offset(raw) {
                    OffsetSlot::Direct(_) => {},
                    OffsetSlot::Indirect(k) => {
                        if large as u64 + 8 * (k as u64) + 8 > (len as u64) - 40 {
                            assert(!large_in_range(data@, i as int));
                            return Err(
                                Error::Corrupt(
                                    String::from_str(
                                        "Pack index names a 64-bit offset outside of its table",
                                    ),
                                ),
                            );
                        }
                    },
                }
                i += 1;
            }
        }
        Ok(File { data, kind, version, num_objects, fan })
    }

    /// The version of the index format.
    pub fn kind(&self) -> (r: Kind)
        ensures
            r == self.spec_kind(),
            r == kind_of(self.bytes()),
    {
        proof {
            use_type_invariant(self);
        }
        self.kind
    }

    /// The number of objects in the index.
    pub fn num_objects(&self) -> (r: u32)
        ensures
            r == self.spec_num_objects(),
            r == count(self.bytes()),
    {
        proof {
            use_type_invariant(self);
        }
        self.num_objects
    }

    /// The version number of the index: 1 or 2.
    pub fn version(&self) -> (r: u32)
        ensures
            r == version_of(self.bytes()),
            r == match self.spec_kind() {
                Kind::V1 => 1u32,
                Kind::V2 => 2u32,
            },
    {
        proof {
            use_type_invariant(self);
        }
        self.version
    }

    /// The checksum of this index file: its last 20 bytes.
    pub fn checksum_of_index(&self) -> (r: ObjectId)
        ensures
            r@ == self.bytes().subrange(self.bytes().len() - 20, self.bytes().len() as int),
    {
        proof {
            use_type_invariant(self);
        }
        let len: usize = self.data.len();
        ObjectId::from_20_bytes(slice_subrange(self.data.as_slice(), len - 20, len))
    }

    /// The checksum of the pack data file that the index belongs to: the 20
    /// bytes before the index's own checksum.
    pub fn checksum_of_pack(&self) -> (r: ObjectId)
        ensures
            r@ == self.bytes().subrange(self.bytes().len() - 40, self.bytes().len() - 20),
    {
        proof {
            use_type_invariant(self);
        }
        let len: usize = self.data.len();
        ObjectId::from_20_bytes(slice_subrange(self.data.as_slice(), len - 40, len - 20))
    }

    /// The count at `first_byte` in the fan-out table: how many objects have
    /// an identifier that starts with that byte or a smaller one.
    pub fn fan(&self, first_byte: u8) -> (r: u32)
        ensures
            r == fan_at(self.bytes(), first_byte as int),
            r <= count(self.bytes()),
    {
        proof {
            use_type_invariant(self);
            lemma_fan_bounded(self.data@, first_byte as int);
        }
        self.fan[first_byte as usize]
    }

    /// The 20 bytes of the identifier of entry `index`, inside the file.
    pub(crate) fn oid_bytes_at_index(&self, index: u32) -> (r: &[u8])
        requires
            index < count(self.bytes()),
        ensures
            r@ == oid_at(self.bytes(), index as int),
            r@.len() == 20,
    {
        proof {
            use_type_invariant(self);
        }
        let len: usize = self.data.len();
        assert(needed_len(self.data@) <= len);
        let at: usize = match self.kind {
            Kind::V1 => 1024 + 24 * (index as usize) + 4,
            Kind::V2 => 1032 + 20 * (index as usize),
        };
        slice_subrange(self.data.as_slice(), at, at + 20)
    }

    /// The identifier of entry `index`.
    pub fn oid_at_index(&self, index: u32) -> (r: ObjectId)
        requires
            index < count(self.bytes()),
        ensures
            r@ == oid_at(self.bytes(), index as int),
    {
        ObjectId::from_20_bytes(self.oid_bytes_at_index(index))
    }

    /// The pack offset of entry `index`, with a 64-bit offset looked up in its
    /// table.
    pub fn pack_offset_at_index(&self, index: u32) -> (r: u64)
        requires
            index < count(self.bytes()),
        ensures
            r == offset_at(self.bytes(), index as int),
    {
        proof {
            use_type_invariant(self);
        }
        let len: usize = self.data.len();
        assert(needed_len(self.data@) <= len);
        let n: usize = self.num_objects as usize;
        match self.kind {
            Kind::V1 => u32_at(self.data.as_slice(), 1024 + 24 * (index as usize)) as u64,
            Kind::V2 => {
                let raw = u32_at(self.data.as_slice(), 1032 + 24 * n + 4 * (index as usize));
                match decode_offset(raw) {
                    OffsetSlot::Direct(ofs) => ofs as u64,
                    OffsetSlot::Indirect(k) => {
                        assert(large_in_range(self.data@, index as int));
                        u64_at(self.data.as_slice(), 1032 + 28 * n + 8 * (k as usize))
                    },
                }
            },
        }
    }

    /// The checksum of the packed bytes of entry `index`, which only a version
    /// 2 index holds.
    pub fn crc32_at_index(&self, index: u32) -> (r: Option<u32>)
        requires
            index < count(self.bytes()),
        ensures
            r == crc32_at(self.bytes(), index as int),
    {
        proof {
            use_type_invariant(self);
        }
        let len: usize = self.data.len();
        assert(needed_len(self.data@) <= len);
        let n: usize = self.num_objects as usize;
        match self.kind {
            Kind::V1 => None,
            Kind::V2 => Some(u32_at(self.data.as_slice(), 1032 + 20 * n + 4 * (index as usize))),
        }
    }

    /// Entry `index`.
    pub fn entry_at_index(&self, index: u32) -> (r: Entry)
        requires
            index < count(self.bytes()),
        ensures
            is_entry(self.bytes(), index as int, r),
    {
        Entry {
            oid: self.oid_at_index(index),
            offset: self.pack_offset_at_index(index),
            crc32: self.crc32_at_index(index),
        }
    }

    /// All entries, in the order in which the file holds them. The file is not
    /// used up: every call gives all entries again.
    pub fn iter(&self) -> (r: Vec<Entry>)
        ensures
            r@.len() == count(self.bytes()),
            forall|i: int| 0 <= i < r@.len() ==> is_entry(self.bytes(), i, #[trigger] r@[i]),
    {
        let n: u32 = self.num_objects();
        let mut entries: Vec<Entry> = Vec::new();
        let mut i: u32 = 0;
        while i < n
            invariant
                i <= n,
                n == count(self.bytes()),
                entries@.len() == i,
                forall|j: int| 0 <= j < i ==> is_entry(self.bytes(), j, #[trigger] entries@[j]),
            decreases n - i,
        {
            entries.push(self.entry_at_index(i));
            i += 1;
        }
        entries
    }
}

/// In a fan-out table that never decreases no count is above the last.
pub proof fn lemma_fan_bounded(data: Seq<u8>, b: int)
    requires
        fan_monotone(data),
        0 <= b < 256,
    ensures
        fan_at(data, b) <= count(data),
    decreases 255 - b,
{
    if b < 255 {
        assert(fan_at(data, b) <= fan_at(data, b + 1));
        lemma_fan_bounded(data, b + 1);
    }
}

/// In a fan-out table that never decreases an earlier count is not above a
/// later one.
pub proof fn lemma_fan_ordered(data: Seq<u8>, a: int, b: int)
    requires
        fan_monotone(data),
        0 <= a <= b < 256,
    ensures
        fan_at(data, a) <= fan_at(data, b),
    decreases b - a,
{
    if a < b {
        assert(fan_at(data, b - 1) <= fan_at(data, (b - 1) + 1));
        lemma_fan_ordered(data, a, b - 1);
    }
}

/// Reads the 256 counts of the fan-out table, which starts at `start`.
fn read_fan(data: &[u8], start: usize) -> (fan: [u32; 256])
    requires
        start + 1024 <= data@.len(),
        start == fan_start(kind_of(data@)),
    ensures
        forall|b: int| 0 <= b < 256 ==> fan@[b] == #[trigger] fan_at(data@, b),
{
    let mut fan = [0u32; 256];
    let mut b: usize = 0;
    while b < 256
        invariant
            b <= 256,
            start + 1024 <= data@.len(),
            start == fan_start(kind_of(data@)),
            forall|j: int| 0 <= j < b ==> fan@[j] == #[trigger] fan_at(data@, j),
        decreases 256 - b,
    {
        let len: usize = data.len();
        fan[b] = u32_at(data, start + 4 * b);
        b += 1;
    }
    fan
}

} // verus!

//! The databases of a store, and where an object is found among them.
//!
//! A store looks through its databases in order, and in each one through the
//! packs before the loose objects: the first place that has the object wins.

use crate::hash::ObjectId;
use crate::index::layout::{count, oid_at};
use crate::index::lookup::valid;
use crate::index::File;
use crate::object::Kind;
use vstd::prelude::*;

verus! {

/// Where an entry lies in a pack, for taking its packed bytes as they are.
#[derive(PartialEq, Eq, Debug, Hash, Clone, Copy, Structural)]
pub struct Location {
    /// The pack that holds the entry.
    pub pack_id: u32,
    /// Where the entry starts in the pack data file.
    pub pack_offset: u64,
    /// The place of the entry in the pack's index.
    pub index_file_id: u32,
    /// The bytes that the entry takes in the pack: its header and its
    /// compressed data.
    pub entry_size: usize,
}

/// A place in the packs of one database.
#[derive(PartialEq, Eq, Debug, Clone, Copy, Structural)]
pub struct PackLocation {
    pub bundle_index: usize,
    pub entry_index: u32,
}

/// The versions of the pack data format.
#[derive(PartialEq, Eq, Debug, Hash, Clone, Copy, Structural)]
pub enum Version {
    V2,
    V3,
}

/// The packed bytes of an entry, as they are in the pack.
#[derive(Debug)]
pub struct Entry {
    /// The header and the compressed data of the entry.
    pub data: Vec<u8>,
    /// The checksum of `data`, where the index holds one.
    pub crc32: Option<u32>,
    /// The version of the pack that `data` comes from.
    pub version: Version,
}

/// An object decoded from a pack.
#[derive(Debug)]
pub struct Decoded {
    pub kind: Kind,
    pub data: Vec<u8>,
    /// The bytes that the entry takes in the pack.
    pub entry_size: usize,
}

/// The cache for decoded pack entries that keeps nothing.
#[derive(Debug, Clone, Copy)]
pub struct Never;

/// A pack: its index, and what stands for its data file.
pub struct Bundle<P> {
    pub index: File,
    pub pack: P,
    /// Tells the pack apart from all others of the store.
    pub id: u32,
}

/// One object database: what stands for its loose objects, and its packs.
pub struct Backend<L, P> {
    pub loose: L,
    pub bundles: Vec<Bundle<P>>,
}

/// Several object databases. An earlier one takes precedence over a later one.
pub struct Store<L, P> {
    pub dbs: Vec<Backend<L, P>>,
}

/// Where a store finds an object.
pub enum Place {
    /// In the pack `bundle` of database `db`, at `entry` of its index.
    Packed { db: int, bundle: int, entry: int },
    /// Among the loose objects of database `db`.
    Loose { db: int },
    Absent,
}

/// The index has an entry with the identifier `id`.
pub open spec fn holds(index: File, id: ObjectId) -> bool {
    exists|i: int| is_entry_of(index, id, i)
}

/// Entry `i` of the index has the identifier `id`.
pub open spec fn is_entry_of(index: File, id: ObjectId, i: int) -> bool {
    0 <= i < count(index.bytes()) && oid_at(index.bytes(), i) == id@
}

/// The entry of the index that has the identifier `id`.
pub open spec fn entry_of(index: File, id: ObjectId) -> int {
    choose|i: int| is_entry_of(index, id, i)
}

/// The first of `bundles` whose index holds `id`.
pub open spec fn first_holding<P>(bundles: Seq<Bundle<P>>, id: ObjectId) -> Option<int>
    decreases bundles.len(),
{
    if bundles.len() == 0 {
        None
    } else {
        match first_holding(bundles.drop_last(), id) {
            Some(b) => Some(b),
            None => if holds(bundles.last().index, id) {
                Some(bundles.len() - 1)
            } else {
                None
            },
        }
    }
}

/// Where `id` is found in the databases `dbs`, looked through in order, each
/// one's packs before its loose objects. `loose` says which loose objects a
/// database has.
pub open spec fn place_in<L, P>(
    dbs: Seq<Backend<L, P>>,
    id: ObjectId,
    loose: spec_fn(L, ObjectId) -> bool,
) -> Place
    decreases dbs.len(),
{
    if dbs.len() == 0 {
        Place::Absent
    } else {
        match place_in(dbs.drop_last(), id, loose) {
            Place::Absent => {
                let db = dbs.last();
                match first_holding(db.bundles@, id) {
                    Some(b) => Place::Packed {
                        db: dbs.len() - 1,
                        bundle: b,
                        entry: entry_of(db.bundles@[b].index, id),
                    },
                    None => if loose(db.loose, id) {
                        Place::Loose { db: dbs.len() - 1 }
                    } else {
                        Place::Absent
                    },
                }
            },
            found => found,
        }
    }
}

/// `place` is a place where a lookup may end, whatever the indices hold and
/// the callback is: a packed place is an entry with the identifier `id`, a
/// loose place is a database of which `loose_contains` said that it has the
/// object, and the object is absent only if `loose_contains` said of every
/// database that it does not have it.
pub open spec fn placed<L, P, Contains: Fn(&L, &ObjectId) -> bool>(
    dbs: Seq<Backend<L, P>>,
    id: ObjectId,
    loose_contains: Contains,
    place: Place,
) -> bool {
    match place {
        Place::Packed { db, bundle, entry } => {
            &&& 0 <= db < dbs.len()
            &&& 0 <= bundle < dbs[db].bundles@.len()
            &&& is_entry_of(dbs[db].bundles@[bundle].index, id, entry)
        },
        Place::Loose { db } => 0 <= db < dbs.len() && call_ensures(
            loose_contains,
            (&dbs[db].loose, &id),
            true,
        ),
        Place::Absent => forall|d: int|
            0 <= d < dbs.len() ==> call_ensures(
                loose_contains,
                (&(#[trigger] dbs[d]).loose, &id),
                false,
            ),
    }
}

/// The first pack, in the order of the databases and of their packs, that has
/// the identifier `pack_id`.
pub open spec fn pack_by_id<L, P>(dbs: Seq<Backend<L, P>>, pack_id: u32) -> Option<(int, int)>
    decreases dbs.len(),
{
    if dbs.len() == 0 {
        None
    } else {
        match pack_by_id(dbs.drop_last(), pack_id) {
            Some(at) => Some(at),
            None => match first_with_id(dbs.last().bundles@, pack_id) {
                Some(b) => Some((dbs.len() - 1, b)),
                None => None,
            },
        }
    }
}

/// The first of `bundles` that has the identifier `pack_id`.
pub open spec fn first_with_id<P>(bundles: Seq<Bundle<P>>, pack_id: u32) -> Option<int>
    decreases bundles.len(),
{
    if bundles.len() == 0 {
        None
    } else {
        match first_with_id(bundles.drop_last(), pack_id) {
            Some(b) => Some(b),
            None => if bundles.last().id == pack_id {
                Some(bundles.len() - 1)
            } else {
                None
            },
        }
    }
}

/// Every index among `bundles` is sorted and has a fan-out table that counts
/// its entries, so that a lookup finds whatever the index holds.
pub open spec fn bundles_valid<P>(bundles: Seq<Bundle<P>>) -> bool {
    forall|b: int| 0 <= b < bundles.len() ==> valid((#[trigger] bundles[b]).index.bytes())
}

/// Every index of every database is valid.
pub open spec fn indices_valid<L, P>(dbs: Seq<Backend<L, P>>) -> bool {
    forall|d: int| 0 <= d < dbs.len() ==> bundles_valid((#[trigger] dbs[d]).bundles@)
}

/// Whatever `loose_contains` returns is what `loose` says.
pub open spec fn models_loose<L, Contains: Fn(&L, &ObjectId) -> bool>(
    loose_contains: Contains,
    loose: spec_fn(L, ObjectId) -> bool,
) -> bool {
    forall|db: L, id: ObjectId, r: bool| #[trigger]
        call_ensures(loose_contains, (&db, &id), r) ==> r == loose(db, id)
}

/// `loose_contains` may be called with every database and identifier.
pub open spec fn loose_total<L, Contains: Fn(&L, &ObjectId) -> bool>(
    loose_contains: Contains,
) -> bool {
    forall|db: L, id: ObjectId| #[trigger] call_requires(loose_contains, (&db, &id))
}

} // verus!

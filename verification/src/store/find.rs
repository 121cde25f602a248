//! Finding objects in a store.
//!
//! The store itself decides where an object is. What only the files on disk
//! can give is asked of callbacks: whether a database has a loose object, the
//! bytes of a loose object, and the decoding of a packed entry.

use crate::hash::ObjectId;
use crate::index::file::is_entry;
use crate::index::layout::{count, crc32_at, offset_at};
use crate::index::lookup::{lemma_sorted_distinct, valid};
use crate::index::Entry as IndexEntry;
use crate::object::Data;
use crate::store::model::{
    bundles_valid, entry_of, first_holding, first_with_id, holds, indices_valid, is_entry_of,
    loose_total, models_loose, pack_by_id, place_in, placed, Backend, Bundle, Decoded, Entry,
    Location, Never, PackLocation, Place, Store, Version,
};
use vstd::prelude::*;

verus! {

/// Where a lookup found an object.
pub enum Found {
    Packed { db: usize, at: PackLocation },
    Loose { db: usize },
    Absent,
}

impl Found {
    /// The place as the model has it.
    pub open spec fn place(self) -> Place {
        match self {
            Found::Packed { db, at } => Place::Packed {
                db: db as int,
                bundle: at.bundle_index as int,
                entry: at.entry_index as int,
            },
            Found::Loose { db } => Place::Loose { db: db as int },
            Found::Absent => Place::Absent,
        }
    }
}

/// What a lookup returns for an object that a pack holds: the decoded object
/// with its location, or the error of the decoding.
pub open spec fn packed_result<E>(
    pack_id: u32,
    pack_offset: u64,
    entry: u32,
    out: Result<Decoded, E>,
) -> Result<Option<(Data, Option<Location>)>, E> {
    match out {
        Ok(decoded) => Ok(
            Some(
                (
                    Data { kind: decoded.kind, data: decoded.data },
                    Some(
                        Location {
                            pack_id,
                            pack_offset,
                            index_file_id: entry,
                            entry_size: decoded.entry_size,
                        },
                    ),
                ),
            ),
        ),
        Err(err) => Err(err),
    }
}

/// What a lookup returns for an object that a database has loose: the object,
/// without a location, or what else reading it gave.
pub open spec fn loose_result<E>(out: Result<Option<Data>, E>) -> Result<
    Option<(Data, Option<Location>)>,
    E,
> {
    match out {
        Ok(Some(data)) => Ok(Some((data, None))),
        Ok(None) => Ok(None),
        Err(err) => Err(err),
    }
}

/// `r` is what a lookup of `id` returns where the object is at `place`: the
/// result of decoding the packed entry, the result of reading the loose
/// object, or nothing where the object is absent.
pub open spec fn found_as<
    L,
    P,
    C,
    E,
    LooseFind: Fn(&L, &ObjectId, Vec<u8>) -> Result<Option<Data>, E>,
    Decode: Fn(&Bundle<P>, u64, Vec<u8>, &C) -> Result<Decoded, E>,
>(
    dbs: Seq<Backend<L, P>>,
    place: Place,
    id: ObjectId,
    buffer: Vec<u8>,
    pack_cache: &C,
    loose_find: LooseFind,
    decode: Decode,
    r: Result<Option<(Data, Option<Location>)>, E>,
) -> bool {
    match place {
        Place::Packed { db, bundle, entry } => {
            let b = dbs[db].bundles@[bundle];
            let pack_offset = offset_at(b.index.bytes(), entry);
            exists|out: Result<Decoded, E>| #[trigger]
                call_ensures(decode, (&b, pack_offset, buffer, pack_cache), out) && r == packed_result(
                    b.id,
                    pack_offset,
                    entry as u32,
                    out,
                )
        },
        Place::Loose { db } => {
            exists|out: Result<Option<Data>, E>| #[trigger]
                call_ensures(loose_find, (&dbs[db].loose, &id, buffer), out) && r == loose_result(
                    out,
                )
        },
        Place::Absent => r == Ok::<Option<(Data, Option<Location>)>, E>(None),
    }
}

/// The location that a measured entry has.
pub open spec fn measured_location(
    pack_id: u32,
    pack_offset: u64,
    entry: u32,
    size: Option<usize>,
) -> Option<Location> {
    match size {
        Some(entry_size) => Some(
            Location { pack_id, pack_offset, index_file_id: entry, entry_size },
        ),
        None => None,
    }
}

/// The entry that a slice of a pack makes.
pub open spec fn sliced_entry(crc32: Option<u32>, out: Option<(Vec<u8>, Version)>) -> Option<
    Entry,
> {
    match out {
        Some((data, version)) => Some(Entry { data, crc32, version }),
        None => None,
    }
}

/// Where the packs have `id`, whatever the databases have loose.
pub open spec fn packed_place<L, P>(dbs: Seq<Backend<L, P>>, id: ObjectId) -> Place {
    place_in(dbs, id, |db: L, id: ObjectId| false)
}

/// A packed `place` is an entry with the identifier `id` in a pack of `dbs`.
pub open spec fn packed_at<L, P>(dbs: Seq<Backend<L, P>>, id: ObjectId, place: Place) -> bool {
    match place {
        Place::Packed { db, bundle, entry } => {
            &&& 0 <= db < dbs.len()
            &&& 0 <= bundle < dbs[db].bundles@.len()
            &&& is_entry_of(dbs[db].bundles@[bundle].index, id, entry)
        },
        _ => true,
    }
}

/// `r` and `after` are what asking for the location of `id` gives: where a
/// pack has the object, the location with the size that `measure` found for
/// the entry, or nothing where it found none, and the buffer as `measure`
/// left it; where no pack has it, nothing, and the buffer as it was.
pub open spec fn located_as<L, P, Measure: Fn(&Bundle<P>, u64, Vec<u8>) -> (Vec<u8>, Option<usize>)>(
    dbs: Seq<Backend<L, P>>,
    place: Place,
    before: Vec<u8>,
    measure: Measure,
    r: Option<Location>,
    after: Vec<u8>,
) -> bool {
    match place {
        Place::Packed { db, bundle, entry } => {
            let b = dbs[db].bundles@[bundle];
            let pack_offset = offset_at(b.index.bytes(), entry);
            exists|out: (Vec<u8>, Option<usize>)| #[trigger]
                call_ensures(measure, (&b, pack_offset, before), out) && after == out.0 && r
                    == measured_location(b.id, pack_offset, entry as u32, out.1)
        },
        _ => r is None && after == before,
    }
}

/// `r` is what asking for the packed bytes at `location` gives: the slice of
/// the first pack with the location's pack identifier, from the offset that
/// the pack's index has for the location's entry, as long as the location
/// says, with the checksum that the index has for the entry. It is nothing
/// where there is no such pack, the index has no such entry, the end of the
/// slice is no offset, or `slice` has no such bytes.
pub open spec fn entry_as<L, P, Slice: Fn(&Bundle<P>, u64, u64) -> Option<(Vec<u8>, Version)>>(
    dbs: Seq<Backend<L, P>>,
    location: Location,
    slice: Slice,
    r: Option<Entry>,
) -> bool {
    match pack_by_id(dbs, location.pack_id) {
        Some((d, b)) => {
            let bundle = dbs[d].bundles@[b];
            let data = bundle.index.bytes();
            let i = location.index_file_id as int;
            let start = offset_at(data, i);
            if i < count(data) && start + location.entry_size <= u64::MAX {
                exists|out: Option<(Vec<u8>, Version)>| #[trigger]
                    call_ensures(slice, (&bundle, start, (start + location.entry_size) as u64), out)
                        && r == sliced_entry(crc32_at(data, i), out)
            } else {
                r is None
            }
        },
        None => r is None,
    }
}

/// What a lookup without a location returns.
pub open spec fn without_location<E>(r: Result<Option<(Data, Option<Location>)>, E>) -> Result<
    Option<Data>,
    E,
> {
    match r {
        Ok(Some((data, _))) => Ok(Some(data)),
        Ok(None) => Ok(None),
        Err(err) => Err(err),
    }
}

/// An earlier pack that holds the identifier stays the first that holds it.
proof fn lemma_first_holding_prefix<P>(bundles: Seq<Bundle<P>>, id: ObjectId, k: int, b: int)
    requires
        0 <= k <= bundles.len(),
        first_holding(bundles.take(k), id) == Some(b),
    ensures
        first_holding(bundles, id) == Some(b),
    decreases bundles.len() - k,
{
    if k < bundles.len() {
        assert(bundles.take(k + 1).drop_last() =~= bundles.take(k));
        lemma_first_holding_prefix(bundles, id, k + 1, b);
    } else {
        assert(bundles.take(k) =~= bundles);
    }
}

/// An earlier pack with the identifier stays the first that has it.
proof fn lemma_first_with_id_prefix<P>(bundles: Seq<Bundle<P>>, pack_id: u32, k: int, b: int)
    requires
        0 <= k <= bundles.len(),
        first_with_id(bundles.take(k), pack_id) == Some(b),
    ensures
        first_with_id(bundles, pack_id) == Some(b),
    decreases bundles.len() - k,
{
    if k < bundles.len() {
        assert(bundles.take(k + 1).drop_last() =~= bundles.take(k));
        lemma_first_with_id_prefix(bundles, pack_id, k + 1, b);
    } else {
        assert(bundles.take(k) =~= bundles);
    }
}

/// A place found in the earlier databases stays the place.
proof fn lemma_place_prefix<L, P>(
    dbs: Seq<Backend<L, P>>,
    id: ObjectId,
    loose: spec_fn(L, ObjectId) -> bool,
    k: int,
)
    requires
        0 <= k <= dbs.len(),
        !(place_in(dbs.take(k), id, loose) is Absent),
    ensures
        place_in(dbs, id, loose) == place_in(dbs.take(k), id, loose),
    decreases dbs.len() - k,
{
    if k < dbs.len() {
        assert(dbs.take(k + 1).drop_last() =~= dbs.take(k));
        lemma_place_prefix(dbs, id, loose, k + 1);
    } else {
        assert(dbs.take(k) =~= dbs);
    }
}

/// A pack found in the earlier databases stays the pack.
proof fn lemma_pack_prefix<L, P>(dbs: Seq<Backend<L, P>>, pack_id: u32, k: int)
    requires
        0 <= k <= dbs.len(),
        pack_by_id(dbs.take(k), pack_id) is Some,
    ensures
        pack_by_id(dbs, pack_id) == pack_by_id(dbs.take(k), pack_id),
    decreases dbs.len() - k,
{
    if k < dbs.len() {
        assert(dbs.take(k + 1).drop_last() =~= dbs.take(k));
        lemma_pack_prefix(dbs, pack_id, k + 1);
    } else {
        assert(dbs.take(k) =~= dbs);
    }
}

impl<L, P> Backend<L, P> {
    /// Looks `id` up in the packs of the database, in their order.
    ///
    /// A place that is returned holds `id`. That it is the first pack with
    /// `id`, and that `None` means that no pack has it, rests on the indices
    /// being valid.
    pub fn find_packed(&self, id: &ObjectId) -> (r: Option<PackLocation>)
        ensures
            r matches Some(at) ==> at.bundle_index < self.bundles@.len() && is_entry_of(
                self.bundles@[at.bundle_index as int].index,
                *id,
                at.entry_index as int,
            ),
            bundles_valid(self.bundles@) ==> match r {
                Some(at) => {
                    &&& first_holding(self.bundles@, *id) == Some(at.bundle_index as int)
                    &&& at.entry_index == entry_of(
                        self.bundles@[at.bundle_index as int].index,
                        *id,
                    )
                },
                None => first_holding(self.bundles@, *id) is None,
            },
    {
        let mut b: usize = 0;
        while b < self.bundles.len()
            invariant
                b <= self.bundles@.len(),
                bundles_valid(self.bundles@) ==> first_holding(self.bundles@.take(b as int), *id)
                    is None,
            decreases self.bundles@.len() - b,
        {
            let ghost index = self.bundles@[b as int].index;
            proof {
                assert(self.bundles@.take(b + 1).drop_last() =~= self.bundles@.take(b as int));
                assert(self.bundles@.take(b + 1).last() == self.bundles@[b as int]);
            }
            match self.bundles[b].index.lookup(id) {
                Some(entry) => {
                    proof {
                        assert(is_entry_of(index, *id, entry as int));
                        if bundles_valid(self.bundles@) {
                            lemma_sorted_distinct(
                                index.bytes(),
                                entry as int,
                                entry_of(index, *id),
                            );
                            lemma_first_holding_prefix(self.bundles@, *id, b + 1, b as int);
                        }
                    }
                    return Some(PackLocation { bundle_index: b, entry_index: entry });
                },
                None => {
                    proof {
                        if bundles_valid(self.bundles@) {
                            assert(!holds(index, *id));
                        }
                    }
                },
            }
            b += 1;
        }
        assert(self.bundles@.take(b as int) =~= self.bundles@);
        None
    }

    /// The first pack of the database that has the identifier `pack_id`.
    fn find_pack(&self, pack_id: u32) -> (r: Option<usize>)
        ensures
            match r {
                Some(b) => first_with_id(self.bundles@, pack_id) == Some(b as int) && b
                    < self.bundles@.len() && self.bundles@[b as int].id == pack_id,
                None => first_with_id(self.bundles@, pack_id) is None,
            },
    {
        let mut b: usize = 0;
        while b < self.bundles.len()
            invariant
                b <= self.bundles@.len(),
                first_with_id(self.bundles@.take(b as int), pack_id) is None,
            decreases self.bundles@.len() - b,
        {
            proof {
                assert(self.bundles@.take(b + 1).drop_last() =~= self.bundles@.take(b as int));
                assert(self.bundles@.take(b + 1).last() == self.bundles@[b as int]);
            }
            if self.bundles[b].id == pack_id {
                proof {
                    lemma_first_with_id_prefix(self.bundles@, pack_id, b + 1, b as int);
                }
                return Some(b);
            }
            b += 1;
        }
        assert(self.bundles@.take(b as int) =~= self.bundles@);
        None
    }
}

impl<L, P> Store<L, P> {
    /// A store of the databases `dbs`, the first of which takes precedence.
    pub fn new(dbs: Vec<Backend<L, P>>) -> (r: Self)
        ensures
            r.dbs == dbs,
    {
        Store { dbs }
    }

    /// Where `id` is: in each database in turn, the packs are looked through
    /// first, and `loose_contains` is asked only where they do not have it.
    pub fn locate<Contains: Fn(&L, &ObjectId) -> bool>(
        &self,
        id: &ObjectId,
        loose_contains: &Contains,
    ) -> (r: Found)
        requires
            loose_total(*loose_contains),
        ensures
            placed(self.dbs@, *id, *loose_contains, r.place()),
            forall|loose: spec_fn(L, ObjectId) -> bool| #[trigger]
                models_loose(*loose_contains, loose) && indices_valid(self.dbs@) ==> r.place()
                    == place_in(self.dbs@, *id, loose),
    {
        let mut d: usize = 0;
        while d < self.dbs.len()
            invariant
                d <= self.dbs@.len(),
                loose_total(*loose_contains),
                forall|e: int|
                    0 <= e < d ==> call_ensures(
                        *loose_contains,
                        (&(#[trigger] self.dbs@[e]).loose, id),
                        false,
                    ),
                forall|loose: spec_fn(L, ObjectId) -> bool| #[trigger]
                    models_loose(*loose_contains, loose) && indices_valid(self.dbs@) ==> place_in(
                        self.dbs@.take(d as int),
                        *id,
                        loose,
                    ) is Absent,
            decreases self.dbs@.len() - d,
        {
            let db = &self.dbs[d];
            proof {
                assert(self.dbs@.take(d + 1).drop_last() =~= self.dbs@.take(d as int));
                assert(self.dbs@.take(d + 1).last() == self.dbs@[d as int]);
            }
            match db.find_packed(id) {
                Some(at) => {
                    proof {
                        assert forall|loose: spec_fn(L, ObjectId) -> bool| #[trigger]
                            models_loose(*loose_contains, loose) && indices_valid(
                                self.dbs@,
                            ) implies (Found::Packed { db: d, at }).place() == place_in(
                            self.dbs@,
                            *id,
                            loose,
                        ) by {
                            assert(bundles_valid(self.dbs@[d as int].bundles@));
                            lemma_place_prefix(self.dbs@, *id, loose, d + 1);
                        }
                    }
                    return Found::Packed { db: d, at };
                },
                None => {
                    let is_loose = loose_contains(&db.loose, id);
                    if is_loose {
                        proof {
                            assert forall|loose: spec_fn(L, ObjectId) -> bool| #[trigger]
                                models_loose(*loose_contains, loose) && indices_valid(
                                    self.dbs@,
                                ) implies (Found::Loose { db: d }).place() == place_in(
                                self.dbs@,
                                *id,
                                loose,
                            ) by {
                                assert(bundles_valid(self.dbs@[d as int].bundles@));
                                assert(loose(db.loose, *id));
                                lemma_place_prefix(self.dbs@, *id, loose, d + 1);
                            }
                        }
                        return Found::Loose { db: d };
                    }
                    proof {
                        assert forall|loose: spec_fn(L, ObjectId) -> bool| #[trigger]
                            models_loose(*loose_contains, loose) && indices_valid(
                                self.dbs@,
                            ) implies place_in(self.dbs@.take(d + 1), *id, loose) is Absent by {
                            assert(bundles_valid(self.dbs@[d as int].bundles@));
                            assert(!loose(db.loose, *id));
                        }
                    }
                },
            }
            d += 1;
        }
        assert(self.dbs@.take(d as int) =~= self.dbs@);
        Found::Absent
    }

    /// Whether any database has `id`, packed or loose.
    pub fn contains<Contains: Fn(&L, &ObjectId) -> bool>(
        &self,
        id: &ObjectId,
        loose_contains: &Contains,
    ) -> (r: bool)
        requires
            loose_total(*loose_contains),
        ensures
            forall|loose: spec_fn(L, ObjectId) -> bool| #[trigger]
                models_loose(*loose_contains, loose) && indices_valid(self.dbs@) ==> r == !(
                place_in(self.dbs@, *id, loose) is Absent),
            exists|place: Place| #[trigger]
                placed(self.dbs@, *id, *loose_contains, place) && r == !(place is Absent),
    {
        let found = self.locate(id, loose_contains);
        assert(placed(self.dbs@, *id, *loose_contains, found.place()));
        match found {
            Found::Absent => false,
            _ => true,
        }
    }

    /// Finds the object `id` and reads it into `buffer`.
    ///
    /// Where a pack has the object, `decode` is called with the pack, the
    /// offset of the entry, the buffer and `pack_cache`, the cache for decoded
    /// entries that the caller chose, and the result is the decoded object
    /// with its location. Where a database has it loose, `loose_find`
    /// reads it, and the result has no location. Where no database has it the
    /// result is `Ok(None)`: absence is no error.
    pub fn try_find_cached<
        C,
        E,
        Contains: Fn(&L, &ObjectId) -> bool,
        LooseFind: Fn(&L, &ObjectId, Vec<u8>) -> Result<Option<Data>, E>,
        Decode: Fn(&Bundle<P>, u64, Vec<u8>, &C) -> Result<Decoded, E>,
    >(
        &self,
        id: &ObjectId,
        buffer: Vec<u8>,
        pack_cache: &C,
        loose_contains: &Contains,
        loose_find: &LooseFind,
        decode: &Decode,
    ) -> (r: Result<Option<(Data, Option<Location>)>, E>)
        requires
            loose_total(*loose_contains),
            forall|db: &L, id: &ObjectId, buf: Vec<u8>| #[trigger]
                call_requires(*loose_find, (db, id, buf)),
            forall|bundle: &Bundle<P>, pack_offset: u64, buf: Vec<u8>, cache: &C| #[trigger]
                call_requires(*decode, (bundle, pack_offset, buf, cache)),
        ensures
            exists|place: Place| #[trigger]
                placed(self.dbs@, *id, *loose_contains, place) && found_as(
                    self.dbs@,
                    place,
                    *id,
                    buffer,
                    pack_cache,
                    *loose_find,
                    *decode,
                    r,
                ),
            forall|loose: spec_fn(L, ObjectId) -> bool| #[trigger]
                models_loose(*loose_contains, loose) && indices_valid(self.dbs@) ==> found_as(
                    self.dbs@,
                    place_in(self.dbs@, *id, loose),
                    *id,
                    buffer,
                    pack_cache,
                    *loose_find,
                    *decode,
                    r,
                ),
    {
        let found = self.locate(id, loose_contains);
        assert(placed(self.dbs@, *id, *loose_contains, found.place()));
        match found {
            Found::Packed { db, at } => {
                let bundle = &self.dbs[db].bundles[at.bundle_index];
                let pack_offset = bundle.index.pack_offset_at_index(at.entry_index);
                let out = decode(bundle, pack_offset, buffer, pack_cache);
                let ghost seen = out;
                let r = match out {
                    Ok(decoded) => Ok(
                        Some(
                            (
                                Data { kind: decoded.kind, data: decoded.data },
                                Some(
                                    Location {
                                        pack_id: bundle.id,
                                        pack_offset,
                                        index_file_id: at.entry_index,
                                        entry_size: decoded.entry_size,
                                    },
                                ),
                            ),
                        ),
                    ),
                    Err(err) => Err(err),
                };
                assert(r == packed_result(bundle.id, pack_offset, at.entry_index, seen));
                r
            },
            Found::Loose { db } => {
                let out = loose_find(&self.dbs[db].loose, id, buffer);
                let ghost seen = out;
                let r = match out {
                    Ok(Some(data)) => Ok(Some((data, None))),
                    Ok(None) => Ok(None),
                    Err(err) => Err(err),
                };
                assert(r == loose_result(seen));
                r
            },
            Found::Absent => Ok(None),
        }
    }

    /// Finds the object `id` as `try_find_cached` does, without a cache, and
    /// leaves out where it was found.
    pub fn try_find<
        E,
        Contains: Fn(&L, &ObjectId) -> bool,
        LooseFind: Fn(&L, &ObjectId, Vec<u8>) -> Result<Option<Data>, E>,
        Decode: Fn(&Bundle<P>, u64, Vec<u8>, &Never) -> Result<Decoded, E>,
    >(
        &self,
        id: &ObjectId,
        buffer: Vec<u8>,
        loose_contains: &Contains,
        loose_find: &LooseFind,
        decode: &Decode,
    ) -> (r: Result<Option<Data>, E>)
        requires
            loose_total(*loose_contains),
            forall|db: &L, id: &ObjectId, buf: Vec<u8>| #[trigger]
                call_requires(*loose_find, (db, id, buf)),
            forall|bundle: &Bundle<P>, pack_offset: u64, buf: Vec<u8>, cache: &Never| #[trigger]
                call_requires(*decode, (bundle, pack_offset, buf, cache)),
        ensures
            exists|place: Place, full: Result<Option<(Data, Option<Location>)>, E>|
                placed(self.dbs@, *id, *loose_contains, place) && r == without_location(full)
                    && #[trigger] found_as(
                    self.dbs@,
                    place,
                    *id,
                    buffer,
                    &Never,
                    *loose_find,
                    *decode,
                    full,
                ),
            forall|loose: spec_fn(L, ObjectId) -> bool| #[trigger]
                models_loose(*loose_contains, loose) && indices_valid(self.dbs@) ==> exists|
                    full: Result<Option<(Data, Option<Location>)>, E>,
                |
                    r == without_location(full) && #[trigger] found_as(
                        self.dbs@,
                        place_in(self.dbs@, *id, loose),
                        *id,
                        buffer,
                        &Never,
                        *loose_find,
                        *decode,
                        full,
                    ),
    {
        let full = self.try_find_cached(id, buffer, &Never, loose_contains, loose_find, decode);
        let ghost seen = full;
        let r = match full {
            Ok(Some((data, _))) => Ok(Some(data)),
            Ok(None) => Ok(None),
            Err(err) => Err(err),
        };
        assert(r == without_location(seen));
        r
    }

    /// The location of the packed entry of `id`, for taking its packed bytes
    /// as they are.
    ///
    /// `measure` is called with the pack, the offset of the entry and the
    /// buffer; it decompresses the entry into the buffer and returns the
    /// buffer and the bytes that the entry takes in the pack, or `None` where
    /// the entry cannot be decompressed. An object that is only loose has no
    /// location.
    pub fn location_by_oid<Measure: Fn(&Bundle<P>, u64, Vec<u8>) -> (Vec<u8>, Option<usize>)>(
        &self,
        id: &ObjectId,
        buf: &mut Vec<u8>,
        measure: &Measure,
    ) -> (r: Option<Location>)
        requires
            forall|bundle: &Bundle<P>, pack_offset: u64, b: Vec<u8>| #[trigger]
                call_requires(*measure, (bundle, pack_offset, b)),
        ensures
            exists|place: Place| #[trigger]
                packed_at(self.dbs@, *id, place) && located_as(
                    self.dbs@,
                    place,
                    *old(buf),
                    *measure,
                    r,
                    *final(buf),
                ),
            indices_valid(self.dbs@) ==> located_as(
                self.dbs@,
                packed_place(self.dbs@, *id),
                *old(buf),
                *measure,
                r,
                *final(buf),
            ),
    {
        let never = |db: &L, id: &ObjectId| -> (loose: bool)
            ensures
                !loose,
            { false };
        let found = self.locate(id, &never);
        proof {
            assert(models_loose(never, |db: L, id: ObjectId| false));
            assert(packed_at(self.dbs@, *id, found.place()));
        }
        match found {
            Found::Packed { db, at } => {
                let bundle = &self.dbs[db].bundles[at.bundle_index];
                let pack_offset = bundle.index.pack_offset_at_index(at.entry_index);
                let mut taken: Vec<u8> = Vec::new();
                std::mem::swap(&mut taken, buf);
                let out = measure(bundle, pack_offset, taken);
                let ghost seen = out;
                let (back, size) = out;
                *buf = back;
                let r = match size {
                    Some(entry_size) => Some(
                        Location {
                            pack_id: bundle.id,
                            pack_offset,
                            index_file_id: at.entry_index,
                            entry_size,
                        },
                    ),
                    None => None,
                };
                assert(r == measured_location(bundle.id, pack_offset, at.entry_index, seen.1));
                r
            },
            _ => None,
        }
    }

    /// The first pack of the store that has the identifier `pack_id`: the
    /// place of its database and its place among the packs there.
    pub fn find_pack(&self, pack_id: u32) -> (r: Option<(usize, usize)>)
        ensures
            match r {
                Some((d, b)) => {
                    &&& pack_by_id(self.dbs@, pack_id) == Some((d as int, b as int))
                    &&& d < self.dbs@.len()
                    &&& b < self.dbs@[d as int].bundles@.len()
                    &&& self.dbs@[d as int].bundles@[b as int].id == pack_id
                },
                None => pack_by_id(self.dbs@, pack_id) is None,
            },
    {
        let mut d: usize = 0;
        while d < self.dbs.len()
            invariant
                d <= self.dbs@.len(),
                pack_by_id(self.dbs@.take(d as int), pack_id) is None,
            decreases self.dbs@.len() - d,
        {
            proof {
                assert(self.dbs@.take(d + 1).drop_last() =~= self.dbs@.take(d as int));
                assert(self.dbs@.take(d + 1).last() == self.dbs@[d as int]);
            }
            match self.dbs[d].find_pack(pack_id) {
                Some(b) => {
                    proof {
                        lemma_pack_prefix(self.dbs@, pack_id, d + 1);
                    }
                    return Some((d, b));
                },
                None => {},
            }
            d += 1;
        }
        assert(self.dbs@.take(d as int) =~= self.dbs@);
        None
    }

    /// All entries of the index of the pack `pack_id`, or `None` where the
    /// store has no such pack.
    pub fn index_iter_by_pack_id(&self, pack_id: u32) -> (r: Option<Vec<IndexEntry>>)
        ensures
            match pack_by_id(self.dbs@, pack_id) {
                Some((d, b)) => {
                    let data = self.dbs@[d].bundles@[b].index.bytes();
                    &&& r matches Some(entries)
                    &&& entries@.len() == count(data)
                    &&& forall|i: int|
                        0 <= i < entries@.len() ==> is_entry(data, i, #[trigger] entries@[i])
                },
                None => r is None,
            },
    {
        match self.find_pack(pack_id) {
            Some((d, b)) => Some(self.dbs[d].bundles[b].index.iter()),
            None => None,
        }
    }

    /// The packed bytes at `location`, with their checksum and the version of
    /// their pack, for copying them into another pack as they are.
    ///
    /// `slice` is called with the pack and the offsets at which the entry
    /// starts and ends; it returns those bytes of the pack data file and the
    /// version of the pack, or `None` where the file is shorter.
    pub fn entry_by_location<Slice: Fn(&Bundle<P>, u64, u64) -> Option<(Vec<u8>, Version)>>(
        &self,
        location: &Location,
        slice: &Slice,
    ) -> (r: Option<Entry>)
        requires
            forall|bundle: &Bundle<P>, start: u64, end: u64| #[trigger]
                call_requires(*slice, (bundle, start, end)),
        ensures
            entry_as(self.dbs@, *location, *slice, r),
    {
        let (d, b) = match self.find_pack(location.pack_id) {
            Some(at) => at,
            None => {
                return None;
            },
        };
        let bundle = &self.dbs[d].bundles[b];
        if location.index_file_id >= bundle.index.num_objects() {
            return None;
        }
        let crc32 = bundle.index.crc32_at_index(location.index_file_id);
        let start = bundle.index.pack_offset_at_index(location.index_file_id);
        let end = match location.entry_range(start) {
            Some((_, end)) => end,
            None => {
                return None;
            },
        };
        let out = slice(bundle, start, end);
        let ghost seen = out;
        let r = match out {
            Some((data, version)) => Some(Entry { data, crc32, version }),
            None => None,
        };
        assert(r == sliced_entry(crc32, seen));
        r
    }
}

impl Location {
    /// The offsets at which the entry starts and ends in its pack, where it
    /// starts at `pack_offset`; `None` where the end would be no offset.
    pub fn entry_range(&self, pack_offset: u64) -> (r: Option<(u64, u64)>)
        ensures
            r == if pack_offset + self.entry_size <= u64::MAX {
                Some((pack_offset, (pack_offset + self.entry_size) as u64))
            } else {
                None::<(u64, u64)>
            },
    {
        let size = self.entry_size as u64;
        if size <= u64::MAX - pack_offset {
            Some((pack_offset, pack_offset + size))
        } else {
            None
        }
    }
}

/// Whether a store contains an object and whether a lookup finds it agree:
/// where the lookup returns no error, it returns an object if and only if the
/// store contains the identifier.
///
/// This rests on the loose objects being read as they were announced: the
/// reading of a loose object that its database has does not return `Ok(None)`.
pub proof fn lemma_contains_iff_found<
    L,
    P,
    C,
    E,
    LooseFind: Fn(&L, &ObjectId, Vec<u8>) -> Result<Option<Data>, E>,
    Decode: Fn(&Bundle<P>, u64, Vec<u8>, &C) -> Result<Decoded, E>,
>(
    dbs: Seq<Backend<L, P>>,
    id: ObjectId,
    loose: spec_fn(L, ObjectId) -> bool,
    buffer: Vec<u8>,
    pack_cache: &C,
    loose_find: LooseFind,
    decode: Decode,
    r: Result<Option<(Data, Option<Location>)>, E>,
)
    requires
        found_as(dbs, place_in(dbs, id, loose), id, buffer,
                    pack_cache, loose_find, decode, r),
        r is Ok,
        forall|db: L, id: ObjectId, buf: Vec<u8>, out: Result<Option<Data>, E>| #[trigger]
            call_ensures(loose_find, (&db, &id, buf), out) && loose(db, id) ==> !(out
                matches Ok(None)),
    ensures
        !(place_in(dbs, id, loose) is Absent) <==> r matches Ok(Some(_)),
{
    lemma_place_in_store(dbs, id, loose);
    match place_in(dbs, id, loose) {
        Place::Packed { db, bundle, entry } => {
            let b = dbs[db].bundles@[bundle];
            let pack_offset = offset_at(b.index.bytes(), entry);
            let out = choose|out: Result<Decoded, E>| #[trigger]
                call_ensures(decode, (&b, pack_offset, buffer, pack_cache), out) && r == packed_result(
                    b.id,
                    pack_offset,
                    entry as u32,
                    out,
                );
        },
        Place::Loose { db } => {
            let out = choose|out: Result<Option<Data>, E>| #[trigger]
                call_ensures(loose_find, (&dbs[db].loose, &id, buffer), out) && r == loose_result(
                    out,
                );
        },
        Place::Absent => {},
    }
}

/// A place that is found lies in the store: a loose place is a database that
/// has the object loose, and a packed place is a pack of the store.
pub proof fn lemma_place_in_store<L, P>(
    dbs: Seq<Backend<L, P>>,
    id: ObjectId,
    loose: spec_fn(L, ObjectId) -> bool,
)
    ensures
        match place_in(dbs, id, loose) {
            Place::Packed { db, bundle, entry } => {
                &&& 0 <= db < dbs.len()
                &&& first_holding(dbs[db].bundles@, id) == Some(bundle)
                &&& entry == entry_of(dbs[db].bundles@[bundle].index, id)
            },
            Place::Loose { db } => {
                &&& 0 <= db < dbs.len()
                &&& first_holding(dbs[db].bundles@, id) is None
                &&& loose(dbs[db].loose, id)
            },
            Place::Absent => forall|d: int|
                0 <= d < dbs.len() ==> first_holding((#[trigger] dbs[d]).bundles@, id) is None
                    && !loose(dbs[d].loose, id),
        },
    decreases dbs.len(),
{
    if dbs.len() > 0 {
        lemma_place_in_store(dbs.drop_last(), id, loose);
        match place_in(dbs.drop_last(), id, loose) {
            Place::Absent => {
                assert forall|d: int| 0 <= d < dbs.len() - 1 implies dbs[d] == dbs.drop_last()[d] by {}
            },
            Place::Packed { db, bundle, entry } => {
                assert(dbs[db] == dbs.drop_last()[db]);
            },
            Place::Loose { db } => {
                assert(dbs[db] == dbs.drop_last()[db]);
            },
        }
    }
}

} // verus!

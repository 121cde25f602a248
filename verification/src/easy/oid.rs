//! Object identifiers with a handle to their repository.

use crate::easy::object::{Handle, LooseDb, ObjectRef, PackFile};
use crate::hash::{lex_less, ObjectId};
use crate::object::Data;
use crate::store::find::{found_as, without_location};
use crate::store::model::{
    indices_valid, loose_total, models_loose, place_in, placed, Bundle, Decoded, Location, Never,
    Place,
};
use crate::traverse::ancestors::Ancestors as Walk;
use crate::traverse::model::{
    answered, initial, models_find, models_predicate, step, Error as WalkError, Step,
};
use crate::traverse::State;
use std::cmp::Ordering;
use vstd::prelude::*;
use vstd::std_specs::cmp::{PartialEqSpecImpl, PartialOrdSpecImpl};
use vstd::std_specs::convert::FromSpecImpl;

verus! {

/// An object identifier together with the repository it belongs to.
pub struct Oid<'repo> {
    inner: ObjectId,
    handle: &'repo Handle,
}

/// Why an object that has to exist could not be had.
#[derive(Debug)]
pub enum ExistingError<E> {
    /// The lookup failed.
    Find(E),
    /// No database has the object.
    NotFound { oid: ObjectId },
}

/// The object that a lookup found, with the identifier it was asked for and
/// the handle of its repository.
pub open spec fn found_object<'repo, E>(
    id: ObjectId,
    handle: &'repo Handle,
    found: Result<Option<Data>, E>,
) -> Result<Option<ObjectRef<'repo>>, E> {
    match found {
        Ok(Some(data)) => Ok(Some(ObjectRef { id, kind: data.kind, data: data.data, handle })),
        Ok(None) => Ok(None),
        Err(err) => Err(err),
    }
}

/// An object that has to exist: its absence is an error too.
pub open spec fn existing_object<'repo, E>(found: Result<Option<ObjectRef<'repo>>, E>, id: ObjectId)
    -> Result<ObjectRef<'repo>, ExistingError<E>> {
    match found {
        Ok(Some(object)) => Ok(object),
        Ok(None) => Err(ExistingError::NotFound { oid: id }),
        Err(err) => Err(ExistingError::Find(err)),
    }
}

impl<'repo> Oid<'repo> {
    /// The bare identifier.
    pub closed spec fn id(&self) -> ObjectId {
        self.inner
    }

    /// The repository that the identifier belongs to.
    pub closed spec fn repo(&self) -> &'repo Handle {
        self.handle
    }

    /// `id` tied to the repository of `handle`.
    pub closed spec fn tied(id: ObjectId, handle: &'repo Handle) -> Self {
        Oid { inner: id, handle }
    }

    /// Ties `id` to the repository of `handle`.
    pub fn from_id(id: ObjectId, handle: &'repo Handle) -> (r: Self)
        ensures
            r == Self::tied(id, handle),
            r.id() == id,
            r.repo() == handle,
    {
        Oid { inner: id, handle }
    }

    /// The bare identifier.
    pub fn detach(self) -> (r: ObjectId)
        ensures
            r == self.id(),
    {
        self.inner
    }

    /// Looks the object up in the repository; `None` where no database has
    /// it. What is on disk is asked of the three callbacks, as
    /// `Store::try_find` does, with a fresh buffer.
    pub fn try_object<
        E,
        Contains: Fn(&LooseDb, &ObjectId) -> bool,
        LooseFind: Fn(&LooseDb, &ObjectId, Vec<u8>) -> Result<Option<Data>, E>,
        Decode: Fn(&Bundle<PackFile>, u64, Vec<u8>, &Never) -> Result<Decoded, E>,
    >(&self, loose_contains: &Contains, loose_find: &LooseFind, decode: &Decode) -> (r: Result<
        Option<ObjectRef<'repo>>,
        E,
    >)
        requires
            loose_total(*loose_contains),
            forall|db: &LooseDb, id: &ObjectId, buf: Vec<u8>| #[trigger]
                call_requires(*loose_find, (db, id, buf)),
            forall|bundle: &Bundle<PackFile>, pack_offset: u64, buf: Vec<u8>, cache: &Never|
                #[trigger] call_requires(*decode, (bundle, pack_offset, buf, cache)),
        ensures
            exists|place: Place, buffer: Vec<u8>, full: Result<Option<(Data, Option<Location>)>, E>|
                placed(self.repo().objects.dbs@, self.id(), *loose_contains, place) && r
                    == found_object(self.id(), self.repo(), without_location(full))
                    && #[trigger] found_as(
                    self.repo().objects.dbs@,
                    place,
                    self.id(),
                    buffer,
                    &Never,
                    *loose_find,
                    *decode,
                    full,
                ),
            forall|loose: spec_fn(LooseDb, ObjectId) -> bool| #[trigger]
                models_loose(*loose_contains, loose) && indices_valid(self.repo().objects.dbs@)
                    ==> exists|
                    buffer: Vec<u8>,
                    full: Result<Option<(Data, Option<Location>)>, E>,
                |
                    r == found_object(self.id(), self.repo(), without_location(full))
                        && #[trigger] found_as(
                        self.repo().objects.dbs@,
                        place_in(self.repo().objects.dbs@, self.id(), loose),
                        self.id(),
                        buffer,
                        &Never,
                        *loose_find,
                        *decode,
                        full,
                    ),
    {
        let buffer: Vec<u8> = Vec::new();
        let ghost given = buffer;
        let found = self.handle.objects.try_find(
            &self.inner,
            buffer,
            loose_contains,
            loose_find,
            decode,
        );
        let ghost seen = found;
        let ghost (place, full) = choose|
            place: Place,
            full: Result<Option<(Data, Option<Location>)>, E>,
        |
            placed(self.handle.objects.dbs@, self.inner, *loose_contains, place) && seen
                == without_location(full) && #[trigger] found_as(
                self.handle.objects.dbs@,
                place,
                self.inner,
                given,
                &Never,
                *loose_find,
                *decode,
                full,
            );
        let r = match found {
            Ok(Some(data)) => Ok(
                Some(
                    ObjectRef {
                        id: self.inner,
                        kind: data.kind,
                        data: data.data,
                        handle: self.handle,
                    },
                ),
            ),
            Ok(None) => Ok(None),
            Err(err) => Err(err),
        };
        assert(r == found_object(self.inner, self.handle, seen));
        assert(exists|
            place: Place,
            buffer: Vec<u8>,
            full: Result<Option<(Data, Option<Location>)>, E>,
        |
            placed(self.repo().objects.dbs@, self.id(), *loose_contains, place) && r
                == found_object(self.id(), self.repo(), without_location(full))
                && #[trigger] found_as(
                self.repo().objects.dbs@,
                place,
                self.id(),
                buffer,
                &Never,
                *loose_find,
                *decode,
                full,
            ));
        r
    }

    /// Looks the object up in the repository, and takes its absence for an
    /// error.
    pub fn object<
        E,
        Contains: Fn(&LooseDb, &ObjectId) -> bool,
        LooseFind: Fn(&LooseDb, &ObjectId, Vec<u8>) -> Result<Option<Data>, E>,
        Decode: Fn(&Bundle<PackFile>, u64, Vec<u8>, &Never) -> Result<Decoded, E>,
    >(&self, loose_contains: &Contains, loose_find: &LooseFind, decode: &Decode) -> (r: Result<
        ObjectRef<'repo>,
        ExistingError<E>,
    >)
        requires
            loose_total(*loose_contains),
            forall|db: &LooseDb, id: &ObjectId, buf: Vec<u8>| #[trigger]
                call_requires(*loose_find, (db, id, buf)),
            forall|bundle: &Bundle<PackFile>, pack_offset: u64, buf: Vec<u8>, cache: &Never|
                #[trigger] call_requires(*decode, (bundle, pack_offset, buf, cache)),
        ensures
            exists|place: Place, buffer: Vec<u8>, full: Result<Option<(Data, Option<Location>)>, E>|
                placed(self.repo().objects.dbs@, self.id(), *loose_contains, place) && r
                    == existing_object(
                    found_object(self.id(), self.repo(), without_location(full)),
                    self.id(),
                ) && #[trigger] found_as(
                    self.repo().objects.dbs@,
                    place,
                    self.id(),
                    buffer,
                    &Never,
                    *loose_find,
                    *decode,
                    full,
                ),
            forall|loose: spec_fn(LooseDb, ObjectId) -> bool| #[trigger]
                models_loose(*loose_contains, loose) && indices_valid(self.repo().objects.dbs@)
                    ==> exists|
                    buffer: Vec<u8>,
                    full: Result<Option<(Data, Option<Location>)>, E>,
                |
                    r == existing_object(
                        found_object(self.id(), self.repo(), without_location(full)),
                        self.id(),
                    ) && #[trigger] found_as(
                        self.repo().objects.dbs@,
                        place_in(self.repo().objects.dbs@, self.id(), loose),
                        self.id(),
                        buffer,
                        &Never,
                        *loose_find,
                        *decode,
                        full,
                    ),
    {
        let found = self.try_object(loose_contains, loose_find, decode);
        let ghost seen = found;
        let ghost (place, buffer, full) = choose|
            place: Place,
            buffer: Vec<u8>,
            full: Result<Option<(Data, Option<Location>)>, E>,
        |
            placed(self.handle.objects.dbs@, self.inner, *loose_contains, place) && seen
                == found_object(self.inner, self.handle, without_location(full))
                && #[trigger] found_as(
                self.handle.objects.dbs@,
                place,
                self.inner,
                buffer,
                &Never,
                *loose_find,
                *decode,
                full,
            );
        let r = match found {
            Ok(Some(object)) => Ok(object),
            Ok(None) => Err(ExistingError::NotFound { oid: self.inner }),
            Err(err) => Err(ExistingError::Find(err)),
        };
        assert(r == existing_object(seen, self.inner));
        assert(found_as(
            self.handle.objects.dbs@,
            place,
            self.inner,
            buffer,
            &Never,
            *loose_find,
            *decode,
            full,
        ));
        r
    }
}

/// The start of a traversal of the ancestors of a commit.
pub struct Ancestors<'repo> {
    handle: &'repo Handle,
    tips: Vec<ObjectId>,
}

/// A traversal of ancestors that hands out identifiers tied to their
/// repository.
pub struct Iter<'repo, Find, Predicate> {
    handle: &'repo Handle,
    inner: Walk<Find, Predicate>,
}

/// The bytes of the commit that a lookup found; an object of another kind, an
/// absent object and a failed lookup all count as no commit.
pub open spec fn commit_bytes<E>(found: Result<Option<Data>, E>) -> Option<Vec<u8>> {
    match found {
        Ok(Some(data)) => if data.kind == crate::object::Kind::Commit {
            Some(data.data)
        } else {
            None
        },
        _ => None,
    }
}

/// `r` is what looking up the commit `id` in `handle` gives.
pub open spec fn commit_found_as<
    E,
    Contains: Fn(&LooseDb, &ObjectId) -> bool,
    LooseFind: Fn(&LooseDb, &ObjectId, Vec<u8>) -> Result<Option<Data>, E>,
    Decode: Fn(&Bundle<PackFile>, u64, Vec<u8>, &Never) -> Result<Decoded, E>,
>(
    handle: &Handle,
    id: ObjectId,
    buffer: Vec<u8>,
    loose_contains: &Contains,
    loose_find: &LooseFind,
    decode: &Decode,
    r: Option<Vec<u8>>,
) -> bool {
    forall|loose: spec_fn(LooseDb, ObjectId) -> bool| #[trigger]
        models_loose(*loose_contains, loose) && indices_valid(handle.objects.dbs@) ==> exists|
            full: Result<Option<(Data, Option<Location>)>, E>,
        |
            r == commit_bytes(without_location(full)) && #[trigger] found_as(
                handle.objects.dbs@,
                place_in(handle.objects.dbs@, id, loose),
                id,
                buffer,
                        &Never,
                *loose_find,
                *decode,
                full,
            )
}

impl<'repo> Oid<'repo> {
    /// The start of a traversal of the ancestors of this commit.
    pub fn ancestors(&self) -> (r: Ancestors<'repo>)
        ensures
            r.repo() == self.repo(),
            r.tips() == seq![self.id()],
    {
        let mut tips: Vec<ObjectId> = Vec::new();
        tips.push(self.inner);
        assert(tips@ =~= seq![self.inner]);
        Ancestors { handle: self.handle, tips }
    }
}

impl<'repo> Ancestors<'repo> {
    /// The repository in which the traversal looks commits up.
    pub closed spec fn repo(&self) -> &'repo Handle {
        self.handle
    }

    /// The commits from which the traversal starts.
    pub closed spec fn tips(&self) -> Seq<ObjectId> {
        self.tips@
    }

    /// A traversal of all ancestors, the commits of the start included. The
    /// start is used up: a second traversal from here has no tips.
    ///
    /// Commits are looked up in the repository, with the three callbacks for
    /// what is on disk. An object that is no commit, or cannot be read, counts
    /// as missing.
    pub fn all<
        E: 'repo,
        Contains: Fn(&LooseDb, &ObjectId) -> bool + 'repo,
        LooseFind: Fn(&LooseDb, &ObjectId, Vec<u8>) -> Result<Option<Data>, E> + 'repo,
        Decode: Fn(&Bundle<PackFile>, u64, Vec<u8>, &Never) -> Result<Decoded, E> + 'repo,
    >(&mut self, loose_contains: Contains, loose_find: LooseFind, decode: Decode) -> (r: Iter<
        'repo,
        impl Fn(&ObjectId, Vec<u8>) -> Option<Vec<u8>> + 'repo,
        impl Fn(&ObjectId) -> bool + 'repo,
    >)
        requires
            loose_total(loose_contains),
            forall|db: &LooseDb, id: &ObjectId, buf: Vec<u8>| #[trigger]
                call_requires(loose_find, (db, id, buf)),
            forall|bundle: &Bundle<PackFile>, pack_offset: u64, buf: Vec<u8>, cache: &Never|
                #[trigger] call_requires(decode, (bundle, pack_offset, buf, cache)),
        ensures
            final(self).repo() == old(self).repo(),
            final(self).tips() == Seq::<ObjectId>::empty(),
            r.repo() == old(self).repo(),
            r.walk().wf(),
            r.walk().frontier() == initial(old(self).tips(), |id: ObjectId| true),
            models_predicate(r.walk().filter(), |id: ObjectId| true),
            forall|id: ObjectId, buf: Vec<u8>, found: Option<Vec<u8>>| #[trigger]
                call_ensures(r.walk().finder(), (&id, buf), found) ==> commit_found_as(
                    old(self).repo(),
                    id,
                    buf,
                    &loose_contains,
                    &loose_find,
                    &decode,
                    found,
                ),
    {
        let mut tips: Vec<ObjectId> = Vec::new();
        std::mem::swap(&mut tips, &mut self.tips);
        let handle = self.handle;
        let find = move |id: &ObjectId, buf: Vec<u8>| -> (r: Option<Vec<u8>>)
            ensures
                commit_found_as(handle, *id, buf, &loose_contains, &loose_find, &decode, r),
            {
                let found = handle.objects.try_find(id, buf, &loose_contains, &loose_find, &decode);
                let ghost seen = found;
                let r = match found {
                    Ok(Some(data)) => data.try_into_commit_bytes(),
                    _ => None,
                };
                assert(r == commit_bytes(seen));
                r
            };
        Iter { handle, inner: Walk::new(tips, State::new(), find) }
    }
}

impl<'repo, Find, Predicate> Iter<'repo, Find, Predicate> {
    /// The repository to which the identifiers are tied.
    pub closed spec fn repo(&self) -> &'repo Handle {
        self.handle
    }

    /// The traversal that finds the identifiers.
    pub closed spec fn walk(&self) -> Walk<Find, Predicate> {
        self.inner
    }
}

impl<
    'repo,
    Find: Fn(&ObjectId, Vec<u8>) -> Option<Vec<u8>>,
    Predicate: Fn(&ObjectId) -> bool,
> Iter<'repo, Find, Predicate> {
    /// The next commit of the traversal, tied to the repository, or the error
    /// that ends the traversal: what the traversal gives, with the handle of
    /// the repository on each identifier.
    pub fn next(&mut self) -> (r: Option<Result<Oid<'repo>, WalkError>>)
        requires
            old(self).walk().wf(),
        ensures
            final(self).repo() == old(self).repo(),
            final(self).walk().finder() == old(self).walk().finder(),
            final(self).walk().filter() == old(self).walk().filter(),
            final(self).walk().spec_mode() == old(self).walk().spec_mode(),
            final(self).walk().spec_sorting() == old(self).walk().spec_sorting(),
            r == attached(detached(r), old(self).repo()),
            r is None <==> old(self).walk().frontier().queue.len() == 0,
            r is None ==> final(self).walk().frontier() == old(self).walk().frontier(),
            answered(
                old(self).walk().finder(),
                old(self).walk().spec_mode(),
                old(self).walk().spec_sorting(),
                old(self).walk().frontier(),
                detached(r),
                final(self).walk().frontier(),
            ),
            forall|lookup: spec_fn(ObjectId) -> Option<Seq<u8>>, accepts: spec_fn(ObjectId) -> bool|
                #![trigger models_find(old(self).walk().finder(), lookup), models_predicate(old(self).walk().filter(), accepts)]
                models_find(old(self).walk().finder(), lookup) && models_predicate(
                    old(self).walk().filter(),
                    accepts,
                ) ==> (Step { item: detached(r), after: final(self).walk().frontier() }) == step(
                    old(self).walk().frontier(),
                    lookup,
                    accepts,
                    old(self).walk().spec_mode(),
                    old(self).walk().spec_sorting(),
                ),
    {
        match self.inner.next() {
            Some(Ok(id)) => Some(Ok(Oid { inner: id, handle: self.handle })),
            Some(Err(err)) => Some(Err(err)),
            None => None,
        }
    }
}

/// The bare identifier of an item.
pub open spec fn detached<'repo>(item: Option<Result<Oid<'repo>, WalkError>>) -> Option<
    Result<ObjectId, WalkError>,
> {
    match item {
        Some(Ok(oid)) => Some(Ok(oid.id())),
        Some(Err(err)) => Some(Err(err)),
        None => None,
    }
}

/// The identifier of an item tied to `handle`.
pub open spec fn attached<'repo>(
    item: Option<Result<ObjectId, WalkError>>,
    handle: &'repo Handle,
) -> Option<Result<Oid<'repo>, WalkError>> {
    match item {
        Some(Ok(id)) => Some(Ok(Oid::tied(id, handle))),
        Some(Err(err)) => Some(Err(err)),
        None => None,
    }
}

impl<'repo> PartialEq for Oid<'repo> {
    fn eq(&self, other: &Oid<'repo>) -> (r: bool) {
        self.inner == other.inner
    }
}

impl<'repo> PartialEqSpecImpl for Oid<'repo> {
    open spec fn obeys_eq_spec() -> bool {
        true
    }

    open spec fn eq_spec(&self, other: &Oid<'repo>) -> bool {
        self.id()@ == other.id()@
    }
}

impl<'repo> PartialOrd for Oid<'repo> {
    fn partial_cmp(&self, other: &Oid<'repo>) -> (r: Option<Ordering>) {
        self.inner.partial_cmp(&other.inner)
    }
}

impl<'repo> PartialOrdSpecImpl for Oid<'repo> {
    open spec fn obeys_partial_cmp_spec() -> bool {
        true
    }

    open spec fn partial_cmp_spec(&self, other: &Oid<'repo>) -> Option<Ordering> {
        if self.id()@ == other.id()@ {
            Some(Ordering::Equal)
        } else if lex_less(self.id()@, other.id()@) {
            Some(Ordering::Less)
        } else {
            Some(Ordering::Greater)
        }
    }
}

impl<'repo> From<Oid<'repo>> for ObjectId {
    fn from(v: Oid<'repo>) -> (r: ObjectId) {
        v.inner
    }
}

impl<'repo> FromSpecImpl<Oid<'repo>> for ObjectId {
    open spec fn obeys_from_spec() -> bool {
        true
    }

    open spec fn from_spec(v: Oid<'repo>) -> ObjectId {
        v.id()
    }
}

} // verus!

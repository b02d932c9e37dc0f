//! Stores of assets and the handles that refer into them.

use std::collections::HashMap;
use std::marker::PhantomData;
use vstd::prelude::*;

verus! {

/// A reference to an asset of type `T` in an [`Assets`] store.
#[derive(Debug)]
pub struct Handle<T> {
    pub id: u64,
    pub marker: PhantomData<T>,
}

impl<T> Clone for Handle<T> {
    fn clone(&self) -> (handle: Self)
        ensures
            handle.id == self.id,
    {
        Handle { id: self.id, marker: PhantomData }
    }
}

impl<T> Default for Handle<T> {
    /// The handle that refers to nothing, whatever the store.
    fn default() -> (handle: Self)
        ensures
            handle.id == u64::MAX,
    {
        Handle { id: u64::MAX, marker: PhantomData }
    }
}

impl<T> Handle<T> {
    /// The handle with the given id.
    pub fn new(id: u64) -> (handle: Self)
        ensures
            handle.id == id,
    {
        Handle { id, marker: PhantomData }
    }
}

/// What happened to the asset with the id `id`.
#[derive(Clone, Copy, Debug, PartialEq, Eq, Structural)]
pub enum AssetEvent {
    /// The asset came into its store.
    Added { id: u64 },
    /// The asset and everything it depends on finished loading.
    LoadedWithDependencies { id: u64 },
    /// The asset was replaced or changed.
    Modified { id: u64 },
    /// The asset left its store.
    Removed { id: u64 },
    /// The last handle to the asset went away.
    Unused { id: u64 },
}

/// A store of assets of type `T`, each under the id of its handle.
///
/// Ids are issued in order. The store answers only for ids that it has
/// issued, so that a handle that [`add`](Assets::add) returns is new
/// whatever the store held before.
pub struct Assets<T> {
    items: HashMap<u64, T>,
    next_id: u64,
}

impl<T> View for Assets<T> {
    type V = Map<u64, T>;

    closed spec fn view(&self) -> Map<u64, T> {
        Map::new(
            |id: u64| id < self.next_id && self.items@.contains_key(id),
            |id: u64| self.items@[id],
        )
    }
}

impl<T> Assets<T> {
    /// The number of handles that [`add`](Self::add) has issued so far.
    pub closed spec fn issued(&self) -> nat {
        self.next_id as nat
    }

    /// A store holds assets only under ids that it has issued, so what it
    /// holds is never in the way of a handle still to come.
    pub proof fn lemma_keys_were_issued(&self)
        ensures
            forall|id: u64| #[trigger] self@.contains_key(id) ==> id < self.issued(),
            self.issued() <= u64::MAX,
    {
    }

    /// No store holds an asset under the id of the default handle.
    pub proof fn lemma_default_handle_is_free(&self)
        ensures
            !self@.contains_key(u64::MAX),
    {
    }

    /// A store without assets.
    pub fn new() -> (store: Self)
        ensures
            store@ == Map::<u64, T>::empty(),
            store.issued() == 0,
    {
        let store = Assets { items: HashMap::new(), next_id: 0 };
        assert(store@ =~= Map::<u64, T>::empty());
        store
    }

    /// The asset that `handle` refers to, if the store holds one.
    pub fn get(&self, handle: &Handle<T>) -> (asset: Option<&T>)
        ensures
            asset is Some <==> self@.contains_key(handle.id),
            asset matches Some(a) ==> *a == self@[handle.id],
    {
        broadcast use vstd::std_specs::hash::group_hash_axioms;

        if handle.id < self.next_id {
            self.items.get(&handle.id)
        } else {
            None
        }
    }

    /// Whether [`add`](Self::add) can issue another handle.
    pub fn has_room(&self) -> (room: bool)
        ensures
            room == (self.issued() < u64::MAX),
    {
        self.next_id < u64::MAX
    }

    /// The number of handles that [`add`](Self::add) can still issue.
    pub fn room(&self) -> (left: u64)
        ensures
            left == u64::MAX - self.issued(),
    {
        u64::MAX - self.next_id
    }

    /// Takes the asset that `handle` refers to out of the store, if the
    /// store holds one. The handle refers to nothing afterwards, and no
    /// handle issued later will be the same.
    pub fn remove(&mut self, handle: &Handle<T>) -> (asset: Option<T>)
        ensures
            asset is Some <==> old(self)@.contains_key(handle.id),
            asset matches Some(a) ==> a == old(self)@[handle.id],
            final(self)@ == old(self)@.remove(handle.id),
            final(self).issued() == old(self).issued(),
    {
        broadcast use vstd::std_specs::hash::group_hash_axioms;

        if handle.id < self.next_id {
            let asset = self.items.remove(&handle.id);
            assert(self@ =~= old(self)@.remove(handle.id));
            asset
        } else {
            assert(old(self)@.remove(handle.id) =~= old(self)@);
            None
        }
    }

    /// Puts `asset` into the store under a handle that referred to nothing
    /// before.
    pub fn add(&mut self, asset: T) -> (handle: Handle<T>)
        requires
            old(self).issued() < u64::MAX,
        ensures
            !old(self)@.contains_key(handle.id),
            handle.id == old(self).issued(),
            final(self)@ == old(self)@.insert(handle.id, asset),
            final(self).issued() == old(self).issued() + 1,
    {
        broadcast use vstd::std_specs::hash::group_hash_axioms;

        let id = self.next_id;
        self.items.insert(id, asset);
        self.next_id = id + 1;
        assert(self@ =~= old(self)@.insert(id, asset));
        Handle::new(id)
    }

    /// Puts `asset` in the place of the asset that `handle` refers to and
    /// hands the old one back. Where `handle` refers to nothing, the store
    /// stays as it is.
    pub fn replace(&mut self, handle: &Handle<T>, asset: T) -> (previous: Option<T>)
        ensures
            previous is Some <==> old(self)@.contains_key(handle.id),
            previous matches Some(p) ==> p == old(self)@[handle.id],
            final(self)@ == if old(self)@.contains_key(handle.id) {
                old(self)@.insert(handle.id, asset)
            } else {
                old(self)@
            },
            final(self).issued() == old(self).issued(),
    {
        broadcast use vstd::std_specs::hash::group_hash_axioms;

        if handle.id < self.next_id && self.items.contains_key(&handle.id) {
            let previous = self.items.insert(handle.id, asset);
            assert(self@ =~= old(self)@.insert(handle.id, asset));
            previous
        } else {
            None
        }
    }
}

} // verus!

//! The store of shared values and the handles into it.

use crate::model::{
    after_clone, after_construct, after_release, after_write, is_last_share, well_formed, Heap,
    Storage,
};
use core::marker::PhantomData;
use vstd::prelude::*;

verus! {

/// What a live slot of the store holds.
struct Slot<T> {
    value: T,
    shares: usize,
}

/// The storage that handles share.
///
/// Each live cell of the store holds one value and the number of handles that
/// refer to it. The view of a store is the [`Heap`] of its live cells.
pub struct Store<T> {
    /// The cells, live (`Some`) or vacant (`None`).
    slots: Vec<Option<Slot<T>>>,
    /// The vacant slots, each listed once.
    vacant: Vec<usize>,
}

/// A handle to a value that lives in a [`Store`].
///
/// A handle is made by [`Imp::new`] or [`Imp::clone`] and given back by
/// [`Imp::release`]. It is neither `Copy` nor `Clone`, so that every handle
/// is counted by the cell it refers to. A handle that is dropped without
/// being given back keeps its share: the cell then lives as long as the store.
pub struct Imp<T> {
    slot: usize,
    marker: PhantomData<T>,
}

impl<T> View for Store<T> {
    type V = Heap<T>;

    closed spec fn view(&self) -> Heap<T> {
        Map::new(
            |id: nat| id < self.slots@.len() && self.slots@[id as int] is Some,
            |id: nat|
                Storage {
                    value: self.slots@[id as int].unwrap().value,
                    shares: self.slots@[id as int].unwrap().shares as nat,
                },
        )
    }
}

impl<T> Store<T> {
    /// The invariant of a store: a live cell has at least one share, and the
    /// list of vacant slots names each vacant slot, once, and no other.
    pub closed spec fn wf(&self) -> bool {
        &&& forall|i: int|
            0 <= i < self.slots@.len() && self.slots@[i] is Some ==> (
            #[trigger] self.slots@[i]).unwrap().shares >= 1
        &&& forall|k: int|
            0 <= k < self.vacant@.len() ==> (#[trigger] self.vacant@[k]) < self.slots@.len()
                && self.slots@[self.vacant@[k] as int] is None
        &&& forall|j: int, k: int|
            0 <= j < k < self.vacant@.len() ==> self.vacant@[j] != self.vacant@[k]
        &&& forall|i: int|
            0 <= i < self.slots@.len() && (#[trigger] self.slots@[i]) is None ==> exists|k: int|
                0 <= k < self.vacant@.len() && #[trigger] self.vacant@[k] == i
    }

    /// In a store that meets its invariant every live cell has a share.
    pub proof fn live_cells_have_shares(&self)
        requires
            self.wf(),
        ensures
            well_formed(self@),
    {
    }

    /// An empty store.
    pub fn new() -> (store: Self)
        ensures
            store.wf(),
            store@ == Map::<nat, Storage<T>>::empty(),
    {
        let store = Store { slots: Vec::new(), vacant: Vec::new() };
        assert(store@ =~= Map::<nat, Storage<T>>::empty());
        store
    }

    /// Whether `handle` refers to a live cell of this store.
    pub fn holds(&self, handle: &Imp<T>) -> (live: bool)
        ensures
            live == self@.contains_key(handle.id()),
    {
        handle.slot < self.slots.len() && self.slots[handle.slot].is_some()
    }

    /// The number of handles that refer to the cell of `handle`.
    pub fn share_count(&self, handle: &Imp<T>) -> (shares: usize)
        requires
            self@.contains_key(handle.id()),
        ensures
            shares == self@[handle.id()].shares,
    {
        self.slots[handle.slot].as_ref().unwrap().shares
    }
}

impl<T> Imp<T> {
    /// The identity of the cell that the handle refers to.
    pub closed spec fn id(&self) -> nat {
        self.slot as nat
    }

    /// Whether two handles refer to the same cell.
    pub open spec fn same_cell(&self, other: &Self) -> bool {
        self.id() == other.id()
    }

    /// Places `t` in a fresh cell of `store`, with one share, and returns the
    /// handle to it.
    pub fn new(t: T, store: &mut Store<T>) -> (handle: Self)
        requires
            old(store).wf(),
        ensures
            final(store).wf(),
            !old(store)@.contains_key(handle.id()),
            final(store)@ == after_construct(old(store)@, handle.id(), t),
    {
        let cell = Some(Slot { value: t, shares: 1 });
        let slot = match store.vacant.pop() {
            Some(slot) => {
                store.slots[slot] = cell;
                slot
            },
            None => {
                store.slots.push(cell);
                store.slots.len() - 1
            },
        };
        let handle = Imp { slot, marker: PhantomData };
        proof {
            assert(store@ =~= after_construct(old(store)@, handle.id(), t));
            assert forall|i: int|
                0 <= i < store.slots@.len() && (#[trigger] store.slots@[i]) is None implies exists|
                k: int,
            |
                0 <= k < store.vacant@.len() && #[trigger] store.vacant@[k] == i by {
                assert(old(store).slots@[i] is None);
                let k = choose|k: int|
                    0 <= k < old(store).vacant@.len() && #[trigger] old(store).vacant@[k] == i;
                assert(store.vacant@[k] == i);
            }
        }
        handle
    }

    /// Whether two handles refer to the same cell. Handles to equal values in
    /// different cells do not.
    pub fn ptr_eq(this: &Self, other: &Self) -> (same: bool)
        ensures
            same == this.same_cell(other),
    {
        this.slot == other.slot
    }

    /// Another handle to the same cell. The value is neither copied nor
    /// touched; the cell counts one share more.
    pub fn clone(&self, store: &mut Store<T>) -> (handle: Self)
        requires
            old(store).wf(),
            old(store)@.contains_key(self.id()),
            old(store)@[self.id()].shares < usize::MAX,
        ensures
            final(store).wf(),
            handle.same_cell(self),
            final(store)@ == after_clone(old(store)@, self.id()),
    {
        store.slots[self.slot].as_mut().unwrap().shares += 1;
        assert(store@ =~= after_clone(old(store)@, self.id()));
        Imp { slot: self.slot, marker: PhantomData }
    }

    /// Read access to the shared value.
    pub fn deref<'a>(&self, store: &'a Store<T>) -> (value: &'a T)
        requires
            store@.contains_key(self.id()),
        ensures
            *value == store@[self.id()].value,
    {
        &store.slots[self.slot].as_ref().unwrap().value
    }

    /// Write access to the shared value. What the caller leaves behind the
    /// returned reference is what every handle to the cell reads from then on.
    pub fn deref_mut<'a>(&self, store: &'a mut Store<T>) -> (value: &'a mut T)
        requires
            old(store).wf(),
            old(store)@.contains_key(self.id()),
        ensures
            *value == old(store)@[self.id()].value,
            final(store).wf(),
            final(store)@ == after_write(old(store)@, self.id(), *final(value)),
    {
        &mut store.slots[self.slot].as_mut().unwrap().value
    }

    /// Gives the handle back. The last handle to a cell takes the cell with
    /// it: the value is handed to the caller, and the slot becomes vacant.
    pub fn release(self, store: &mut Store<T>) -> (freed: Option<T>)
        requires
            old(store).wf(),
            old(store)@.contains_key(self.id()),
        ensures
            final(store).wf(),
            final(store)@ == after_release(old(store)@, self.id()),
            freed == if is_last_share(old(store)@, self.id()) {
                Some(old(store)@[self.id()].value)
            } else {
                None
            },
    {
        if store.share_count(&self) == 1 {
            let cell = store.slots[self.slot].take().unwrap();
            store.vacant.push(self.slot);
            proof {
                assert(store@ =~= after_release(old(store)@, self.id()));
                assert forall|i: int|
                    0 <= i < store.slots@.len() && (#[trigger] store.slots@[i]) is None implies exists|
                    k: int,
                |
                    0 <= k < store.vacant@.len() && #[trigger] store.vacant@[k] == i by {
                    if i == self.slot {
                        assert(store.vacant@[store.vacant@.len() - 1] == i);
                    } else {
                        assert(old(store).slots@[i] is None);
                        let k = choose|k: int|
                            0 <= k < old(store).vacant@.len() && #[trigger] old(store).vacant@[k]
                                == i;
                        assert(store.vacant@[k] == i);
                    }
                }
            }
            Some(cell.value)
        } else {
            store.slots[self.slot].as_mut().unwrap().shares -= 1;
            assert(store@ =~= after_release(old(store)@, self.id()));
            None
        }
    }
}

} // verus!

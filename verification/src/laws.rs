//! What holds of the operations on handles, taken together.
//!
//! Each statement is over the [`Heap`] that a store is viewed as and the
//! identities of handles, which is what the contracts of the operations
//! themselves speak of.

use crate::handle::Imp;
use crate::model::{
    after_clone, after_construct, after_release, after_releases, after_write, is_last_share, Heap,
    Storage,
};
use vstd::prelude::*;

verus! {

/// A value placed in a fresh cell is the value read from that cell, through a
/// handle that is the only one to it; every other cell is as it was.
pub proof fn construct_then_read<T>(heap: Heap<T>, handle: Imp<T>, value: T)
    requires
        !heap.contains_key(handle.id()),
    ensures
        after_construct(heap, handle.id(), value).contains_key(handle.id()),
        after_construct(heap, handle.id(), value)[handle.id()].value == value,
        after_construct(heap, handle.id(), value)[handle.id()].shares == 1,
        after_construct(heap, handle.id(), value).remove(handle.id()) == heap,
{
    assert(after_construct(heap, handle.id(), value).remove(handle.id()) =~= heap);
}

/// After a handle has been cloned, what is written through the clone is read
/// through the handle it was cloned from, and what is written through that
/// handle is read through the clone.
pub proof fn write_is_seen_through_every_handle<T>(
    heap: Heap<T>,
    handle: Imp<T>,
    clone: Imp<T>,
    value: T,
)
    requires
        heap.contains_key(handle.id()),
        clone.same_cell(&handle),
    ensures
        after_write(after_clone(heap, handle.id()), clone.id(), value)[handle.id()].value
            == value,
        after_write(after_clone(heap, handle.id()), handle.id(), value)[clone.id()].value
            == value,
{
}

/// A handle and its clone refer to the same cell. A handle to a cell that was
/// made afterwards refers to another one, also where both cells hold the same
/// value.
pub proof fn identity_is_not_equality_of_values<T>(
    heap: Heap<T>,
    first: Imp<T>,
    clone: Imp<T>,
    second: Imp<T>,
    value: T,
)
    requires
        clone.same_cell(&first),
        !after_clone(after_construct(heap, first.id(), value), first.id()).contains_key(
            second.id(),
        ),
    ensures
        first.same_cell(&clone),
        !first.same_cell(&second),
        !clone.same_cell(&second),
        ({
            let shared = after_clone(after_construct(heap, first.id(), value), first.id());
            let both = after_construct(shared, second.id(), value);
            both[first.id()].value == both[second.id()].value
        }),
{
}

/// The identities of `handles`, in their order.
pub open spec fn ids_of<T>(handles: Seq<Imp<T>>) -> Seq<nat> {
    Seq::new(handles.len(), |i: int| handles[i].id())
}

/// Handles to one cell may be given back in any order: as long as the cell
/// has shares left, it is live and holds the value it held; once as many
/// handles have been given back as it had shares, it is gone. `handles` are
/// the handles given back, in the order in which that is done.
pub proof fn cell_lives_until_last_release<T>(heap: Heap<T>, id: nat, handles: Seq<Imp<T>>)
    requires
        heap.contains_key(id),
        forall|i: int| 0 <= i < handles.len() ==> (#[trigger] handles[i]).id() == id,
        handles.len() <= heap[id].shares,
    ensures
        handles.len() < heap[id].shares ==> after_releases(heap, ids_of(handles)) == heap.insert(
            id,
            Storage { value: heap[id].value, shares: (heap[id].shares - handles.len()) as nat },
        ),
        0 < handles.len() == heap[id].shares ==> after_releases(heap, ids_of(handles))
            == heap.remove(id),
    decreases handles.len(),
{
    let ids = ids_of(handles);
    if handles.len() == 0 {
        assert(after_releases(heap, ids) =~= heap.insert(
            id,
            Storage { value: heap[id].value, shares: heap[id].shares },
        ));
    } else {
        let earlier = handles.drop_last();
        cell_lives_until_last_release(heap, id, earlier);
        assert(ids.drop_last() =~= ids_of(earlier));
        let before = after_releases(heap, ids.drop_last());
        assert(after_releases(heap, ids) == after_release(before, id));
        if handles.len() < heap[id].shares {
            assert(after_release(before, id) =~= heap.insert(
                id,
                Storage {
                    value: heap[id].value,
                    shares: (heap[id].shares - handles.len()) as nat,
                },
            ));
        } else {
            assert(after_release(before, id) =~= heap.remove(id));
        }
    }
}

/// Of the handles to one cell, exactly the one that is given back last finds
/// the last share, and so takes the value out of the store: the value is
/// handed back once, and only when every handle to the cell has been given
/// back. `handles` are all the handles to the cell, in the order in which
/// they are given back.
pub proof fn value_is_handed_back_once<T>(
    heap: Heap<T>,
    id: nat,
    handles: Seq<Imp<T>>,
    step: int,
)
    requires
        heap.contains_key(id),
        forall|i: int| 0 <= i < handles.len() ==> (#[trigger] handles[i]).id() == id,
        handles.len() == heap[id].shares,
        0 <= step < handles.len(),
    ensures
        after_releases(heap, ids_of(handles.take(step))).contains_key(id),
        after_releases(heap, ids_of(handles.take(step)))[id].value == heap[id].value,
        is_last_share(after_releases(heap, ids_of(handles.take(step))), id) <==> step
            == handles.len() - 1,
{
    cell_lives_until_last_release(heap, id, handles.take(step));
}

/// Cloning a handle makes no cell and copies no value: the heap has the cells
/// it had, each with the value it had, and the cell of the handle counts one
/// share more.
pub proof fn clone_shares_the_storage<T>(heap: Heap<T>, id: nat)
    requires
        heap.contains_key(id),
    ensures
        after_clone(heap, id).dom() == heap.dom(),
        forall|other: nat|
            heap.contains_key(other) ==> (#[trigger] after_clone(heap, id)[other]).value
                == heap[other].value,
        after_clone(heap, id)[id].shares == heap[id].shares + 1,
        forall|other: nat|
            heap.contains_key(other) && other != id ==> (#[trigger] after_clone(
                heap,
                id,
            )[other]).shares == heap[other].shares,
{
    assert(after_clone(heap, id).dom() =~= heap.dom());
}

} // verus!

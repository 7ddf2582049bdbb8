//! The mathematical model: a heap of storage cells, and what each operation
//! on a handle does to it.

use vstd::prelude::*;

verus! {

/// One storage cell: the value that its handles share, and how many handles
/// refer to it.
pub struct Storage<T> {
    pub value: T,
    pub shares: nat,
}

/// The live storage cells, by identity.
pub type Heap<T> = Map<nat, Storage<T>>;

/// Every live cell is referred to by at least one handle.
pub open spec fn well_formed<T>(heap: Heap<T>) -> bool {
    forall|id: nat| heap.contains_key(id) ==> (#[trigger] heap[id]).shares >= 1
}

/// The heap after `value` has been placed in a fresh cell `id`, with one share.
pub open spec fn after_construct<T>(heap: Heap<T>, id: nat, value: T) -> Heap<T> {
    heap.insert(id, Storage { value, shares: 1 })
}

/// The heap after a handle to the cell `id` has been cloned: one share more,
/// the value untouched.
pub open spec fn after_clone<T>(heap: Heap<T>, id: nat) -> Heap<T> {
    heap.insert(id, Storage { value: heap[id].value, shares: heap[id].shares + 1 })
}

/// The heap after `value` has been written to the cell `id`.
pub open spec fn after_write<T>(heap: Heap<T>, id: nat, value: T) -> Heap<T> {
    heap.insert(id, Storage { value, shares: heap[id].shares })
}

/// Whether the cell `id` has a single share left, so that giving back one
/// handle to it destroys the cell.
pub open spec fn is_last_share<T>(heap: Heap<T>, id: nat) -> bool {
    heap[id].shares == 1
}

/// The heap after one handle to the cell `id` has been given back: the cell is
/// gone if that was its last share, and has one share less otherwise.
pub open spec fn after_release<T>(heap: Heap<T>, id: nat) -> Heap<T> {
    if is_last_share(heap, id) {
        heap.remove(id)
    } else {
        heap.insert(id, Storage { value: heap[id].value, shares: (heap[id].shares - 1) as nat })
    }
}

/// The heap after one handle to each of the cells `ids` has been given back,
/// in the order of `ids`. A cell may be named more than once.
pub open spec fn after_releases<T>(heap: Heap<T>, ids: Seq<nat>) -> Heap<T>
    decreases ids.len(),
{
    if ids.len() == 0 {
        heap
    } else {
        after_release(after_releases(heap, ids.drop_last()), ids.last())
    }
}

} // verus!

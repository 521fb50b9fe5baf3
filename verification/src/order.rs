//! The ordering discipline of the queue engines, and its delivery laws.
//!
//! Elements are always pushed at the tail of a sequence; the direction
//! flag only selects which end a pop reads from (FIFO: the head, LIFO: the
//! tail). Both the value queue and the key-value queue deliver under these
//! functions, and the laws proved here hold for any element type.

use vstd::prelude::*;

verus! {

// ---------------------------------------------------------------------------
// The ordering discipline
// ---------------------------------------------------------------------------

/// The element the next pop yields; meaningful only for a non-empty queue.
pub open spec fn front_of<T>(items: Seq<T>, fifo: bool) -> T {
    if fifo {
        items[0]
    } else {
        items[items.len() - 1]
    }
}

/// What remains after one pop; meaningful only for a non-empty queue.
pub open spec fn popped<T>(items: Seq<T>, fifo: bool) -> Seq<T> {
    if fifo {
        items.drop_first()
    } else {
        items.drop_last()
    }
}

/// The element at zero-based offset `i` from the pop end, read without
/// popping; meaningful only for `0 <= i < items.len()`.
pub open spec fn peek_at<T>(items: Seq<T>, fifo: bool, i: int) -> T {
    if fifo {
        items[i]
    } else {
        items[items.len() - 1 - i]
    }
}

/// What remains after `n` pops; popping an empty queue changes nothing.
pub open spec fn pop_n<T>(items: Seq<T>, fifo: bool, n: nat) -> Seq<T>
    decreases n,
{
    if n == 0 || items.len() == 0 {
        items
    } else {
        pop_n(popped(items, fifo), fifo, (n - 1) as nat)
    }
}

/// The `n` elements that `n` pops yield, in pop order; meaningful only for
/// `n <= items.len()`.
pub open spec fn pops_list<T>(items: Seq<T>, fifo: bool, n: nat) -> Seq<T> {
    Seq::new(n, |i: int| peek_at(items, fifo, i))
}

// ---------------------------------------------------------------------------
// The delivery laws
// ---------------------------------------------------------------------------

/// `n` pops take `n` elements off a queue that holds at least `n`: after
/// `n` pushes onto a queue of `c` elements and `m <= c + n` pops, the count
/// is `c + n - m`.
pub proof fn lemma_pop_n_len<T>(items: Seq<T>, fifo: bool, n: nat)
    requires
        n <= items.len(),
    ensures
        pop_n(items, fifo, n).len() == items.len() - n,
    decreases n,
{
    if n > 0 {
        lemma_pop_n_len(popped(items, fifo), fifo, (n - 1) as nat);
    }
}

/// Popping once more pops off what `n` pops left over.
pub proof fn lemma_pop_n_step<T>(items: Seq<T>, fifo: bool, n: nat)
    requires
        n < items.len(),
    ensures
        pop_n(items, fifo, n + 1) == popped(pop_n(items, fifo, n), fifo),
    decreases n,
{
    let rest = popped(items, fifo);
    if n == 0 {
        assert(pop_n(items, fifo, 1) == pop_n(rest, fifo, 0));
    } else {
        lemma_pop_n_step(rest, fifo, (n - 1) as nat);
        assert(pop_n(items, fifo, n + 1) == pop_n(rest, fifo, n));
        assert(pop_n(items, fifo, n) == pop_n(rest, fifo, (n - 1) as nat));
    }
}

/// The count after pushes and pops: pushing the elements of `pushes` onto
/// `items` and then popping `m` times leaves `items.len() + pushes.len() -
/// m` elements, whichever direction the queue delivers in.
pub proof fn lemma_count_after_pushes_and_pops<T>(
    items: Seq<T>,
    pushes: Seq<T>,
    fifo: bool,
    m: nat,
)
    requires
        m <= items.len() + pushes.len(),
    ensures
        pop_n(items + pushes, fifo, m).len() == items.len() + pushes.len() - m,
{
    lemma_pop_n_len(items + pushes, fifo, m);
}

/// First in, first out: pushing `v1` then `v2` onto an empty FIFO queue
/// and popping twice yields `v1` then `v2`, in that order, and leaves the
/// queue empty.
pub proof fn lemma_fifo_two<T>(v1: T, v2: T)
    ensures
        ({
            let q = Seq::<T>::empty().push(v1).push(v2);
            front_of(q, true) == v1 && front_of(popped(q, true), true) == v2 && popped(
                popped(q, true),
                true,
            ).len() == 0
        }),
{
    let q = Seq::<T>::empty().push(v1).push(v2);
    assert(q.len() == 2 && q[0] == v1 && q[1] == v2);
    assert(popped(q, true)[0] == q[1]);
}

/// Last in, first out: pushing `v1` then `v2` onto any LIFO queue and
/// popping twice yields `v2` then `v1`, in that order.
pub proof fn lemma_lifo_two<T>(items: Seq<T>, v1: T, v2: T)
    ensures
        ({
            let q = items.push(v1).push(v2);
            front_of(q, false) == v2 && front_of(popped(q, false), false) == v1 && popped(
                popped(q, false),
                false,
            ) == items
        }),
{
    let q = items.push(v1).push(v2);
    assert(q[q.len() - 1] == v2);
    assert(popped(q, false) =~= items.push(v1));
    assert(popped(popped(q, false), false) =~= items);
}

/// A positional peek reads without popping: `peek_at(items, fifo, i)` is
/// the element that the pop after `i` earlier pops would yield.
pub proof fn lemma_element_is_later_pop<T>(items: Seq<T>, fifo: bool, i: int)
    requires
        0 <= i < items.len(),
    ensures
        peek_at(items, fifo, i) == front_of(pop_n(items, fifo, i as nat), fifo),
    decreases i,
{
    if i == 0 {
        assert(pop_n(items, fifo, 0) == items);
    } else {
        let rest = popped(items, fifo);
        assert(peek_at(items, fifo, i) == peek_at(rest, fifo, i - 1));
        lemma_element_is_later_pop(rest, fifo, i - 1);
        assert(pop_n(items, fifo, i as nat) == pop_n(rest, fifo, (i - 1) as nat));
    }
}

} // verus!

//! Fixed-capacity FIFO ring buffer.
//!
//! The buffer is seen as the sequence of its queued elements, oldest first.
//! `write` and `read` are `queue_write` and `queue_read` on that sequence;
//! the laws at the end of the file say what follows for any run of writes
//! and reads.

use vstd::prelude::*;
use vstd::arithmetic::div_mod::{lemma_mod_add_multiples_vanish, lemma_small_mod};

verus! {

/// Index of the `k`-th queued element in a store of `cap` slots whose oldest
/// element sits at `ptr`.
pub open spec fn slot(ptr: int, k: int, cap: int) -> int {
    (ptr + k) % cap
}

/// The queue after a write of `dat`: a full queue rejects it.
pub open spec fn queue_write<T>(queue: Seq<T>, capacity: nat, dat: T) -> Seq<T> {
    if queue.len() < capacity {
        queue.push(dat)
    } else {
        queue
    }
}

/// The queue after a read: the oldest element has left, if there was one.
pub open spec fn queue_read<T>(queue: Seq<T>) -> Seq<T> {
    if queue.len() > 0 {
        queue.skip(1)
    } else {
        queue
    }
}

/// A FIFO queue over a backing store whose size never changes.
///
/// The occupied slots are `[ptr, ptr + len)` modulo the capacity.
pub struct CyclicBuffer<T: Copy> {
    data: Vec<T>,
    ptr: usize,
    len: usize,
}

impl<T: Copy> View for CyclicBuffer<T> {
    type V = Seq<T>;

    /// The queued elements, oldest first: `count` slots of the store, from
    /// the cursor on and around its end.
    open spec fn view(&self) -> Seq<T> {
        Seq::new(
            self.count(),
            |k: int| self.store()[slot(self.cursor() as int, k, self.store().len() as int)],
        )
    }
}

impl<T: Copy> CyclicBuffer<T> {
    #[verifier::type_invariant]
    closed spec fn inv(&self) -> bool {
        &&& self.len <= self.data@.len()
        &&& self.data@.len() == 0 ==> self.ptr == 0
        &&& self.data@.len() > 0 ==> self.ptr < self.data@.len()
    }

    /// The read cursor: the slot of the oldest element.
    pub closed spec fn cursor(&self) -> nat {
        self.ptr as nat
    }

    /// The backing store, slot by slot, queued or not.
    pub closed spec fn store(&self) -> Seq<T> {
        self.data@
    }

    /// Number of queued elements.
    pub closed spec fn count(&self) -> nat {
        self.len as nat
    }

    /// Number of elements the buffer can hold: the slots of the store.
    pub open spec fn spec_capacity(&self) -> nat {
        self.store().len()
    }

    /// An empty buffer over `data`; its capacity is `data.len()`.
    pub fn new(data: Vec<T>) -> (buf: Self)
        ensures
            buf@ == Seq::<T>::empty(),
            buf.cursor() == 0,
            buf.store() == data@,
    {
        let buf = CyclicBuffer { data, ptr: 0, len: 0 };
        assert(buf@ =~= Seq::<T>::empty());
        buf
    }

    /// The read cursor. It lies inside the store, and at 0 where the store
    /// has no slot.
    pub fn ptr(&self) -> (p: usize)
        ensures
            p == self.cursor(),
            p < self.spec_capacity() || p == 0,
    {
        proof {
            use_type_invariant(self);
        }
        self.ptr
    }

    /// The backing store.
    pub fn data(&self) -> (store: &Vec<T>)
        ensures
            store@ == self.store(),
    {
        &self.data
    }

    /// Number of elements the buffer can hold.
    pub fn capacity(&self) -> (n: usize)
        ensures
            n == self.spec_capacity(),
    {
        self.data.len()
    }

    /// Number of queued elements; never more than the capacity.
    pub fn len(&self) -> (n: usize)
        ensures
            n == self@.len(),
            n <= self.spec_capacity(),
    {
        proof {
            use_type_invariant(self);
        }
        self.len
    }

    /// Whether nothing is queued.
    pub fn is_empty(&self) -> (b: bool)
        ensures
            b == (self@.len() == 0),
    {
        self.len == 0
    }

    /// Whether nothing is queued: `is_empty` under its short name.
    pub fn empty(&self) -> (b: bool)
        ensures
            b == (self@.len() == 0),
    {
        self.is_empty()
    }

    /// Appends `dat` unless the buffer is full; a full buffer is left
    /// untouched and `false` is returned.
    pub fn write(&mut self, dat: T) -> (ok: bool)
        ensures
            ok == (old(self)@.len() < old(self).spec_capacity()),
            final(self)@ == queue_write(old(self)@, old(self).spec_capacity(), dat),
            ok ==> final(self).cursor() == old(self).cursor() && final(self).store() == old(
                self,
            ).store().update(
                slot(
                    old(self).cursor() as int,
                    old(self)@.len() as int,
                    old(self).spec_capacity() as int,
                ),
                dat,
            ),
            !ok ==> *final(self) == *old(self),
            final(self).spec_capacity() == old(self).spec_capacity(),
    {
        proof {
            use_type_invariant(&*self);
        }
        let cap = self.data.len();
        if self.len >= cap {
            false
        } else {
            let i = if self.len < cap - self.ptr {
                self.ptr + self.len
            } else {
                self.len - (cap - self.ptr)
            };
            let ghost before = *self;
            proof {
                lemma_wrap(self.ptr + self.len, cap as int);
            }
            self.data[i] = dat;
            self.len = self.len + 1;
            proof {
                assert forall|k: int| 0 <= k < before.len implies #[trigger] slot(
                    before.ptr as int,
                    k,
                    cap as int,
                ) != i by {
                    lemma_slots_distinct(before.ptr as int, k, before.len as int, cap as int);
                }
                assert(self@ =~= before@.push(dat));
            }
            true
        }
    }

    /// Removes and returns the oldest element, or returns `None` from an
    /// empty buffer, which is left untouched.
    pub fn read(&mut self) -> (res: Option<T>)
        ensures
            old(self)@.len() == 0 ==> res is None && *final(self) == *old(self),
            old(self)@.len() > 0 ==> res == Some(old(self)@[0]),
            old(self)@.len() > 0 ==> final(self).cursor() == slot(
                old(self).cursor() as int,
                1,
                old(self).spec_capacity() as int,
            ),
            final(self)@ == queue_read(old(self)@),
            final(self).store() == old(self).store(),
    {
        proof {
            use_type_invariant(&*self);
        }
        if self.len == 0 {
            None
        } else {
            let cap = self.data.len();
            let ghost before = *self;
            proof {
                lemma_wrap(self.ptr as int, cap as int);
                lemma_wrap(self.ptr + 1, cap as int);
            }
            let res = Some(self.data[self.ptr]);
            self.len = self.len - 1;
            self.ptr = if self.ptr + 1 < cap {
                self.ptr + 1
            } else {
                0
            };
            proof {
                assert forall|k: int| 0 <= k < self.len implies slot(
                    self.ptr as int,
                    k,
                    cap as int,
                ) == #[trigger] slot(before.ptr as int, k + 1, cap as int) by {
                    lemma_wrap(self.ptr + k, cap as int);
                    lemma_wrap(before.ptr + k + 1, cap as int);
                }
                assert(self@ =~= before@.skip(1));
            }
            res
        }
    }

    /// The oldest element, if any; the buffer is not changed.
    pub fn peek(&self) -> (res: Option<T>)
        ensures
            self@.len() == 0 ==> res is None,
            self@.len() > 0 ==> res == Some(self@[0]),
    {
        proof {
            use_type_invariant(self);
        }
        if self.len == 0 {
            None
        } else {
            proof {
                lemma_wrap(self.ptr as int, self.data@.len() as int);
            }
            Some(self.data[self.ptr])
        }
    }
}

/// Reduction modulo `cap` of a value below `2 * cap` is one conditional
/// subtraction.
proof fn lemma_wrap(x: int, cap: int)
    requires
        0 <= x < 2 * cap,
    ensures
        x % cap == if x < cap {
            x
        } else {
            x - cap
        },
{
    if x < cap {
        lemma_small_mod(x as nat, cap as nat);
    } else {
        lemma_mod_add_multiples_vanish(x - cap, cap);
        lemma_small_mod((x - cap) as nat, cap as nat);
    }
}

/// Two different offsets below the capacity land in different slots.
proof fn lemma_slots_distinct(ptr: int, j: int, k: int, cap: int)
    requires
        0 <= ptr < cap,
        0 <= j < k < cap,
    ensures
        slot(ptr, j, cap) != slot(ptr, k, cap),
{
    lemma_wrap(ptr + j, cap);
    lemma_wrap(ptr + k, cap);
}

/// An operation on a queue.
pub enum QueueOp<T> {
    Write(T),
    Read,
}

/// What one read yields: the oldest element, or nothing from an empty
/// queue.
pub open spec fn read_yield<T>(queue: Seq<T>) -> Seq<T> {
    if queue.len() > 0 {
        seq![queue[0]]
    } else {
        Seq::<T>::empty()
    }
}

/// The queue after the operations `ops`, and the elements that the reads
/// among them have yielded, in order.
pub open spec fn queue_run<T>(queue: Seq<T>, capacity: nat, ops: Seq<QueueOp<T>>) -> (
    Seq<T>,
    Seq<T>,
)
    decreases ops.len(),
{
    if ops.len() == 0 {
        (queue, Seq::<T>::empty())
    } else {
        match ops[0] {
            QueueOp::Write(dat) => queue_run(
                queue_write(queue, capacity, dat),
                capacity,
                ops.skip(1),
            ),
            QueueOp::Read => {
                let rest = queue_run(queue_read(queue), capacity, ops.skip(1));
                (rest.0, read_yield(queue) + rest.1)
            },
        }
    }
}

/// First in, first out. Whatever writes and reads follow, the elements
/// that were queued come out first and in the order in which they were
/// queued: what the reads have yielded, followed by what is still queued,
/// begins with the queue as it was.
pub proof fn lemma_fifo<T>(queue: Seq<T>, capacity: nat, ops: Seq<QueueOp<T>>)
    requires
        queue.len() <= capacity,
    ensures
        queue_run(queue, capacity, ops).0.len() <= capacity,
        queue.is_prefix_of(queue_run(queue, capacity, ops).1 + queue_run(queue, capacity, ops).0),
    decreases ops.len(),
{
    if ops.len() > 0 {
        match ops[0] {
            QueueOp::Write(dat) => {
                lemma_fifo(queue_write(queue, capacity, dat), capacity, ops.skip(1));
            },
            QueueOp::Read => {
                lemma_fifo(queue_read(queue), capacity, ops.skip(1));
                let rest = queue_run(queue_read(queue), capacity, ops.skip(1));
                let all = read_yield(queue) + rest.1 + rest.0;
                assert(read_yield(queue) + rest.1 + rest.0 =~= read_yield(queue) + (rest.1
                    + rest.0));
                assert forall|i: int| 0 <= i < queue.len() implies queue[i] == all[i] by {
                    if i >= 1 {
                        assert(queue[i] == queue_read(queue)[i - 1]);
                        assert(all[i] == (rest.1 + rest.0)[i - 1]);
                    }
                }
            },
        }
    }
}

/// A written element comes out behind the elements that were queued before
/// it: where there was room for `dat`, the reads that follow yield the old
/// elements and then `dat`, whatever is written in between.
pub proof fn lemma_written_is_read<T>(queue: Seq<T>, capacity: nat, dat: T, ops: Seq<QueueOp<T>>)
    requires
        queue.len() < capacity,
    ensures
        ({
            let after = queue_run(queue_write(queue, capacity, dat), capacity, ops);
            &&& after.1.len() + after.0.len() > queue.len()
            &&& (after.1 + after.0)[queue.len() as int] == dat
        }),
{
    let written = queue.push(dat);
    lemma_fifo(written, capacity, ops);
    let after = queue_run(written, capacity, ops);
    assert(written[queue.len() as int] == (after.1 + after.0)[queue.len() as int]);
}

} // verus!

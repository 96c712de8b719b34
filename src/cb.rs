use vstd::prelude::*;

verus! {

/// The contents of a buffer with room for `cap` items after `x` is pushed
/// onto contents `s`: once full, the oldest item is dropped.
pub open spec fn push_bounded<T>(s: Seq<T>, cap: nat, x: T) -> Seq<T> {
    if s.len() < cap {
        s.push(x)
    } else {
        s.push(x).drop_first()
    }
}

/// The contents after pushing each item of `xs`, in order, onto `s`.
pub open spec fn push_all<T>(s: Seq<T>, cap: nat, xs: Seq<T>) -> Seq<T>
    decreases xs.len(),
{
    if xs.len() == 0 {
        s
    } else {
        push_bounded(push_all(s, cap, xs.drop_last()), cap, xs.last())
    }
}

/// Oldest-first order of a storage vector whose next write goes to `slot`:
/// when the storage is full, the items from `slot` on are the older ones.
pub open spec fn ordered<T>(storage: Seq<T>, slot: nat, cap: nat) -> Seq<T> {
    if storage.len() < cap {
        storage
    } else {
        storage.subrange(slot as int, storage.len() as int) + storage.subrange(0, slot as int)
    }
}

/// Generic circular buffer where the oldest elements are overwritten by
/// the new ones.
///
/// Its view is the sequence of held items, oldest first.
pub struct CircularBuffer<T> {
    /// Storage, in slot order
    buffer: Vec<T>,
    /// Slot that the next push writes once the buffer is full
    write_index: usize,
    /// Maximum number of items held
    cap: usize,
}

impl<T> View for CircularBuffer<T> {
    type V = Seq<T>;

    closed spec fn view(&self) -> Seq<T> {
        ordered(self.buffer@, self.write_index as nat, self.cap as nat)
    }
}

impl<T> CircularBuffer<T> {
    #[verifier::type_invariant]
    spec fn well_formed(&self) -> bool {
        &&& 0 < self.cap
        &&& self.buffer.len() <= self.cap
        &&& self.write_index < self.cap
        &&& self.buffer.len() < self.cap ==> self.write_index == self.buffer.len()
    }

    /// Maximum number of items the buffer holds.
    pub closed spec fn cap(&self) -> nat {
        self.cap as nat
    }

    /// Slot of the storage that the next push overwrites once full.
    pub closed spec fn slot(&self) -> nat {
        self.write_index as nat
    }

    /// Constructs a new instance of [`CircularBuffer`]; a zero capacity is
    /// refused.
    pub fn new(capacity: usize) -> (r: Option<Self>)
        ensures
            r is Some <==> capacity > 0,
            r matches Some(b) ==> b@ == Seq::<T>::empty() && b.cap() == capacity,
    {
        if capacity == 0 {
            return None;
        }
        Some(CircularBuffer { buffer: Vec::with_capacity(capacity), write_index: 0, cap: capacity })
    }

    /// Returns the buffer capacity
    pub fn capacity(&self) -> (r: usize)
        ensures
            r == self.cap(),
            r > 0,
            self@.len() <= r,
    {
        proof {
            use_type_invariant(self);
        }
        self.cap
    }

    /// Returns the buffer length
    pub fn len(&self) -> (r: usize)
        ensures
            r == self@.len(),
            r <= self.cap(),
    {
        proof {
            use_type_invariant(self);
        }
        self.buffer.len()
    }

    /// Returns true if the buffer is empty
    pub fn is_empty(&self) -> (r: bool)
        ensures
            r == (self@.len() == 0),
    {
        proof {
            use_type_invariant(self);
        }
        self.buffer.len() == 0
    }

    /// The storage in slot order; once the buffer has wrapped this differs
    /// from insertion order.
    pub fn buffer(&self) -> (r: &Vec<T>)
        ensures
            self@ == ordered(r@, self.slot(), self.cap()),
            r@.len() == self@.len(),
            self@.len() <= self.cap(),
            self.slot() < self.cap(),
    {
        proof {
            use_type_invariant(self);
        }
        &self.buffer
    }

    /// Push an element into the buffer
    pub fn push(&mut self, element: T)
        ensures
            old(self)@.len() <= old(self).cap(),
            final(self)@ == push_bounded(old(self)@, old(self).cap(), element),
            final(self).cap() == old(self).cap(),
    {
        proof {
            use_type_invariant(&*self);
        }
        let cap = self.cap;
        let mut taken = CircularBuffer { buffer: Vec::new(), write_index: 0, cap };
        std::mem::swap(self, &mut taken);
        let CircularBuffer { mut buffer, write_index, cap } = taken;
        let len = buffer.len();
        if len < cap {
            buffer.push(element);
        } else {
            buffer.set(write_index, element);
        }
        let next = if write_index + 1 == cap {
            0
        } else {
            write_index + 1
        };
        proof {
            let s = old(self)@;
            let b = buffer@;
            if len < cap {
                assert(s =~= old(self).buffer@);
                if len + 1 == cap {
                    assert(ordered(b, next as nat, cap as nat) =~= b);
                }
            } else {
                let w = write_index as int;
                assert(ordered(b, next as nat, cap as nat) =~= s.push(element).drop_first());
            }
        }
        *self = CircularBuffer { buffer, write_index: next, cap };
    }

    /// Empties the buffer; the capacity is kept.
    pub fn reset(&mut self)
        ensures
            final(self)@ == Seq::<T>::empty(),
            final(self).cap() == old(self).cap(),
    {
        proof {
            use_type_invariant(&*self);
        }
        *self = CircularBuffer { buffer: Vec::new(), write_index: 0, cap: self.cap };
    }
}

impl<T: Clone> CircularBuffer<T> {
    /// Clones and returns a new instance of [`CircularBuffer`] whose storage
    /// is in write order: the oldest item sits in the first slot.
    pub fn ordered_clone(&self) -> (r: Self)
        ensures
            r.cap() == self.cap(),
            r@.len() == self@.len(),
            forall|i: int| 0 <= i < self@.len() ==> cloned::<T>(self@[i], #[trigger] r@[i]),
            r.slot() == if self@.len() < self.cap() { self@.len() } else { 0 },
    {
        proof {
            use_type_invariant(self);
        }
        let cap = self.cap;
        let len = self.buffer.len();
        let start = if len < cap {
            0
        } else {
            self.write_index
        };
        let mut out: Vec<T> = Vec::with_capacity(cap);
        let mut i: usize = 0;
        while i < len
            invariant
                len == self.buffer@.len(),
                len <= cap,
                cap == self.cap,
                start < cap,
                len < cap ==> start == 0,
                len == cap ==> start == self.write_index,
                self@ == ordered(self.buffer@, self.write_index as nat, cap as nat),
                i <= len,
                out@.len() == i,
                forall|k: int| 0 <= k < i ==> cloned::<T>(self@[k], #[trigger] out@[k]),
            decreases len - i,
        {
            let j = if i < len - start {
                start + i
            } else {
                i - (len - start)
            };
            proof {
                if len == cap {
                    assert(self@[i as int] == self.buffer@[j as int]);
                } else {
                    assert(self@[i as int] == self.buffer@[j as int]);
                }
            }
            out.push(self.buffer[j].clone());
            i += 1;
        }
        let next = if len < cap {
            len
        } else {
            0
        };
        let r = CircularBuffer { buffer: out, write_index: next, cap };
        proof {
            assert(r@ =~= out@);
        }
        r
    }
}

impl<T: Clone> Clone for CircularBuffer<T> {
    /// A clone holds the same items; its storage starts at the oldest one.
    fn clone(&self) -> (r: Self)
        ensures
            r.cap() == self.cap(),
            r@.len() == self@.len(),
            forall|i: int| 0 <= i < self@.len() ==> cloned::<T>(self@[i], #[trigger] r@[i]),
    {
        self.ordered_clone()
    }
}

/// Whatever is pushed into an empty buffer of capacity `cap`, it then holds
/// the `min(n, cap)` most recent of the `n` pushed items, oldest first.
pub proof fn lemma_push_all_keeps_latest<T>(cap: nat, xs: Seq<T>)
    requires
        cap > 0,
    ensures
        push_all(Seq::<T>::empty(), cap, xs).len() == if xs.len() < cap { xs.len() } else { cap },
        push_all(Seq::<T>::empty(), cap, xs) =~= xs.subrange(
            xs.len() - (if xs.len() < cap { xs.len() } else { cap }),
            xs.len() as int,
        ),
    decreases xs.len(),
{
    if xs.len() > 0 {
        lemma_push_all_keeps_latest(cap, xs.drop_last());
        let n = xs.len();
        let prev = push_all(Seq::<T>::empty(), cap, xs.drop_last());
        if n - 1 < cap {
            assert(prev.push(xs.last()) =~= xs.subrange(0, n as int));
        } else {
            assert(prev.push(xs.last()).drop_first() =~= xs.subrange(n - cap, n as int));
        }
    }
}

/// A snapshot of a buffer filled from empty by pushing `xs` holds clones of
/// the `min(n, cap)` most recent of the `n` pushed items, oldest first,
/// whatever order the storage keeps them in.
pub proof fn lemma_snapshot_of_pushes<T: Clone>(cap: nat, xs: Seq<T>, snapshot: Seq<T>)
    requires
        cap > 0,
        snapshot.len() == push_all(Seq::<T>::empty(), cap, xs).len(),
        forall|i: int|
            0 <= i < snapshot.len() ==> cloned::<T>(
                push_all(Seq::<T>::empty(), cap, xs)[i],
                #[trigger] snapshot[i],
            ),
    ensures
        snapshot.len() == if xs.len() < cap { xs.len() } else { cap },
        forall|i: int|
            0 <= i < snapshot.len() ==> cloned::<T>(
                xs[xs.len() - snapshot.len() + i],
                #[trigger] snapshot[i],
            ),
{
    lemma_push_all_keeps_latest(cap, xs);
    let kept = push_all(Seq::<T>::empty(), cap, xs);
    assert forall|i: int| 0 <= i < snapshot.len() implies cloned::<T>(
        xs[xs.len() - snapshot.len() + i],
        #[trigger] snapshot[i],
    ) by {
        assert(kept[i] == xs[xs.len() - snapshot.len() + i]);
    }
}

} // verus!

//! A double-ended queue with a fixed capacity that, when full, drops the
//! element at the opposite end to make room.

use vstd::prelude::*;

verus! {

/// A vector with a constant maximum size that, if full, keeps its elements in
/// a loop: pushing at one end drops the element at the other.
#[derive(Clone, Debug)]
pub struct CircularVecDeque<T> {
    capacity: usize,
    vec: Vec<T>,
}

impl<T> View for CircularVecDeque<T> {
    type V = Seq<T>;

    closed spec fn view(&self) -> Seq<T> {
        self.vec@
    }
}

impl<T> CircularVecDeque<T> {
    /// The fixed capacity the queue was created with.
    pub closed spec fn spec_capacity(self) -> usize {
        self.capacity
    }

    /// An empty queue with the given capacity.
    pub fn new(capacity: usize) -> (r: Self)
        ensures
            r@ == Seq::<T>::empty(),
            r.spec_capacity() == capacity,
    {
        let vec = Vec::with_capacity(capacity);
        Self { capacity, vec }
    }

    /// Whether the queue holds no elements.
    pub fn is_empty(&self) -> (r: bool)
        ensures
            r == (self@.len() == 0),
    {
        self.vec.is_empty()
    }

    /// The number of elements currently held.
    pub fn len(&self) -> (r: usize)
        ensures
            r == self@.len(),
    {
        self.vec.len()
    }

    /// Whether the queue holds exactly its capacity.
    pub fn is_full(&self) -> (r: bool)
        ensures
            r == (self@.len() == self.spec_capacity()),
    {
        self.vec.len() == self.capacity
    }

    /// Push a new element at the front; if the queue is full, the last
    /// element is dropped.
    pub fn push_front(&mut self, value: T)
        ensures
            final(self).spec_capacity() == old(self).spec_capacity(),
            final(self)@ == seq![value] + (if old(self)@.len() == old(self).spec_capacity()
                && old(self)@.len() > 0 {
                old(self)@.drop_last()
            } else {
                old(self)@
            }),
    {
        if self.is_full() {
            self.pop_back();
        }
        self.vec.insert(0, value);
        proof {
            if old(self)@.len() == old(self).spec_capacity() && old(self)@.len() > 0 {
                assert(self@ =~= seq![value] + old(self)@.drop_last());
            } else {
                assert(self@ =~= seq![value] + old(self)@);
            }
        }
    }

    /// Push a new element at the back; if the queue is full, the first
    /// element is dropped.
    pub fn push_back(&mut self, value: T)
        ensures
            final(self).spec_capacity() == old(self).spec_capacity(),
            final(self)@ == (if old(self)@.len() == old(self).spec_capacity() && old(self)@.len()
                > 0 {
                old(self)@.drop_first()
            } else {
                old(self)@
            }) + seq![value],
    {
        if self.is_full() {
            self.pop_front();
        }
        self.vec.push(value);
        proof {
            if old(self)@.len() == old(self).spec_capacity() && old(self)@.len() > 0 {
                assert(self@ =~= old(self)@.drop_first() + seq![value]);
            } else {
                assert(self@ =~= old(self)@ + seq![value]);
            }
        }
    }

    /// Pop the first element, if any.
    pub fn pop_front(&mut self) -> (r: Option<T>)
        ensures
            final(self).spec_capacity() == old(self).spec_capacity(),
            match r {
                Some(v) => old(self)@.len() > 0 && v == old(self)@[0] && final(self)@ == old(
                    self,
                )@.drop_first(),
                None => old(self)@.len() == 0 && final(self)@ == old(self)@,
            },
    {
        if self.vec.len() == 0 {
            None
        } else {
            let v = self.vec.remove(0);
            proof {
                assert(self@ =~= old(self)@.drop_first());
            }
            Some(v)
        }
    }

    /// Pop the last element, if any.
    pub fn pop_back(&mut self) -> (r: Option<T>)
        ensures
            final(self).spec_capacity() == old(self).spec_capacity(),
            match r {
                Some(v) => old(self)@.len() > 0 && v == old(self)@.last() && final(self)@ == old(
                    self,
                )@.drop_last(),
                None => old(self)@.len() == 0 && final(self)@ == old(self)@,
            },
    {
        self.vec.pop()
    }

    /// The element at the given index, if any, front first.
    pub fn get(&self, index: usize) -> (r: Option<&T>)
        ensures
            match r {
                Some(v) => (index as int) < self@.len() && *v == self@[index as int],
                None => (index as int) >= self@.len(),
            },
    {
        if index < self.vec.len() {
            Some(&self.vec[index])
        } else {
            None
        }
    }

    /// Replace the element at the given index by the image of the provided
    /// function; returns whether the index named an element.
    pub fn get_mut<F: FnOnce(&T) -> T>(&mut self, index: usize, f: F) -> (r: bool)
        requires
            (index as int) < old(self)@.len() ==> call_requires(f, (&old(self)@[index as int],)),
        ensures
            final(self).spec_capacity() == old(self).spec_capacity(),
            r == ((index as int) < old(self)@.len()),
            final(self)@.len() == old(self)@.len(),
            forall|j: int|
                0 <= j < old(self)@.len() && j != index ==> final(self)@[j] == old(self)@[j],
            r ==> call_ensures(f, (&old(self)@[index as int],), final(self)@[index as int]),
            !r ==> final(self)@ == old(self)@,
    {
        if index < self.vec.len() {
            let new_value = f(&self.vec[index]);
            let slot = &mut self.vec[index];
            *slot = new_value;
            true
        } else {
            false
        }
    }

    /// The last element, if any.
    pub fn last(&self) -> (r: Option<&T>)
        ensures
            match r {
                Some(v) => self@.len() > 0 && *v == self@.last(),
                None => self@.len() == 0,
            },
    {
        if self.vec.len() > 0 {
            Some(&self.vec[self.vec.len() - 1])
        } else {
            None
        }
    }

    /// Replace each of the last `n` elements by its image under the provided
    /// function, front to back.
    pub fn with_last_n_elems<F: Fn(&T) -> T>(&mut self, n: usize, f: F)
        requires
            forall|i: int|
                0 <= i < old(self)@.len() ==> call_requires(f, (&old(self)@[i],)),
        ensures
            final(self).spec_capacity() == old(self).spec_capacity(),
            final(self)@.len() == old(self)@.len(),
            forall|j: int|
                0 <= j < old(self)@.len() - n ==> final(self)@[j] == old(self)@[j],
            forall|j: int|
                old(self)@.len() - n <= j < old(self)@.len() && 0 <= j ==> call_ensures(
                    f,
                    (&old(self)@[j],),
                    #[trigger] final(self)@[j],
                ),
    {
        let len = self.vec.len();
        let start = if n > len {
            0
        } else {
            len - n
        };
        let mut i: usize = start;
        while i < len
            invariant
                start <= i <= len,
                len == self@.len(),
                self@.len() == old(self)@.len(),
                self.spec_capacity() == old(self).spec_capacity(),
                forall|j: int| 0 <= j < start ==> self@[j] == old(self)@[j],
                forall|j: int| i <= j < len ==> self@[j] == old(self)@[j],
                forall|j: int|
                    start <= j < i ==> call_ensures(f, (&old(self)@[j],), #[trigger] self@[j]),
                forall|j: int| 0 <= j < old(self)@.len() ==> call_requires(f, (&old(self)@[j],)),
            decreases len - i,
        {
            let new_value = f(&self.vec[i]);
            let slot = &mut self.vec[i];
            *slot = new_value;
            i = i + 1;
        }
    }

    /// Replace the `n`-th element counted from the back, if there is one, by
    /// its image under the provided function.
    pub fn with_last_nth_elem<F: FnOnce(&T) -> T>(&mut self, n: usize, f: F)
        requires
            (n as int) < old(self)@.len() ==> call_requires(
                f,
                (&old(self)@[old(self)@.len() - n - 1],),
            ),
        ensures
            final(self).spec_capacity() == old(self).spec_capacity(),
            final(self)@.len() == old(self)@.len(),
            (n as int) >= old(self)@.len() ==> final(self)@ == old(self)@,
            (n as int) < old(self)@.len() ==> {
                let idx = old(self)@.len() - n - 1;
                &&& forall|j: int| 0 <= j < old(self)@.len() && j != idx ==> final(self)@[j] == old(
                    self,
                )@[j]
                &&& call_ensures(f, (&old(self)@[idx],), final(self)@[idx])
            },
    {
        let len = self.vec.len();
        if len > n {
            let idx = len - n - 1;
            let new_value = f(&self.vec[idx]);
            let slot = &mut self.vec[idx];
            *slot = new_value;
        }
    }
}

} // verus!

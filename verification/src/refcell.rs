//! A single-owner value cell with closure-based access, the safe shape of a
//! zero-cost borrow cell: the owner is unique, so borrows are checked by the
//! type system instead of at run time.

use vstd::prelude::*;

verus! {

/// A cell holding one value, accessed in place or through closures.
#[derive(Debug)]
pub struct OptRefCell<T> {
    value: T,
}

impl<T> OptRefCell<T> {
    /// The held value, for specification purposes.
    pub closed spec fn val(self) -> T {
        self.value
    }

    /// A cell holding `value`.
    pub fn new(value: T) -> (r: Self)
        ensures
            r.val() == value,
    {
        OptRefCell { value }
    }

    /// Read access to the held value.
    pub fn borrow(&self) -> (r: &T)
        ensures
            *r == self.val(),
    {
        &self.value
    }

    /// Write access to the held value.
    pub fn borrow_mut(&mut self) -> (r: &mut T)
        ensures
            *r == old(self).val(),
            final(self).val() == *final(r),
    {
        &mut self.value
    }

    /// Take the cell apart, yielding the held value.
    pub fn into_inner(self) -> (r: T)
        ensures
            r == self.val(),
    {
        self.value
    }

    /// Run the provided function on the borrowed value.
    pub fn with_borrowed<U, F: FnOnce(&T) -> U>(&self, f: F) -> (r: U)
        requires
            forall|x: &T| #[trigger] call_requires(f, (x,)),
        ensures
            exists|x: &T| *x == self.val() && call_ensures(f, (x,), r),
    {
        f(&self.value)
    }

    /// Run the provided function on the held value: the function yields the
    /// replacement for the contents together with its own result, which is
    /// passed through to the caller.
    pub fn with_borrowed_mut<U, F: FnOnce(&T) -> (T, U)>(&mut self, f: F) -> (r: U)
        requires
            forall|x: &T| #[trigger] call_requires(f, (x,)),
        ensures
            exists|x: &T, y: (T, U)|
                *x == old(self).val() && #[trigger] call_ensures(f, (x,), y) && final(self).val()
                    == y.0 && r == y.1,
    {
        let borrowed = &self.value;
        let outcome = f(borrowed);
        proof {
            assert(*borrowed == old(self).val());
            assert(call_ensures(f, (borrowed,), outcome));
        }
        let (new_value, result) = outcome;
        self.value = new_value;
        result
    }
}

} // verus!

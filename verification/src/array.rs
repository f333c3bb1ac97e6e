//! A sequence of fixed length.

use vstd::prelude::*;
use vstd::std_specs::iter::IteratorSpec;
use vstd::std_specs::slice::into_iter_elts;

verus! {

/// A sequence whose length is fixed when it is made.
#[derive(Debug)]
pub struct Array<T> {
    slc: Vec<T>,
}

impl<T> View for Array<T> {
    type V = Seq<T>;

    closed spec fn view(&self) -> Seq<T> {
        self.slc@
    }
}

impl<T> Array<T> {
    /// An array of `size` elements, each a clone of the default value.
    pub fn new(size: usize) -> (r: Self) where T: Default + Clone
        ensures
            r@.len() == size,
            exists|d: T|
                call_ensures(T::default, (), d) && forall|i: int|
                    0 <= i < size ==> cloned(d, #[trigger] r@[i]),
    {
        let d = T::default();
        let ghost d0 = d;
        let r = Self { slc: vec![d; size] };
        assert(forall|i: int| 0 <= i < size ==> cloned(d0, #[trigger] r@[i]));
        r
    }

    /// The array without elements.
    pub fn new_empty() -> (r: Self)
        ensures
            r@ == Seq::<T>::empty(),
    {
        Self { slc: Vec::new() }
    }

    /// The array of the elements of `b`.
    pub fn from_box(b: Box<[T]>) -> (r: Self)
        ensures
            r@ == b@,
    {
        Self { slc: b.into_vec() }
    }

    /// The number of elements.
    pub fn len(&self) -> (n: usize)
        ensures
            n == self@.len(),
    {
        self.slc.len()
    }

    /// The element at `index`.
    pub fn get(&self, index: usize) -> (e: &T)
        requires
            index < self@.len(),
        ensures
            *e == self@[index as int],
    {
        &self.slc[index]
    }

    /// Puts `value` at `index`.
    pub fn set(&mut self, index: usize, value: T)
        requires
            index < old(self)@.len(),
        ensures
            final(self)@ == old(self)@.update(index as int, value),
    {
        self.slc[index] = value;
    }

    /// An iterator over the elements, first to last.
    pub fn iter(&self) -> (it: std::slice::Iter<'_, T>)
        ensures
            into_iter_elts(it) == self@,
            IteratorSpec::decrease(&it) is Some,
            IteratorSpec::initial_value_relation(&it, &it),
    {
        broadcast use vstd::std_specs::slice::axiom_spec_slice_iter;

        let it = self.slc.as_slice().iter();
        assert(into_iter_elts(it) =~= self@);
        it
    }
}

} // verus!

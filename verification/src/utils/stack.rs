use vstd::prelude::*;

use crate::errors::Error;

verus! {

/// A stack that may refuse a push when it is full.
pub trait Stack<T>: Sized {
    /// The entries, bottom first.
    spec fn spec_items(&self) -> Seq<T>;

    /// The most entries the stack can hold, if it is bounded.
    spec fn spec_capacity() -> Option<nat>;

    fn new() -> (r: Self)
        ensures
            r.spec_items() == Seq::<T>::empty(),
    ;

    fn try_push(&mut self, item: T) -> (r: Result<(), Error>)
        ensures
            match r {
                Ok(()) => {
                    &&& final(self).spec_items() == old(self).spec_items().push(item)
                    &&& old(self).spec_items().len() < usize::MAX
                    &&& Self::spec_capacity() matches Some(c) ==> old(self).spec_items().len() < c
                },
                Err(e) => {
                    &&& e == Error::OutOfStackSpace
                    &&& final(self).spec_items() == old(self).spec_items()
                    &&& Self::spec_capacity() matches Some(c) && old(self).spec_items().len() >= c
                },
            },
            (Self::spec_capacity() matches Some(c) ==> old(self).spec_items().len() < c) ==> r is Ok,
    ;

    fn pop(&mut self) -> (r: Option<T>)
        ensures
            old(self).spec_items().len() == 0 ==> r is None && final(self).spec_items()
                == old(self).spec_items(),
            old(self).spec_items().len() > 0 ==> r == Some(old(self).spec_items().last())
                && final(self).spec_items() == old(self).spec_items().drop_last(),
    ;

    fn as_slice(&self) -> (r: &[T])
        ensures
            r@ == self.spec_items(),
    ;
}

/// A stack without a bound, backed by a `Vec`.
pub struct VecStack<T> {
    pub items: Vec<T>,
}

impl<T> Stack<T> for VecStack<T> {
    open spec fn spec_items(&self) -> Seq<T> {
        self.items@
    }

    open spec fn spec_capacity() -> Option<nat> {
        None
    }

    fn new() -> (r: Self) {
        VecStack { items: Vec::new() }
    }

    fn try_push(&mut self, item: T) -> (r: Result<(), Error>) {
        self.items.push(item);
        let _ = self.items.len();
        Ok(())
    }

    fn pop(&mut self) -> (r: Option<T>) {
        self.items.pop()
    }

    fn as_slice(&self) -> (r: &[T]) {
        self.items.as_slice()
    }
}

/// A stack that holds at most `N` entries.
pub struct ArrayStack<T, const N: usize> {
    pub items: Vec<T>,
}

impl<T, const N: usize> Stack<T> for ArrayStack<T, N> {
    open spec fn spec_items(&self) -> Seq<T> {
        self.items@
    }

    open spec fn spec_capacity() -> Option<nat> {
        Some(N as nat)
    }

    fn new() -> (r: Self) {
        ArrayStack { items: Vec::new() }
    }

    fn try_push(&mut self, item: T) -> (r: Result<(), Error>) {
        if self.items.len() >= N {
            return Err(Error::OutOfStackSpace);
        }
        self.items.push(item);
        Ok(())
    }

    fn pop(&mut self) -> (r: Option<T>) {
        self.items.pop()
    }

    fn as_slice(&self) -> (r: &[T]) {
        self.items.as_slice()
    }
}

} // verus!

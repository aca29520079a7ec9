//! Several readers or writers in a row, used as one: when the one in
//! front has nothing more to give or take, the next one comes to the
//! front. The transfers themselves are the caller's; what is decided here
//! is which element is in front and when it gives way.

use vstd::prelude::*;

verus! {

/// A row of elements with a mark on the one in front.
pub struct Chain<T> {
    elem: Vec<T>,
    index: usize,
}

/// What to do after a transfer on the element in front.
#[derive(Clone, Copy, Debug, PartialEq, Eq, Structural)]
pub enum Next {
    /// The transfer moved this many bytes: report them.
    Done(usize),
    /// The element in front was at its end: go on with the next.
    Retry,
}

impl<T> Chain<T> {
    /// The elements of the row.
    pub closed spec fn elements(&self) -> Seq<T> {
        self.elem@
    }

    /// The place of the element in front; the length of the row when all
    /// elements are used up.
    pub closed spec fn front(&self) -> nat {
        self.index as nat
    }

    /// The mark stands on an element or just behind the last.
    pub closed spec fn wf(&self) -> bool {
        self.index <= self.elem.len()
    }

    /// A row with its first element in front.
    pub fn new(elem: Vec<T>) -> (c: Chain<T>)
        ensures
            c.wf(),
            c.elements() == elem@,
            c.front() == 0,
    {
        Chain { index: 0, elem }
    }

    /// The element in front, if one is left.
    pub fn current(&self) -> (r: Option<&T>)
        requires
            self.wf(),
        ensures
            match r {
                Some(e) => self.front() < self.elements().len() && *e == self.elements()[self.front() as int],
                None => self.front() == self.elements().len(),
            },
    {
        if self.index < self.elem.len() {
            Some(&self.elem[self.index])
        } else {
            None
        }
    }

    /// The element in front, to be read from or written to, if one is
    /// left. What the caller does to it is seen in the row afterwards, and
    /// nothing else in the row changes.
    pub fn current_mut(&mut self) -> (r: Option<&mut T>)
        requires
            old(self).wf(),
        ensures
            final(self).wf(),
            final(self).front() == old(self).front(),
            match r {
                Some(e) => old(self).front() < old(self).elements().len() && *e == old(
                    self,
                ).elements()[old(self).front() as int] && final(self).elements() == old(
                    self,
                ).elements().update(old(self).front() as int, *final(e)),
                None => old(self).front() == old(self).elements().len() && final(self).elements()
                    == old(self).elements(),
            },
    {
        if self.index < self.elem.len() {
            Some(&mut self.elem[self.index])
        } else {
            None
        }
    }

    /// The place of the element in front.
    pub fn index(&self) -> (i: usize)
        ensures
            i == self.front(),
    {
        self.index
    }

    /// Whether every element is used up.
    pub fn is_spent(&self) -> (r: bool)
        requires
            self.wf(),
        ensures
            r == (self.front() == self.elements().len()),
    {
        self.index >= self.elem.len()
    }

    /// Takes note of a transfer of `n` bytes on the element in front. A
    /// transfer of nothing means that the element is at its end: the next
    /// one comes to the front, and the transfer is to be tried again.
    pub fn after_transfer(&mut self, n: usize) -> (next: Next)
        requires
            old(self).wf(),
            old(self).front() < old(self).elements().len(),
        ensures
            final(self).wf(),
            final(self).elements() == old(self).elements(),
            next == if n == 0 {
                Next::Retry
            } else {
                Next::Done(n)
            },
            final(self).front() == if n == 0 {
                old(self).front() + 1
            } else {
                old(self).front()
            },
    {
        if n == 0 {
            self.index += 1;
            Next::Retry
        } else {
            Next::Done(n)
        }
    }

    /// The row taken apart again: the elements and the place of the one in
    /// front.
    pub fn into_parts(self) -> (r: (Vec<T>, usize))
        requires
            self.wf(),
        ensures
            r.0@ == self.elements(),
            r.1 == self.front(),
    {
        (self.elem, self.index)
    }
}

} // verus!

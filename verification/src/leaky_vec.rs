//! A list that is written by appending and read as it stood when last
//! committed: readers see a committed snapshot, never a half-written list.
use vstd::prelude::*;

verus! {

/// A list whose readers see the elements up to the last commit.
pub struct LeakyVec<T> {
    write: Vec<T>,
    committed: usize,
}

impl<T> LeakyVec<T> {
    /// The elements written, committed or not.
    pub closed spec fn written(&self) -> Seq<T> {
        self.write@
    }

    /// The elements readers see.
    pub closed spec fn read(&self) -> Seq<T> {
        self.write@.subrange(0, self.committed as int)
    }

    /// No more elements are committed than written.
    pub closed spec fn wf(&self) -> bool {
        self.committed <= self.write@.len()
    }

    pub fn new() -> (r: LeakyVec<T>)
        ensures
            r.wf(),
            r.written() == Seq::<T>::empty(),
            r.read() == Seq::<T>::empty(),
    {
        let r = LeakyVec { write: Vec::new(), committed: 0 };
        assert(r.read() =~= Seq::<T>::empty());
        r
    }

    /// Appends `element` and lets readers see it.
    pub fn push_and_commit(&mut self, element: T)
        requires
            old(self).wf(),
        ensures
            final(self).wf(),
            final(self).written() == old(self).written().push(element),
            final(self).read() == old(self).written().push(element),
    {
        self.push(element);
        self.commit();
    }

    /// Appends `element`, which readers see only after the next commit.
    pub fn push(&mut self, element: T)
        requires
            old(self).wf(),
        ensures
            final(self).wf(),
            final(self).written() == old(self).written().push(element),
            final(self).read() == old(self).read(),
    {
        self.write.push(element);
        assert(self.read() =~= old(self).read());
    }

    /// Lets readers see all elements written.
    pub fn commit(&mut self)
        requires
            old(self).wf(),
        ensures
            final(self).wf(),
            final(self).written() == old(self).written(),
            final(self).read() == old(self).written(),
    {
        self.committed = self.write.len();
        assert(self.read() =~= self.written());
    }

    /// The elements readers see.
    pub fn as_slice(&self) -> (r: &[T])
        requires
            self.wf(),
        ensures
            r@ == self.read(),
    {
        let (head, _tail) = self.write.as_slice().split_at(self.committed);
        head
    }
}

} // verus!

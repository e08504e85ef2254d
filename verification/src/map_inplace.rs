//! An owned, partially converted vector: converts a vector of `T`s into a
//! vector of `U`s of the same size, element by element.
use vstd::prelude::*;

verus! {

/// Stops the program unless `c` holds; verified callers prove that it does.
fn check(c: bool)
    requires
        c,
{
    let held: Option<()> = if c {
        Some(())
    } else {
        None
    };
    held.unwrap();
}

/// An owned, partially converted vector.
///
/// `pop` hands out the `T`s in order; `push` may be called as often as
/// `pop` gave a `T`. After as many `U`s were pushed as there were `T`s,
/// `into_vec` gives the vector of `U`s.
pub struct PartialVec<T, U> {
    /// The `T`s not handed out yet, last first.
    rest: Vec<T>,
    done: Vec<U>,
    popped: usize,
    total: usize,
    start: Ghost<Seq<T>>,
}

impl<T, U> PartialVec<T, U> {
    /// The `T`s not handed out yet, in order.
    pub closed spec fn remaining(&self) -> Seq<T> {
        self.rest@.reverse()
    }

    /// The `U`s pushed so far.
    pub closed spec fn converted(&self) -> Seq<U> {
        self.done@
    }

    /// How many `T`s were handed out.
    pub closed spec fn popped(&self) -> nat {
        self.popped as nat
    }

    /// How many `T`s there were at the start.
    pub closed spec fn total(&self) -> nat {
        self.total as nat
    }

    /// The `T`s there were at the start.
    pub closed spec fn start(&self) -> Seq<T> {
        self.start@
    }

    /// The counts agree: no more `U`s than `T`s handed out, and every `T`
    /// either handed out or remaining.
    pub closed spec fn wf(&self) -> bool {
        &&& self.done@.len() <= self.popped
        &&& self.popped + self.rest@.len() == self.total
        &&& self.start@.len() == self.total
        &&& self.rest@.reverse() == self.start@.subrange(self.popped as int, self.total as int)
    }

    /// What is handed out and what remains are the `T`s of the start, in
    /// order: the `T`s handed out are the first `popped()` of them.
    pub proof fn lemma_remaining(&self)
        requires
            self.wf(),
        ensures
            self.total() == self.start().len(),
            self.popped() <= self.total(),
            self.remaining() == self.start().subrange(self.popped() as int, self.total() as int),
    {
    }

    /// Starts converting `vec`; `T` and `U` must have the same size, which
    /// must not be zero.
    pub fn new(vec: Vec<T>) -> (r: PartialVec<T, U>)
        requires
            vstd::layout::size_of::<T>() != 0,
            vstd::layout::size_of::<U>() != 0,
            vstd::layout::size_of::<T>() == vstd::layout::size_of::<U>(),
        ensures
            r.wf(),
            r.remaining() == vec@,
            r.converted() == Seq::<U>::empty(),
            r.popped() == 0,
            r.total() == vec@.len(),
            r.start() == vec@,
    {
        check(core::mem::size_of::<T>() != 0);
        check(core::mem::size_of::<U>() != 0);
        check(core::mem::size_of::<T>() == core::mem::size_of::<U>());
        let total = vec.len();
        let mut vec = vec;
        let mut rest: Vec<T> = Vec::new();
        let ghost original = vec@;
        while vec.len() > 0
            invariant
                vec@ + rest@.reverse() == original,
                original.len() == total,
            decreases vec.len(),
        {
            let ghost before = vec@;
            let ghost rest_before = rest@;
            let x = vec.pop().unwrap();
            rest.push(x);
            proof {
                assert(rest@.reverse() =~= seq![x] + rest_before.reverse());
                assert(vec@ + rest@.reverse() =~= before + rest_before.reverse());
            }
        }
        proof {
            assert(vec@ =~= Seq::<T>::empty());
            assert(rest@.reverse() =~= original);
        }
        proof {
            assert(original.subrange(0, total as int) =~= original);
        }
        PartialVec { rest, done: Vec::new(), popped: 0, total, start: Ghost(original) }
    }

    /// Hands out the next `T`, if there is one left.
    pub fn pop(&mut self) -> (r: Option<T>)
        requires
            old(self).wf(),
        ensures
            final(self).wf(),
            final(self).converted() == old(self).converted(),
            final(self).total() == old(self).total(),
            final(self).start() == old(self).start(),
            old(self).remaining().len() == 0 ==> r is None && final(self).remaining() == old(
                self,
            ).remaining() && final(self).popped() == old(self).popped(),
            old(self).remaining().len() > 0 ==> r == Some(old(self).remaining()[0])
                && final(self).remaining() == old(self).remaining().drop_first()
                && final(self).popped() == old(self).popped() + 1,
    {
        let ghost before = self.rest@;
        let r = self.rest.pop();
        if r.is_some() {
            self.popped = self.popped + 1;
        }
        proof {
            if before.len() > 0 {
                assert(self.rest@.reverse() =~= before.reverse().drop_first());
                assert(self.rest@.reverse() =~= self.start@.subrange(self.popped as int, self.total as int));
            }
        }
        r
    }

    /// Adds the next `U`; there must have been more `T`s handed out than
    /// `U`s pushed.
    pub fn push(&mut self, value: U)
        requires
            old(self).wf(),
            old(self).converted().len() < old(self).popped(),
        ensures
            final(self).wf(),
            final(self).converted() == old(self).converted().push(value),
            final(self).remaining() == old(self).remaining(),
            final(self).popped() == old(self).popped(),
            final(self).total() == old(self).total(),
            final(self).start() == old(self).start(),
    {
        check(self.done.len() < self.popped);
        self.done.push(value);
    }

    /// The vector of `U`s, once all `T`s were handed out and as many `U`s
    /// pushed.
    pub fn into_vec(self) -> (r: Vec<U>)
        requires
            self.wf(),
            self.converted().len() == self.total(),
        ensures
            r@ == self.converted(),
    {
        check(self.done.len() == self.total);
        self.done
    }
}

/// Converting a vector element by element.
pub trait MapInplace<T, U>: Sized {
    /// The elements.
    spec fn elements(&self) -> Seq<T>;

    /// Converts each element with `f`; `T` and `U` must have the same size,
    /// which must not be zero.
    fn map_inplace<F: Fn(T) -> U>(self, f: F) -> (r: Vec<U>)
        requires
            vstd::layout::size_of::<T>() != 0,
            vstd::layout::size_of::<U>() != 0,
            vstd::layout::size_of::<T>() == vstd::layout::size_of::<U>(),
            forall|i: int| 0 <= i < self.elements().len() ==> f.requires((#[trigger] self.elements()[i],)),
        ensures
            r@.len() == self.elements().len(),
            forall|i: int| 0 <= i < r@.len() ==> f.ensures((self.elements()[i],), #[trigger] r@[i]),
    ;
}

impl<T, U> MapInplace<T, U> for Vec<T> {
    open spec fn elements(&self) -> Seq<T> {
        self@
    }

    #[verifier::loop_isolation(false)]
    fn map_inplace<F: Fn(T) -> U>(self, f: F) -> (r: Vec<U>) {
        let ghost elements = self@;
        proof {
            assert(<Vec<T> as MapInplace<T, U>>::elements(&self) == elements);
        }
        let mut pv: PartialVec<T, U> = PartialVec::new(self);
        loop
            invariant
                pv.wf(),
                pv.total() == elements.len(),
                pv.converted().len() == pv.popped(),
                pv.remaining() == elements.subrange(pv.popped() as int, elements.len() as int),
                forall|i: int| 0 <= i < elements.len() ==> f.requires((#[trigger] elements[i],)),
                forall|i: int|
                    0 <= i < pv.converted().len() ==> f.ensures(
                        (elements[i],),
                        #[trigger] pv.converted()[i],
                    ),
            decreases pv.remaining().len(),
        {
            let maybe_t = pv.pop();
            match maybe_t {
                Some(t) => {
                    assert(t == elements[pv.popped() - 1]);
                    pv.push(f(t));
                    proof {
                        assert(pv.remaining() =~= elements.subrange(
                            pv.popped() as int,
                            elements.len() as int,
                        ));
                    }
                },
                None => {
                    return pv.into_vec();
                },
            }
        }
    }
}

} // verus!

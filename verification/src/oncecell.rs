//! A cached value: a cell that is initialized once and then kept constant.
use vstd::prelude::*;
use vstd::std_specs::cmp::PartialEqSpec;

verus! {

/// A cell that is initialized once and then kept constant until the end of
/// its life.
#[derive(Clone, Debug)]
pub struct OnceCell<T> {
    value: Option<T>,
}

impl<T> View for OnceCell<T> {
    type V = Option<T>;

    /// The value, once the cell is initialized.
    closed spec fn view(&self) -> Option<T> {
        self.value
    }
}

impl<T> OnceCell<T> {
    /// An empty cell.
    pub fn new() -> (r: OnceCell<T>)
        ensures
            r@ is None,
    {
        OnceCell { value: None }
    }

    /// A cell that already holds `value`.
    pub fn new_with_value(value: T) -> (r: OnceCell<T>)
        ensures
            r@ == Some(value),
    {
        OnceCell { value: Some(value) }
    }

    /// Consumes the cell, returning its value; the cell must be
    /// initialized.
    pub fn unwrap(self) -> (r: T)
        requires
            self@ is Some,
        ensures
            r == self@->0,
    {
        self.value.unwrap()
    }

    /// Initializes the cell unless it is already initialized, which is an
    /// error.
    pub fn try_init(&mut self, value: T) -> (r: Result<(), ()>)
        ensures
            old(self)@ is None ==> r is Ok && final(self)@ == Some(value),
            old(self)@ is Some ==> r is Err && final(self)@ == old(self)@,
    {
        if self.value.is_some() {
            return Err(());
        }
        self.value = Some(value);
        Ok(())
    }

    /// Initializes the cell, which must not be initialized yet.
    pub fn init(&mut self, value: T)
        requires
            old(self)@ is None,
        ensures
            final(self)@ == Some(value),
    {
        self.try_init(value).unwrap()
    }

    /// The value, if the cell is initialized.
    pub fn try_borrow(&self) -> (r: Option<&T>)
        ensures
            r == (match self@ {
                Some(v) => Some(&v),
                None => None,
            }),
    {
        self.value.as_ref()
    }

    /// The value of the cell, which must be initialized.
    pub fn borrow(&self) -> (r: &T)
        requires
            self@ is Some,
        ensures
            *r == self@->0,
    {
        self.value.as_ref().unwrap()
    }
}

impl<T: PartialEq> OnceCell<T> {
    /// Compares the values of two cells, which must both be initialized.
    pub fn equals(&self, other: &OnceCell<T>) -> (r: bool)
        requires
            self@ is Some,
            other@ is Some,
        ensures
            T::obeys_eq_spec() ==> r == self@->0.eq_spec(&other@->0),
    {
        self.borrow() == other.borrow()
    }
}

} // verus!

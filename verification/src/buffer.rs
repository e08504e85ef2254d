//! Output buffers of fixed capacity.
use vstd::prelude::*;

verus! {

/// An output buffer had not enough room left.
#[derive(Clone, Copy, Debug, PartialEq, Eq, Structural)]
pub struct CapacityError;

/// A byte buffer that holds at most `capacity` bytes.
pub struct Buffer {
    data: Vec<u8>,
    capacity: usize,
}

impl View for Buffer {
    type V = Seq<u8>;

    /// The bytes written so far.
    closed spec fn view(&self) -> Seq<u8> {
        self.data@
    }
}

impl Buffer {
    /// How many bytes the buffer may hold in total.
    pub closed spec fn capacity(&self) -> nat {
        self.capacity as nat
    }

    /// An empty buffer that may hold `capacity` bytes.
    pub fn new(capacity: usize) -> (r: Buffer)
        ensures
            r@ == Seq::<u8>::empty(),
            r.capacity() == capacity,
    {
        Buffer { data: Vec::new(), capacity }
    }

    /// Number of bytes that still fit.
    pub fn remaining(&self) -> (r: usize)
        ensures
            r == self.capacity() - self@.len(),
    {
        proof {
            use_type_invariant(self);
        }
        self.capacity - self.data.len()
    }

    #[verifier::type_invariant]
    spec fn inv(self) -> bool {
        self.data@.len() <= self.capacity
    }

    /// Appends `bytes` if they fit; otherwise leaves the buffer unchanged.
    pub fn write(&mut self, bytes: &[u8]) -> (r: Result<(), CapacityError>)
        ensures
            final(self).capacity() == old(self).capacity(),
            (r is Ok) <==> old(self)@.len() + bytes@.len() <= old(self).capacity(),
            r is Ok ==> final(self)@ == old(self)@ + bytes@,
            r is Err ==> final(self)@ == old(self)@,
    {
        proof {
            use_type_invariant(&*self);
        }
        if bytes.len() > self.capacity || self.data.len() > self.capacity - bytes.len() {
            return Err(CapacityError);
        }
        let mut d: Vec<u8> = Vec::new();
        std::mem::swap(&mut d, &mut self.data);
        crate::packer::extend_bytes(&mut d, bytes);
        self.data = d;
        Ok(())
    }

    /// The bytes written so far.
    pub fn initialized(&self) -> (r: &[u8])
        ensures
            r@ == self@,
    {
        self.data.as_slice()
    }

    /// Takes the bytes written.
    pub fn into_vec(self) -> (r: Vec<u8>)
        ensures
            r@ == self@,
    {
        self.data
    }
}

} // verus!

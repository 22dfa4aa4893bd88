//! The source ADB messages are read from; the bytes are decoded by [`AdbMessage::decode`].
use vstd::prelude::*;

#[allow(unused_imports)]
use crate::message::AdbMessage;

verus! {

/// A source of ADB messages.
pub struct AdbReader<R> {
    reader: R,
}

impl<R> AdbReader<R> {
    /// The underlying source.
    pub closed spec fn inner(&self) -> R {
        self.reader
    }

    /// Wraps a byte source.
    pub fn new(reader: R) -> (r: Self)
        ensures
            r.inner() == reader,
    {
        Self { reader }
    }

    /// Mutable access to the underlying source.
    pub fn get_mut(&mut self) -> (inner: &mut R)
        ensures
            *inner == old(self).inner(),
            final(self).inner() == *final(inner),
    {
        &mut self.reader
    }

    /// Gives back the underlying source.
    pub fn into_inner(self) -> (inner: R)
        ensures
            inner == self.inner(),
    {
        self.reader
    }
}

} // verus!

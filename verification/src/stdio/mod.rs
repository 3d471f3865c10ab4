//! Output and input handles whose error behavior is part of their type.
//!
//! The reading and writing themselves are I/O and belong to the program
//! around this library; the handles here carry the stream and the line
//! buffer between those operations.
use vstd::prelude::*;

pub mod behavior;

verus! {

/// An output stream `T` whose errors are handled as `B` says.
pub struct Out<T, B> {
    inner: T,
    _behavior: B,
}

impl<T, B> Out<T, B> {
    /// The stream.
    pub closed spec fn spec_inner(&self) -> T {
        self.inner
    }

    /// Wraps `inner`.
    pub fn new(inner: T, _behavior: B) -> (r: Self)
        ensures
            r.spec_inner() == inner,
    {
        Self { inner, _behavior }
    }

    /// The same stream, with errors ignored.
    pub fn ignore_errors(self) -> (r: Out<T, behavior::Ignore>)
        ensures
            r.spec_inner() == self.spec_inner(),
    {
        Out { inner: self.inner, _behavior: behavior::Ignore }
    }

    /// The stream, to write to.
    pub fn inner_mut(&mut self) -> (r: &mut T)
        ensures
            *r == old(self).spec_inner(),
            final(self).spec_inner() == *final(r),
    {
        &mut self.inner
    }
}

/// An input stream `T` read line by line into a buffer, whose errors are
/// handled as `B` says.
pub struct In<T, B> {
    io: T,
    buffer: String,
    _behavior: B,
}

impl<T, B> In<T, B> {
    /// The stream.
    pub closed spec fn spec_io(&self) -> T {
        self.io
    }

    /// The line read last.
    pub closed spec fn spec_line(&self) -> Seq<char> {
        self.buffer@
    }

    /// Wraps `io`, with nothing read yet.
    pub fn new(io: T, _behavior: B) -> (r: Self)
        ensures
            r.spec_io() == io,
            r.spec_line() == Seq::<char>::empty(),
    {
        Self { io, buffer: String::new(), _behavior }
    }

    ///Current buffer content
    pub fn current_line(&self) -> (r: &str)
        ensures
            r@ == self.spec_line(),
    {
        self.buffer.as_str()
    }

    /// The same stream, panicking on errors.
    pub fn panic_errors(self) -> (r: In<T, behavior::Panic>)
        ensures
            r.spec_io() == self.spec_io(),
            r.spec_line() == self.spec_line(),
    {
        In { io: self.io, buffer: self.buffer, _behavior: behavior::Panic }
    }

    /// Empties the buffer and hands out the stream and the buffer, to read
    /// the next line into.
    pub fn start_line(&mut self) -> (r: (&mut T, &mut String))
        ensures
            *r.0 == old(self).spec_io(),
            (*r.1)@ == Seq::<char>::empty(),
            final(self).spec_io() == *final(r.0),
            final(self).spec_line() == (*final(r.1))@,
    {
        self.buffer = String::new();
        (&mut self.io, &mut self.buffer)
    }
}

} // verus!

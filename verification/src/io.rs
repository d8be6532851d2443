//! Random numbers from an I/O byte stream.

use vstd::prelude::*;

verus! {

#[verifier::external_type_specification]
#[verifier::external_body]
pub struct ExIoError(std::io::Error);

/// A wrapper around an `std::io::Read` for using the type as a random
/// number generator, for example a handle to an operating-system entropy
/// device.
///
/// The bytes such a generator produces depend on the state of the underlying
/// stream, so no byte-log model is claimed for it.  What remains proved of
/// it is what its contract keeps: a fill leaves the buffer at its old
/// length, and an error is reported to the caller unchanged.
#[derive(Clone, Copy, Debug, Default, PartialEq, Eq, PartialOrd, Ord, Hash)]
pub struct ReadRng<R>(pub R);

/// Relies on `std::io::Read::read_exact`: it fills the whole buffer with
/// bytes read from the reader, or reports an I/O error; either way the
/// buffer keeps its length.
#[verifier::external_body]
fn read_full<R: std::io::Read>(reader: &mut R, buf: &mut [u8]) -> (r: Result<
    (),
    std::io::Error,
>)
    ensures
        final(buf)@.len() == old(buf)@.len(),
{
    reader.read_exact(buf)
}

impl<R> ReadRng<R> {
    /// Fills `buf` with bytes read from the wrapped reader, returning the
    /// I/O error upon failure.
    pub fn try_fill_bytes(&mut self, buf: &mut [u8]) -> (r: Result<(), std::io::Error>) where
        R: std::io::Read,
        ensures
            final(buf)@.len() == old(buf)@.len(),
    {
        read_full(&mut self.0, buf)
    }
}

} // verus!

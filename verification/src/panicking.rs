//! An adapter that presents a fallible generator as an infallible one.

use vstd::prelude::*;
use crate::rng::{fill_log, next_u8_log, next_u16_log, next_u32_log, next_u64_log, next_u128_log,
    Rng, TryRng};

verus! {

/// A wrapper around a [`TryRng`] that implements [`Rng`] by panicking if an
/// error occurs.
///
/// The adapter is the one place where a generator failure becomes a fatal
/// stop instead of an error value: callers that need the infallible
/// interface opt into it explicitly by wrapping their fallible source.
#[derive(Clone, Copy, Debug, Default, PartialEq, Eq, PartialOrd, Ord, Hash)]
pub struct PanickingRng<R>(pub R);

/// Relies on `Result::unwrap`: it returns the value held by `Ok` and panics
/// on `Err`, so a call that returns at all proves that the result was `Ok`.
#[verifier::external_body]
fn unwrap_or_halt<T, E: core::fmt::Debug>(r: Result<T, E>) -> (t: T)
    ensures
        (match r {
            Ok(v) => v == t,
            Err(_) => false,
        }),
{
    r.unwrap()
}

impl<R: TryRng> Rng for PanickingRng<R> where R::Error: core::fmt::Debug {
    open spec fn log_enabled(&self) -> bool {
        self.0.try_log_enabled()
    }

    open spec fn byte_log(&self) -> Seq<u8> {
        self.0.try_byte_log()
    }

    fn fill_bytes(&mut self, buf: &mut [u8]) {
        let r = self.0.try_fill_bytes(buf);
        unwrap_or_halt(r);
    }

    fn next_u8(&mut self) -> (b: u8) {
        unwrap_or_halt(self.0.try_next_u8())
    }

    fn next_u16(&mut self) -> (w: u16) {
        unwrap_or_halt(self.0.try_next_u16())
    }

    fn next_u32(&mut self) -> (w: u32) {
        unwrap_or_halt(self.0.try_next_u32())
    }

    fn next_u64(&mut self) -> (w: u64) {
        unwrap_or_halt(self.0.try_next_u64())
    }

    fn next_u128(&mut self) -> (w: u128) {
        unwrap_or_halt(self.0.try_next_u128())
    }
}

} // verus!

//! Generate random values of a given type.

use vstd::prelude::*;
use vstd::bytes::{spec_u64_from_le_bytes, spec_u64_to_le_bytes,
    lemma_auto_spec_u64_to_from_le_bytes};
use crate::rng::{lemma_log_extends, next_u8_log, next_u16_log, next_u32_log, next_u64_log,
    next_u128_log, Rng, TryRng};

verus! {

/// A type that can be generated from an [`Rng`] or [`TryRng`].
///
/// Each primitive integer delegates to the generator operation of its own
/// width; the pointer-sized integer deliberately draws a full 64-bit word
/// on every build and narrows it to the pointer width, so a build with a
/// narrower pointer consumes the same words as a 64-bit one.
pub trait Rand: Sized {
    /// Generates a random instance of `Self` without failing.
    fn rand<R: Rng>(rng: &mut R) -> (v: Self)
        ensures
            final(rng).log_enabled() == old(rng).log_enabled(),
            old(rng).log_enabled() ==> old(rng).byte_log().is_prefix_of(final(rng).byte_log()),
    ;

    /// Generates a random instance of `Self`, returning an error upon
    /// failure.
    fn try_rand<R: TryRng>(rng: &mut R) -> (r: Result<Self, R::Error>)
        ensures
            final(rng).can_fail() == old(rng).can_fail(),
            !old(rng).can_fail() ==> r is Ok,
            final(rng).try_log_enabled() == old(rng).try_log_enabled(),
            old(rng).try_log_enabled() ==> old(rng).try_byte_log().is_prefix_of(
                final(rng).try_byte_log(),
            ),
    ;

    /// Generates a random instance of `Self` in-place without failing.
    fn read_rand<R: Rng>(&mut self, rng: &mut R)
        ensures
            final(rng).log_enabled() == old(rng).log_enabled(),
            old(rng).log_enabled() ==> old(rng).byte_log().is_prefix_of(final(rng).byte_log()),
    {
        *self = Self::rand(rng);
    }

    /// Generates a random instance of `Self` in-place, returning an error
    /// upon failure.  On an error the value is left unchanged.
    fn try_read_rand<R: TryRng>(&mut self, rng: &mut R) -> (r: Result<(), R::Error>)
        ensures
            final(rng).can_fail() == old(rng).can_fail(),
            !old(rng).can_fail() ==> r is Ok,
            final(rng).try_log_enabled() == old(rng).try_log_enabled(),
            old(rng).try_log_enabled() ==> old(rng).try_byte_log().is_prefix_of(
                final(rng).try_byte_log(),
            ),
            r is Err ==> *final(self) == *old(self),
    {
        match Self::try_rand(rng) {
            Ok(v) => {
                *self = v;
                Ok(())
            },
            Err(e) => Err(e),
        }
    }
}

impl Rand for u8 {
    /// The written value obeys the same log clause as by-value generation.
    fn read_rand<R: Rng>(&mut self, rng: &mut R)
        ensures
            old(rng).log_enabled() ==> next_u8_log(
                old(rng).byte_log(),
                final(rng).byte_log(),
                *final(self),
            ),
    {
        *self = Self::rand(rng);
    }

    /// The written value obeys the same log clause as by-value generation.
    fn try_read_rand<R: TryRng>(&mut self, rng: &mut R) -> (r: Result<(), R::Error>)
        ensures
            old(rng).try_log_enabled() ==> (r is Ok ==> next_u8_log(
                old(rng).try_byte_log(),
                final(rng).try_byte_log(),
                *final(self),
            )),
    {
        match Self::try_rand(rng) {
            Ok(v) => {
                *self = v;
                Ok(())
            },
            Err(e) => Err(e),
        }
    }

    /// The generated value is the next byte of the generator's log.
    fn rand<R: Rng>(rng: &mut R) -> (v: Self)
        ensures
            old(rng).log_enabled() ==> next_u8_log(
                old(rng).byte_log(),
                final(rng).byte_log(),
                v,
            ),
    {
        rng.next_u8()
    }

    /// The generated value is the next byte of the generator's log.
    fn try_rand<R: TryRng>(rng: &mut R) -> (r: Result<Self, R::Error>)
        ensures
            old(rng).try_log_enabled() ==> (r matches Ok(v) ==> next_u8_log(
                old(rng).try_byte_log(),
                final(rng).try_byte_log(),
                v,
            )),
    {
        rng.try_next_u8()
    }
}

impl Rand for u16 {
    /// The written value obeys the same log clause as by-value generation.
    fn read_rand<R: Rng>(&mut self, rng: &mut R)
        ensures
            old(rng).log_enabled() ==> next_u16_log(
                old(rng).byte_log(),
                final(rng).byte_log(),
                *final(self),
            ),
    {
        *self = Self::rand(rng);
    }

    /// The written value obeys the same log clause as by-value generation.
    fn try_read_rand<R: TryRng>(&mut self, rng: &mut R) -> (r: Result<(), R::Error>)
        ensures
            old(rng).try_log_enabled() ==> (r is Ok ==> next_u16_log(
                old(rng).try_byte_log(),
                final(rng).try_byte_log(),
                *final(self),
            )),
    {
        match Self::try_rand(rng) {
            Ok(v) => {
                *self = v;
                Ok(())
            },
            Err(e) => Err(e),
        }
    }

    /// The generated value is read from the generator's log in little-endian
    /// order.
    fn rand<R: Rng>(rng: &mut R) -> (v: Self)
        ensures
            old(rng).log_enabled() ==> next_u16_log(
                old(rng).byte_log(),
                final(rng).byte_log(),
                v,
            ),
    {
        rng.next_u16()
    }

    /// The generated value is read from the generator's log in little-endian
    /// order.
    fn try_rand<R: TryRng>(rng: &mut R) -> (r: Result<Self, R::Error>)
        ensures
            old(rng).try_log_enabled() ==> (r matches Ok(v) ==> next_u16_log(
                old(rng).try_byte_log(),
                final(rng).try_byte_log(),
                v,
            )),
    {
        rng.try_next_u16()
    }
}

impl Rand for u32 {
    /// The written value obeys the same log clause as by-value generation.
    fn read_rand<R: Rng>(&mut self, rng: &mut R)
        ensures
            old(rng).log_enabled() ==> next_u32_log(
                old(rng).byte_log(),
                final(rng).byte_log(),
                *final(self),
            ),
    {
        *self = Self::rand(rng);
    }

    /// The written value obeys the same log clause as by-value generation.
    fn try_read_rand<R: TryRng>(&mut self, rng: &mut R) -> (r: Result<(), R::Error>)
        ensures
            old(rng).try_log_enabled() ==> (r is Ok ==> next_u32_log(
                old(rng).try_byte_log(),
                final(rng).try_byte_log(),
                *final(self),
            )),
    {
        match Self::try_rand(rng) {
            Ok(v) => {
                *self = v;
                Ok(())
            },
            Err(e) => Err(e),
        }
    }

    /// The generator's log grows by exactly the value's little-endian bytes.
    fn rand<R: Rng>(rng: &mut R) -> (v: Self)
        ensures
            old(rng).log_enabled() ==> next_u32_log(
                old(rng).byte_log(),
                final(rng).byte_log(),
                v,
            ),
    {
        let v = rng.next_u32();
        proof {
            if old(rng).log_enabled() {
                lemma_log_extends(old(rng).byte_log(), vstd::bytes::spec_u32_to_le_bytes(v));
            }
        }
        v
    }

    /// The generator's log grows by exactly the value's little-endian bytes.
    fn try_rand<R: TryRng>(rng: &mut R) -> (r: Result<Self, R::Error>)
        ensures
            old(rng).try_log_enabled() ==> (r matches Ok(v) ==> next_u32_log(
                old(rng).try_byte_log(),
                final(rng).try_byte_log(),
                v,
            )),
    {
        let r = rng.try_next_u32();
        proof {
            if old(rng).try_log_enabled() {
                if let Ok(v) = r {
                    lemma_log_extends(
                        old(rng).try_byte_log(),
                        vstd::bytes::spec_u32_to_le_bytes(v),
                    );
                }
            }
        }
        r
    }
}

impl Rand for u64 {
    /// The written value obeys the same log clause as by-value generation.
    fn read_rand<R: Rng>(&mut self, rng: &mut R)
        ensures
            old(rng).log_enabled() ==> next_u64_log(
                old(rng).byte_log(),
                final(rng).byte_log(),
                *final(self),
            ),
    {
        *self = Self::rand(rng);
    }

    /// The written value obeys the same log clause as by-value generation.
    fn try_read_rand<R: TryRng>(&mut self, rng: &mut R) -> (r: Result<(), R::Error>)
        ensures
            old(rng).try_log_enabled() ==> (r is Ok ==> next_u64_log(
                old(rng).try_byte_log(),
                final(rng).try_byte_log(),
                *final(self),
            )),
    {
        match Self::try_rand(rng) {
            Ok(v) => {
                *self = v;
                Ok(())
            },
            Err(e) => Err(e),
        }
    }

    /// The generator's log grows by exactly the value's little-endian bytes.
    fn rand<R: Rng>(rng: &mut R) -> (v: Self)
        ensures
            old(rng).log_enabled() ==> next_u64_log(
                old(rng).byte_log(),
                final(rng).byte_log(),
                v,
            ),
    {
        let v = rng.next_u64();
        proof {
            if old(rng).log_enabled() {
                lemma_log_extends(old(rng).byte_log(), spec_u64_to_le_bytes(v));
            }
        }
        v
    }

    /// The generator's log grows by exactly the value's little-endian bytes.
    fn try_rand<R: TryRng>(rng: &mut R) -> (r: Result<Self, R::Error>)
        ensures
            old(rng).try_log_enabled() ==> (r matches Ok(v) ==> next_u64_log(
                old(rng).try_byte_log(),
                final(rng).try_byte_log(),
                v,
            )),
    {
        let r = rng.try_next_u64();
        proof {
            if old(rng).try_log_enabled() {
                if let Ok(v) = r {
                    lemma_log_extends(old(rng).try_byte_log(), spec_u64_to_le_bytes(v));
                }
            }
        }
        r
    }
}

impl Rand for u128 {
    /// The written value obeys the same log clause as by-value generation.
    fn read_rand<R: Rng>(&mut self, rng: &mut R)
        ensures
            old(rng).log_enabled() ==> next_u128_log(
                old(rng).byte_log(),
                final(rng).byte_log(),
                *final(self),
            ),
    {
        *self = Self::rand(rng);
    }

    /// The written value obeys the same log clause as by-value generation.
    fn try_read_rand<R: TryRng>(&mut self, rng: &mut R) -> (r: Result<(), R::Error>)
        ensures
            old(rng).try_log_enabled() ==> (r is Ok ==> next_u128_log(
                old(rng).try_byte_log(),
                final(rng).try_byte_log(),
                *final(self),
            )),
    {
        match Self::try_rand(rng) {
            Ok(v) => {
                *self = v;
                Ok(())
            },
            Err(e) => Err(e),
        }
    }

    /// The generator's log grows by exactly the value's little-endian bytes.
    fn rand<R: Rng>(rng: &mut R) -> (v: Self)
        ensures
            old(rng).log_enabled() ==> next_u128_log(
                old(rng).byte_log(),
                final(rng).byte_log(),
                v,
            ),
    {
        let v = rng.next_u128();
        proof {
            if old(rng).log_enabled() {
                lemma_log_extends(old(rng).byte_log(), vstd::bytes::spec_u128_to_le_bytes(v));
            }
        }
        v
    }

    /// The generator's log grows by exactly the value's little-endian bytes.
    fn try_rand<R: TryRng>(rng: &mut R) -> (r: Result<Self, R::Error>)
        ensures
            old(rng).try_log_enabled() ==> (r matches Ok(v) ==> next_u128_log(
                old(rng).try_byte_log(),
                final(rng).try_byte_log(),
                v,
            )),
    {
        let r = rng.try_next_u128();
        proof {
            if old(rng).try_log_enabled() {
                if let Ok(v) = r {
                    lemma_log_extends(
                        old(rng).try_byte_log(),
                        vstd::bytes::spec_u128_to_le_bytes(v),
                    );
                }
            }
        }
        r
    }
}

/// What generating a pointer-sized integer adds to a generator's byte log:
/// one 64-bit word is drawn, and the value is that word narrowed to the
/// pointer width.
pub open spec fn next_usize_log(oldl: Seq<u8>, newl: Seq<u8>, v: usize) -> bool {
    &&& oldl.is_prefix_of(newl)
    &&& newl.len() == oldl.len() + 8
    &&& v == spec_u64_from_le_bytes(newl.subrange(oldl.len() as int, oldl.len() + 8int)) as usize
}

impl Rand for usize {
    /// The written value obeys the same log clause as by-value generation.
    fn read_rand<R: Rng>(&mut self, rng: &mut R)
        ensures
            old(rng).log_enabled() ==> next_usize_log(
                old(rng).byte_log(),
                final(rng).byte_log(),
                *final(self),
            ),
    {
        *self = Self::rand(rng);
    }

    /// The written value obeys the same log clause as by-value generation.
    fn try_read_rand<R: TryRng>(&mut self, rng: &mut R) -> (r: Result<(), R::Error>)
        ensures
            old(rng).try_log_enabled() ==> (r is Ok ==> next_usize_log(
                old(rng).try_byte_log(),
                final(rng).try_byte_log(),
                *final(self),
            )),
    {
        match Self::try_rand(rng) {
            Ok(v) => {
                *self = v;
                Ok(())
            },
            Err(e) => Err(e),
        }
    }

    /// A 64-bit word is drawn and narrowed to the pointer width.
    fn rand<R: Rng>(rng: &mut R) -> (v: Self)
        ensures
            old(rng).log_enabled() ==> next_usize_log(
                old(rng).byte_log(),
                final(rng).byte_log(),
                v,
            ),
    {
        let w = rng.next_u64();
        proof {
            if old(rng).log_enabled() {
                lemma_auto_spec_u64_to_from_le_bytes();
                lemma_log_extends(old(rng).byte_log(), spec_u64_to_le_bytes(w));
            }
        }
        #[verifier::truncate] (w as usize)
    }

    /// A 64-bit word is drawn and narrowed to the pointer width.
    fn try_rand<R: TryRng>(rng: &mut R) -> (r: Result<Self, R::Error>)
        ensures
            old(rng).try_log_enabled() ==> (r matches Ok(v) ==> next_usize_log(
                old(rng).try_byte_log(),
                final(rng).try_byte_log(),
                v,
            )),
    {
        match rng.try_next_u64() {
            Ok(w) => {
                proof {
                    if old(rng).try_log_enabled() {
                        lemma_auto_spec_u64_to_from_le_bytes();
                        lemma_log_extends(old(rng).try_byte_log(), spec_u64_to_le_bytes(w));
                    }
                }
                Ok(#[verifier::truncate] (w as usize))
            },
            Err(e) => Err(e),
        }
    }
}

} // verus!

//! Extended functionality for slices.

use vstd::prelude::*;
use crate::rand_in::{last_u64_of, parses_into, RandIn};
use crate::rng::{words_of, Rng, TryRng};
use crate::shuffle::{replay_shuffle, Shuffle};

verus! {

/// Extended functionality for slices: random element selection, checked and
/// unchecked, by shared or mutable reference, and in-place shuffling.
pub trait SliceExt<A>: View<V = Seq<A>> {
    /// Returns a random shared reference in `self` without `rng` failing.
    fn get_rand<'a, R: Rng>(&'a self, rng: &mut R) -> (r: Option<&'a A>)
        ensures
            final(rng).log_enabled() == old(rng).log_enabled(),
            old(rng).log_enabled() ==> old(rng).byte_log().is_prefix_of(final(rng).byte_log()),
            r is Some <==> self@.len() > 0,
            self@.len() == 0 ==> *final(rng) == *old(rng),
            r matches Some(x) ==> exists|i: int| 0 <= i < self@.len() && *x == #[trigger] self@[i],
            old(rng).log_enabled() ==> (r matches Some(x) ==> ({
                let newl = final(rng).byte_log();
                &&& newl.len() - old(rng).byte_log().len() >= 8
                &&& (newl.len() - old(rng).byte_log().len()) % 8 == 0
                &&& *x == self@[(last_u64_of(newl) as int) % (self@.len() as int)]
            })),
    ;

    /// Returns a random shared reference in `self`, returning an error if
    /// `rng` fails.
    fn try_get_rand<'a, R: TryRng>(&'a self, rng: &mut R) -> (r: Result<Option<&'a A>, R::Error>)
        ensures
            final(rng).can_fail() == old(rng).can_fail(),
            !old(rng).can_fail() ==> r is Ok,
            final(rng).try_log_enabled() == old(rng).try_log_enabled(),
            old(rng).try_log_enabled() ==> old(rng).try_byte_log().is_prefix_of(
                final(rng).try_byte_log(),
            ),
            r matches Ok(p) ==> (p is Some <==> self@.len() > 0),
            self@.len() == 0 ==> (r is Ok && *final(rng) == *old(rng)),
            r matches Ok(p) ==> (p matches Some(x) ==> exists|i: int|
                0 <= i < self@.len() && *x == #[trigger] self@[i]),
            old(rng).try_log_enabled() ==> (r matches Ok(p) ==> (p matches Some(x) ==> ({
                let newl = final(rng).try_byte_log();
                &&& newl.len() - old(rng).try_byte_log().len() >= 8
                &&& (newl.len() - old(rng).try_byte_log().len()) % 8 == 0
                &&& *x == self@[(last_u64_of(newl) as int) % (self@.len() as int)]
            }))),
    ;

    /// Returns a random mutable reference in `self` without `rng` failing.
    fn get_rand_mut<'a, R: Rng>(&'a mut self, rng: &mut R) -> (r: Option<&'a mut A>)
        ensures
            final(rng).log_enabled() == old(rng).log_enabled(),
            old(rng).log_enabled() ==> old(rng).byte_log().is_prefix_of(final(rng).byte_log()),
            r is Some <==> old(self)@.len() > 0,
            old(self)@.len() == 0 ==> *final(rng) == *old(rng),
            r matches Some(m) ==> exists|i: int|
                {
                    &&& 0 <= i < old(self)@.len()
                    &&& *m == old(self)@[i]
                    &&& final(self)@ == #[trigger] old(self)@.update(i, *final(m))
                },
            r is None ==> final(self)@ == old(self)@,
            old(rng).log_enabled() ==> (r matches Some(m) ==> ({
                let newl = final(rng).byte_log();
                let at = (last_u64_of(newl) as int) % (old(self)@.len() as int);
                &&& newl.len() - old(rng).byte_log().len() >= 8
                &&& (newl.len() - old(rng).byte_log().len()) % 8 == 0
                &&& *m == old(self)@[at]
                &&& final(self)@ == old(self)@.update(at, *final(m))
            })),
    ;

    /// Returns a random mutable reference in `self`, returning an error if
    /// `rng` fails.
    fn try_get_rand_mut<'a, R: TryRng>(&'a mut self, rng: &mut R) -> (r: Result<
        Option<&'a mut A>,
        R::Error,
    >)
        ensures
            final(rng).can_fail() == old(rng).can_fail(),
            !old(rng).can_fail() ==> r is Ok,
            final(rng).try_log_enabled() == old(rng).try_log_enabled(),
            old(rng).try_log_enabled() ==> old(rng).try_byte_log().is_prefix_of(
                final(rng).try_byte_log(),
            ),
            r matches Ok(p) ==> (p is Some <==> old(self)@.len() > 0),
            old(self)@.len() == 0 ==> (r is Ok && *final(rng) == *old(rng)),
            r matches Ok(Some(m)) ==> exists|i: int|
                {
                    &&& 0 <= i < old(self)@.len()
                    &&& *m == old(self)@[i]
                    &&& final(self)@ == #[trigger] old(self)@.update(i, *final(m))
                },
            r matches Ok(None) ==> final(self)@ == old(self)@,
            r is Err ==> final(self)@ == old(self)@,
            old(rng).try_log_enabled() ==> (r matches Ok(p) ==> (p matches Some(m) ==> ({
                let newl = final(rng).try_byte_log();
                let at = (last_u64_of(newl) as int) % (old(self)@.len() as int);
                &&& newl.len() - old(rng).try_byte_log().len() >= 8
                &&& (newl.len() - old(rng).try_byte_log().len()) % 8 == 0
                &&& *m == old(self)@[at]
                &&& final(self)@ =~= old(self)@.update(at, *final(m))
            }))),
    ;

    /// Returns a random shared reference in `self` without `rng` failing;
    /// `self` must not be empty.
    fn get_rand_unchecked<'a, R: Rng>(&'a self, rng: &mut R) -> (x: &'a A)
        requires
            self@.len() > 0,
        ensures
            final(rng).log_enabled() == old(rng).log_enabled(),
            old(rng).log_enabled() ==> old(rng).byte_log().is_prefix_of(final(rng).byte_log()),
            exists|i: int| 0 <= i < self@.len() && *x == #[trigger] self@[i],
            old(rng).log_enabled() ==> ({
                let newl = final(rng).byte_log();
                &&& newl.len() - old(rng).byte_log().len() >= 8
                &&& (newl.len() - old(rng).byte_log().len()) % 8 == 0
                &&& *x == self@[(last_u64_of(newl) as int) % (self@.len() as int)]
            }),
    ;

    /// Returns a random shared reference in `self`, returning an error if
    /// `rng` fails; `self` must not be empty.
    fn try_get_rand_unchecked<'a, R: TryRng>(&'a self, rng: &mut R) -> (r: Result<&'a A, R::Error>)
        requires
            self@.len() > 0,
        ensures
            final(rng).can_fail() == old(rng).can_fail(),
            !old(rng).can_fail() ==> r is Ok,
            final(rng).try_log_enabled() == old(rng).try_log_enabled(),
            old(rng).try_log_enabled() ==> old(rng).try_byte_log().is_prefix_of(
                final(rng).try_byte_log(),
            ),
            r matches Ok(x) ==> exists|i: int| 0 <= i < self@.len() && *x == #[trigger] self@[i],
            old(rng).try_log_enabled() ==> (r matches Ok(x) ==> ({
                let newl = final(rng).try_byte_log();
                &&& newl.len() - old(rng).try_byte_log().len() >= 8
                &&& (newl.len() - old(rng).try_byte_log().len()) % 8 == 0
                &&& *x == self@[(last_u64_of(newl) as int) % (self@.len() as int)]
            })),
    ;

    /// Returns a random mutable reference in `self` without `rng` failing;
    /// `self` must not be empty.
    fn get_rand_mut_unchecked<'a, R: Rng>(&'a mut self, rng: &mut R) -> (m: &'a mut A)
        requires
            old(self)@.len() > 0,
        ensures
            final(rng).log_enabled() == old(rng).log_enabled(),
            old(rng).log_enabled() ==> old(rng).byte_log().is_prefix_of(final(rng).byte_log()),
            exists|i: int|
                {
                    &&& 0 <= i < old(self)@.len()
                    &&& *m == old(self)@[i]
                    &&& final(self)@ == #[trigger] old(self)@.update(i, *final(m))
                },
            old(rng).log_enabled() ==> ({
                let newl = final(rng).byte_log();
                let at = (last_u64_of(newl) as int) % (old(self)@.len() as int);
                &&& newl.len() - old(rng).byte_log().len() >= 8
                &&& (newl.len() - old(rng).byte_log().len()) % 8 == 0
                &&& *m == old(self)@[at]
                &&& final(self)@ == old(self)@.update(at, *final(m))
            }),
    ;

    /// Returns a random mutable reference in `self`, returning an error if
    /// `rng` fails; `self` must not be empty.
    fn try_get_rand_mut_unchecked<'a, R: TryRng>(&'a mut self, rng: &mut R) -> (r: Result<
        &'a mut A,
        R::Error,
    >)
        requires
            old(self)@.len() > 0,
        ensures
            final(rng).can_fail() == old(rng).can_fail(),
            !old(rng).can_fail() ==> r is Ok,
            final(rng).try_log_enabled() == old(rng).try_log_enabled(),
            old(rng).try_log_enabled() ==> old(rng).try_byte_log().is_prefix_of(
                final(rng).try_byte_log(),
            ),
            r matches Ok(m) ==> exists|i: int|
                {
                    &&& 0 <= i < old(self)@.len()
                    &&& *m == old(self)@[i]
                    &&& final(self)@ == #[trigger] old(self)@.update(i, *final(m))
                },
            r is Err ==> final(self)@ == old(self)@,
            old(rng).try_log_enabled() ==> (r matches Ok(m) ==> ({
                let newl = final(rng).try_byte_log();
                let at = (last_u64_of(newl) as int) % (old(self)@.len() as int);
                &&& newl.len() - old(rng).try_byte_log().len() >= 8
                &&& (newl.len() - old(rng).try_byte_log().len()) % 8 == 0
                &&& *m == old(self)@[at]
                &&& final(self)@ =~= old(self)@.update(at, *final(m))
            })),
    ;

    /// Shuffles `self` in place without fail, keeping the multiset of
    /// elements unchanged; for a modeled generator the final order is
    /// exactly the replay of the index draws its byte log records.
    fn shuffle<R: Rng>(&mut self, rng: &mut R)
        ensures
            final(self)@.len() == old(self)@.len(),
            final(self)@.to_multiset() == old(self)@.to_multiset(),
            final(rng).log_enabled() == old(rng).log_enabled(),
            old(rng).log_enabled() ==> old(rng).byte_log().is_prefix_of(final(rng).byte_log()),
            old(self)@.len() == 0 ==> *final(rng) == *old(rng),
            old(rng).log_enabled() ==> ({
                let oldl = old(rng).byte_log();
                let newl = final(rng).byte_log();
                let ws = words_of(newl.skip(oldl.len() as int));
                &&& (newl.len() - oldl.len()) % 8 == 0
                &&& parses_into(old(self)@.len() as u64, ws, old(self)@.len() as nat)
                &&& final(self)@ == replay_shuffle(old(self)@, ws)
            }),
    ;

    /// Shuffles `self` in place, returning an error if `rng` fails at any
    /// point; the multiset of elements is unchanged either way.  On
    /// success, for a modeled generator, the final order is exactly the
    /// replay of the index draws its byte log records.
    fn try_shuffle<R: TryRng>(&mut self, rng: &mut R) -> (r: Result<(), R::Error>)
        ensures
            final(self)@.len() == old(self)@.len(),
            final(self)@.to_multiset() == old(self)@.to_multiset(),
            final(rng).can_fail() == old(rng).can_fail(),
            !old(rng).can_fail() ==> r is Ok,
            final(rng).try_log_enabled() == old(rng).try_log_enabled(),
            old(rng).try_log_enabled() ==> old(rng).try_byte_log().is_prefix_of(
                final(rng).try_byte_log(),
            ),
            old(self)@.len() == 0 ==> (r is Ok && *final(rng) == *old(rng)),
            old(rng).try_log_enabled() ==> (r is Ok ==> ({
                let oldl = old(rng).try_byte_log();
                let newl = final(rng).try_byte_log();
                let ws = words_of(newl.skip(oldl.len() as int));
                &&& (newl.len() - oldl.len()) % 8 == 0
                &&& parses_into(old(self)@.len() as u64, ws, old(self)@.len() as nat)
                &&& final(self)@ == replay_shuffle(old(self)@, ws)
            })),
    ;
}

impl<A> SliceExt<A> for [A] {
    fn get_rand<'a, R: Rng>(&'a self, rng: &mut R) -> (r: Option<&'a A>) {
        <&A>::rand_in(rng, self)
    }

    fn try_get_rand<'a, R: TryRng>(&'a self, rng: &mut R) -> (r: Result<
        Option<&'a A>,
        R::Error,
    >) {
        <&A>::try_rand_in(rng, self)
    }

    fn get_rand_mut<'a, R: Rng>(&'a mut self, rng: &mut R) -> (r: Option<&'a mut A>) {
        <&mut A>::rand_in(rng, self)
    }

    fn try_get_rand_mut<'a, R: TryRng>(&'a mut self, rng: &mut R) -> (r: Result<
        Option<&'a mut A>,
        R::Error,
    >) {
        <&mut A>::try_rand_in(rng, self)
    }

    fn get_rand_unchecked<'a, R: Rng>(&'a self, rng: &mut R) -> (x: &'a A) {
        <&A>::rand_in_unchecked(rng, self)
    }

    fn try_get_rand_unchecked<'a, R: TryRng>(&'a self, rng: &mut R) -> (r: Result<
        &'a A,
        R::Error,
    >) {
        <&A>::try_rand_in_unchecked(rng, self)
    }

    fn get_rand_mut_unchecked<'a, R: Rng>(&'a mut self, rng: &mut R) -> (m: &'a mut A) {
        <&mut A>::rand_in_unchecked(rng, self)
    }

    fn try_get_rand_mut_unchecked<'a, R: TryRng>(&'a mut self, rng: &mut R) -> (r: Result<
        &'a mut A,
        R::Error,
    >) {
        <&mut A>::try_rand_in_unchecked(rng, self)
    }

    fn shuffle<R: Rng>(&mut self, rng: &mut R) {
        Shuffle::shuffle(self, rng)
    }

    fn try_shuffle<R: TryRng>(&mut self, rng: &mut R) -> (r: Result<(), R::Error>) {
        Shuffle::try_shuffle(self, rng)
    }
}

} // verus!

//! In-place shuffling of a sequence.

use vstd::prelude::*;
use crate::rand_in::{accepted_at, lemma_accepted_at_concat, lemma_first_accept_nonneg,
    parses_into, RandIn};
use crate::rng::{lemma_prefix_trans, lemma_skip_split, lemma_words_of_concat, words_of, Rng,
    TryRng};

verus! {

pub assume_specification<Elem>[ <[Elem]>::swap ](slice: &mut [Elem], a: usize, b: usize)
    requires
        a < old(slice)@.len(),
        b < old(slice)@.len(),
    ensures
        final(slice)@ == old(slice)@.update(a as int, old(slice)@[b as int]).update(
            b as int,
            old(slice)@[a as int],
        ),
;

/// A sequence with the elements at `i` and `j` exchanged.
pub open spec fn swapped<A>(s: Seq<A>, i: int, j: int) -> Seq<A>
    recommends
        0 <= i < s.len(),
        0 <= j < s.len(),
{
    s.update(i, s[j]).update(j, s[i])
}

/// The shuffle, replayed from the words a generator's byte log recorded:
/// starting at position `i`, each step reads one complete index draw over
/// the full length off the front of `ws` (rejected words up to the accepted
/// one) and exchanges the current position with the drawn index.  The
/// replay stops where the word sequence ends short of a complete draw.
pub open spec fn replay_shuffle_from<A>(s: Seq<A>, ws: Seq<u64>, i: int) -> Seq<A>
    decreases s.len() - i,
{
    if !(0 <= i < s.len()) {
        s
    } else {
        let a = accepted_at(ws, s.len() as u64);
        if !(0 <= a < ws.len()) {
            s
        } else {
            let j = (ws[a] as int) % (s.len() as int);
            replay_shuffle_from(swapped(s, i, j), ws.skip(a + 1), i + 1)
        }
    }
}

/// The whole shuffle as a function of the words the generator produced.
pub open spec fn replay_shuffle<A>(s: Seq<A>, ws: Seq<u64>) -> Seq<A> {
    replay_shuffle_from(s, ws, 0)
}

/// Exchanging two positions of a sequence keeps its multiset of elements.
proof fn lemma_swap_multiset<A>(s: Seq<A>, i: int, j: int)
    requires
        0 <= i < s.len(),
        0 <= j < s.len(),
    ensures
        s.update(i, s[j]).update(j, s[i]).to_multiset() == s.to_multiset(),
{
    broadcast use vstd::seq_lib::group_to_multiset_ensures;
    broadcast use vstd::seq_lib::to_multiset_update;

    if i == j {
        assert(s.update(i, s[j]).update(j, s[i]) =~= s);
    } else {
        let s1 = s.update(i, s[j]);
        let s2 = s1.update(j, s[i]);
        assert(s1[j] == s[j]);
        assert(s1.to_multiset() == s.to_multiset().insert(s[j]).remove(s[i]));
        assert(s2.to_multiset() == s1.to_multiset().insert(s[i]).remove(s[j]));
        assert(s.to_multiset().contains(s[i]));
        assert(s2.to_multiset() =~= s.to_multiset());
    }
}

/// Appending one complete draw to `k` parsed draws replays as one more
/// exchange: the replay of the extended word sequence is the replay of the
/// old one with position `pos + k` exchanged against the index the new
/// draw accepted.
proof fn lemma_replay_append<A>(s: Seq<A>, ws: Seq<u64>, step: Seq<u64>, k: nat, pos: int)
    requires
        0 <= pos,
        pos + k < s.len(),
        parses_into(s.len() as u64, ws, k),
        step.len() >= 1,
        accepted_at(step, s.len() as u64) == step.len() - 1,
    ensures
        parses_into(s.len() as u64, ws + step, (k + 1) as nat),
        replay_shuffle_from(s, ws + step, pos) == swapped(
            replay_shuffle_from(s, ws, pos),
            pos + k,
            (step.last() as int) % (s.len() as int),
        ),
    decreases k,
{
    let span = s.len() as u64;
    if k == 0 {
        assert(ws.len() == 0);
        assert(ws + step =~= step);
        let a = accepted_at(step, span);
        let j = (step[a] as int) % (s.len() as int);
        assert(step.skip(step.len() as int) =~= Seq::<u64>::empty());
        assert(replay_shuffle_from(swapped(s, pos, j), Seq::<u64>::empty(), pos + 1) == swapped(
            s,
            pos,
            j,
        ));
        assert(replay_shuffle_from(s, step, pos) == swapped(s, pos, j));
        assert(replay_shuffle_from(s, ws, pos) == s);
        assert(parses_into(span, step.skip(a + 1), 0nat));
        assert(parses_into(span, step, 1nat));
    } else {
        let a = accepted_at(ws, span);
        lemma_first_accept_nonneg(ws, span);
        lemma_accepted_at_concat(ws, step, span);
        assert((ws + step)[a] == ws[a]);
        assert((ws + step).skip(a + 1) =~= ws.skip(a + 1) + step);
        let j0 = (ws[a] as int) % (s.len() as int);
        let s1 = swapped(s, pos, j0);
        assert(s1.len() == s.len());
        lemma_replay_append(s1, ws.skip(a + 1), step, (k - 1) as nat, pos + 1);
        assert(replay_shuffle_from(s, ws, pos) == replay_shuffle_from(
            s1,
            ws.skip(a + 1),
            pos + 1,
        ));
        assert(replay_shuffle_from(s, ws + step, pos) == replay_shuffle_from(
            s1,
            ws.skip(a + 1) + step,
            pos + 1,
        ));
        assert(parses_into(span, (ws + step).skip(a + 1), k));
        assert(parses_into(span, ws + step, (k + 1) as nat));
    }
}

/// A type whose contents can be permuted in place via a random number
/// generator.
pub trait Shuffle<A>: View<V = Seq<A>> {
    /// Shuffles `self` in place without fail.  No element is created,
    /// duplicated or lost: the multiset of elements is unchanged; and for a
    /// modeled generator the final order is exactly the replay of the index
    /// draws its byte log records.
    fn shuffle<R: Rng>(&mut self, rng: &mut R)
        ensures
            final(self)@.len() == old(self)@.len(),
            final(self)@.to_multiset() == old(self)@.to_multiset(),
            final(rng).log_enabled() == old(rng).log_enabled(),
            old(rng).log_enabled() ==> old(rng).byte_log().is_prefix_of(final(rng).byte_log()),
            old(self)@.len() == 0 ==> *final(rng) == *old(rng),
            old(rng).log_enabled() ==> ({
                let oldl = old(rng).byte_log();
                let newl = final(rng).byte_log();
                let ws = words_of(newl.skip(oldl.len() as int));
                &&& (newl.len() - oldl.len()) % 8 == 0
                &&& parses_into(old(self)@.len() as u64, ws, old(self)@.len() as nat)
                &&& final(self)@ == replay_shuffle(old(self)@, ws)
            }),
    ;

    /// Shuffles `self` in place, returning an error if `rng` fails at any
    /// point.  Whether it completes or stops at an error, no element is
    /// created, duplicated or lost: the multiset of elements is unchanged.
    /// On success, for a modeled generator, the log holds exactly one
    /// complete index draw per position and the final order is their
    /// replay.
    fn try_shuffle<R: TryRng>(&mut self, rng: &mut R) -> (r: Result<(), R::Error>)
        ensures
            final(self)@.len() == old(self)@.len(),
            final(self)@.to_multiset() == old(self)@.to_multiset(),
            final(rng).can_fail() == old(rng).can_fail(),
            !old(rng).can_fail() ==> r is Ok,
            final(rng).try_log_enabled() == old(rng).try_log_enabled(),
            old(rng).try_log_enabled() ==> old(rng).try_byte_log().is_prefix_of(
                final(rng).try_byte_log(),
            ),
            old(self)@.len() == 0 ==> (r is Ok && *final(rng) == *old(rng)),
            old(rng).try_log_enabled() ==> (r is Ok ==> ({
                let oldl = old(rng).try_byte_log();
                let newl = final(rng).try_byte_log();
                let ws = words_of(newl.skip(oldl.len() as int));
                &&& (newl.len() - oldl.len()) % 8 == 0
                &&& parses_into(old(self)@.len() as u64, ws, old(self)@.len() as nat)
                &&& final(self)@ == replay_shuffle(old(self)@, ws)
            })),
    ;
}

impl<A> Shuffle<A> for [A] {
    fn shuffle<R: Rng>(&mut self, rng: &mut R) {
        match self.try_shuffle(rng) {
            Ok(()) => {},
            Err(_) => unreached(),
        }
    }

    /// Exchanges each position in turn with a position drawn uniformly from
    /// the whole sequence.  The draw deliberately runs over the full index
    /// range at every step, not over the shrinking tail of the textbook
    /// in-place shuffle, so the permutation distribution differs from the
    /// uniform one; this is kept as the defined behaviour.
    fn try_shuffle<R: TryRng>(&mut self, rng: &mut R) -> (r: Result<(), R::Error>) {
        let n = self.len();
        if n == 0 {
            proof {
                assert(words_of(Seq::<u8>::empty()) =~= Seq::<u64>::empty());
            }
            return Ok(());
        }
        let ghost log0 = rng.try_byte_log();
        let mut i: usize = 0;
        while i < n
            invariant
                1 <= n,
                i <= n,
                n == self@.len(),
                self@.len() == old(self)@.len(),
                self@.to_multiset() == old(self)@.to_multiset(),
                rng.can_fail() == old(rng).can_fail(),
                rng.try_log_enabled() == old(rng).try_log_enabled(),
                log0 == old(rng).try_byte_log(),
                rng.try_log_enabled() ==> ({
                    let diff = rng.try_byte_log().skip(log0.len() as int);
                    &&& log0.is_prefix_of(rng.try_byte_log())
                    &&& diff.len() % 8 == 0
                    &&& parses_into(n as u64, words_of(diff), i as nat)
                    &&& replay_shuffle_from(old(self)@, words_of(diff), 0) == self@
                }),
            decreases n - i,
        {
            let ghost log_pre = rng.try_byte_log();
            let ghost s_pre = self@;
            let j = match usize::try_rand_in_unchecked(rng, 0usize..n) {
                Ok(j) => j,
                Err(e) => {
                    proof {
                        if rng.try_log_enabled() {
                            lemma_prefix_trans(log0, log_pre, rng.try_byte_log());
                        }
                    }
                    return Err(e);
                },
            };
            self.swap(i, j);
            proof {
                lemma_swap_multiset(s_pre, i as int, j as int);
                if rng.try_log_enabled() {
                    let cur = rng.try_byte_log();
                    let olddiff = log_pre.skip(log0.len() as int);
                    let stepdiff = cur.skip(log_pre.len() as int);
                    let step_ws = words_of(stepdiff);
                    lemma_prefix_trans(log0, log_pre, cur);
                    lemma_skip_split(log0, log_pre, cur);
                    lemma_words_of_concat(olddiff, stepdiff);
                    lemma_replay_append(old(self)@, words_of(olddiff), step_ws, i as nat, 0);
                    assert(swapped(s_pre, i as int, j as int) == self@);
                    assert(replay_shuffle_from(
                        old(self)@,
                        words_of(cur.skip(log0.len() as int)),
                        0,
                    ) == self@);
                }
            }
            i = i + 1;
        }
        Ok(())
    }
}

} // verus!

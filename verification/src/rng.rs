//! The capability interface: infallible and fallible random byte generation.
//!
//! A generator is modelled by a ghost *byte log*: the little-endian bytes of
//! every word it has produced so far.  A generator that opts into the model
//! (`log_enabled`) promises that each operation appends to the log exactly as
//! its contract states; derived algorithms such as
//! [`try_fill_bytes_via_next`] then pin their output down to the bytes the
//! generator produced.  A generator for which no such log is meaningful (for
//! example one backed by an I/O stream) reports `log_enabled() == false` and
//! every log clause is vacuous for it.

use vstd::prelude::*;
use vstd::bytes::{
    spec_u16_to_le_bytes, spec_u32_to_le_bytes, spec_u64_from_le_bytes, spec_u64_to_le_bytes,
    spec_u128_to_le_bytes,
    lemma_auto_spec_u16_to_from_le_bytes, lemma_auto_spec_u32_to_from_le_bytes,
    lemma_auto_spec_u64_to_from_le_bytes, lemma_auto_spec_u128_to_from_le_bytes,
    u16_from_le_bytes, u32_from_le_bytes, u64_from_le_bytes, u128_from_le_bytes,
    u32_to_le_bytes, u64_to_le_bytes,
};

verus! {

/// The error type of every generator that cannot fail.
///
/// No function of this crate ever constructs a `Never`, and its field is
/// private, so no value of it can be made elsewhere either.  Every fallible
/// operation whose generator reports `!can_fail()` is proved to return `Ok`,
/// so an `Err(Never)` is never produced.  (At the specification level every
/// type has a value, so the impossibility is carried by the `can_fail`
/// contracts rather than by an empty type.)
#[derive(Clone, Copy, Debug, PartialEq, Eq, PartialOrd, Ord, Hash)]
pub struct Never(());

/// What a successful whole-buffer fill adds to a generator's byte log:
/// the log grows by at least the buffer's length, the buffer holds exactly
/// the first of the freshly produced bytes, and a fill whose length is a
/// multiple of four produces no bytes beyond the buffer (word-at-a-time
/// generators round odd lengths up to a whole 32- or 64-bit word).
pub open spec fn fill_log(oldl: Seq<u8>, newl: Seq<u8>, buf: Seq<u8>) -> bool {
    &&& oldl.is_prefix_of(newl)
    &&& newl.len() - oldl.len() >= buf.len()
    &&& (buf.len() % 4 == 0 ==> newl.len() - oldl.len() == buf.len())
    &&& buf == newl.subrange(oldl.len() as int, oldl.len() + buf.len() as int)
}

/// What producing one 8-bit value adds to a generator's byte log: the value
/// is the first freshly produced byte (a word-at-a-time generator may have
/// drawn a wider word and discarded the rest).
pub open spec fn next_u8_log(oldl: Seq<u8>, newl: Seq<u8>, b: u8) -> bool {
    &&& oldl.is_prefix_of(newl)
    &&& newl.len() > oldl.len()
    &&& newl[oldl.len() as int] == b
}

/// What producing one 16-bit value adds to a generator's byte log: the
/// value's little-endian bytes are the first freshly produced bytes.
pub open spec fn next_u16_log(oldl: Seq<u8>, newl: Seq<u8>, w: u16) -> bool {
    &&& oldl.is_prefix_of(newl)
    &&& newl.len() - oldl.len() >= 2
    &&& newl.subrange(oldl.len() as int, oldl.len() + 2int) == spec_u16_to_le_bytes(w)
}

/// What producing one 32-bit value adds to a generator's byte log: exactly
/// the value's four little-endian bytes.
pub open spec fn next_u32_log(oldl: Seq<u8>, newl: Seq<u8>, w: u32) -> bool {
    newl == oldl + spec_u32_to_le_bytes(w)
}

/// What producing one 64-bit value adds to a generator's byte log: exactly
/// the value's eight little-endian bytes.
pub open spec fn next_u64_log(oldl: Seq<u8>, newl: Seq<u8>, w: u64) -> bool {
    newl == oldl + spec_u64_to_le_bytes(w)
}

/// What producing one 128-bit value adds to a generator's byte log: exactly
/// the value's sixteen little-endian bytes.
pub open spec fn next_u128_log(oldl: Seq<u8>, newl: Seq<u8>, w: u128) -> bool {
    newl == oldl + spec_u128_to_le_bytes(w)
}

/// A type that can be used to generate random numbers without fail.
pub trait Rng: Sized {
    /// Whether the byte-log model is meaningful for this generator.  A
    /// generator that does not say otherwise claims no model, and every log
    /// clause is vacuous for it.
    open spec fn log_enabled(&self) -> bool {
        false
    }

    /// The little-endian bytes of every word this generator has produced.
    open spec fn byte_log(&self) -> Seq<u8> {
        Seq::empty()
    }

    /// Fills `buf` with random bytes from `self`.
    fn fill_bytes(&mut self, buf: &mut [u8])
        ensures
            final(buf)@.len() == old(buf)@.len(),
            final(self).log_enabled() == old(self).log_enabled(),
            old(self).log_enabled() ==> fill_log(
                old(self).byte_log(),
                final(self).byte_log(),
                final(buf)@,
            ),
    ;

    /// Generates a random 8-bit integer.
    fn next_u8(&mut self) -> (b: u8)
        ensures
            final(self).log_enabled() == old(self).log_enabled(),
            old(self).log_enabled() ==> next_u8_log(
                old(self).byte_log(),
                final(self).byte_log(),
                b,
            ),
    {
        let mut buf: Vec<u8> = vec![0u8; 1];
        self.fill_bytes(buf.as_mut_slice());
        buf[0]
    }

    /// Generates a random 16-bit integer.
    fn next_u16(&mut self) -> (w: u16)
        ensures
            final(self).log_enabled() == old(self).log_enabled(),
            old(self).log_enabled() ==> next_u16_log(
                old(self).byte_log(),
                final(self).byte_log(),
                w,
            ),
    {
        let mut buf: Vec<u8> = vec![0u8; 2];
        self.fill_bytes(buf.as_mut_slice());
        let w = u16_from_le_bytes(buf.as_slice());
        proof {
            lemma_auto_spec_u16_to_from_le_bytes();
        }
        w
    }

    /// Generates a random 32-bit integer.
    fn next_u32(&mut self) -> (w: u32)
        ensures
            final(self).log_enabled() == old(self).log_enabled(),
            old(self).log_enabled() ==> next_u32_log(
                old(self).byte_log(),
                final(self).byte_log(),
                w,
            ),
    {
        let mut buf: Vec<u8> = vec![0u8; 4];
        self.fill_bytes(buf.as_mut_slice());
        let w = u32_from_le_bytes(buf.as_slice());
        proof {
            lemma_auto_spec_u32_to_from_le_bytes();
            if old(self).log_enabled() {
                assert((*self).byte_log() =~= old(self).byte_log() + spec_u32_to_le_bytes(w));
            }
        }
        w
    }

    /// Generates a random 64-bit integer.
    fn next_u64(&mut self) -> (w: u64)
        ensures
            final(self).log_enabled() == old(self).log_enabled(),
            old(self).log_enabled() ==> next_u64_log(
                old(self).byte_log(),
                final(self).byte_log(),
                w,
            ),
    {
        let mut buf: Vec<u8> = vec![0u8; 8];
        self.fill_bytes(buf.as_mut_slice());
        let w = u64_from_le_bytes(buf.as_slice());
        proof {
            lemma_auto_spec_u64_to_from_le_bytes();
            if old(self).log_enabled() {
                assert((*self).byte_log() =~= old(self).byte_log() + spec_u64_to_le_bytes(w));
            }
        }
        w
    }

    /// Generates a random 128-bit integer.
    fn next_u128(&mut self) -> (w: u128)
        ensures
            final(self).log_enabled() == old(self).log_enabled(),
            old(self).log_enabled() ==> next_u128_log(
                old(self).byte_log(),
                final(self).byte_log(),
                w,
            ),
    {
        let mut buf: Vec<u8> = vec![0u8; 16];
        self.fill_bytes(buf.as_mut_slice());
        let w = u128_from_le_bytes(buf.as_slice());
        proof {
            lemma_auto_spec_u128_to_from_le_bytes();
            if old(self).log_enabled() {
                assert((*self).byte_log() =~= old(self).byte_log() + spec_u128_to_le_bytes(w));
            }
        }
        w
    }
}

/// A type that can be used to generate random numbers, and may fail to do so.
pub trait TryRng: Sized {
    /// The error reported when `Self` fails to generate random numbers.
    type Error;

    /// Whether this generator can fail at all.  A generator for which this
    /// is `false` is proved to return `Ok` from every operation; the
    /// automatic fallible view of an infallible generator reports `false`.
    open spec fn can_fail(&self) -> bool {
        true
    }

    /// Whether the byte-log model is meaningful for this generator.  A
    /// generator that does not say otherwise claims no model, and every log
    /// clause is vacuous for it.
    open spec fn try_log_enabled(&self) -> bool {
        false
    }

    /// The little-endian bytes of every word this generator has produced.
    open spec fn try_byte_log(&self) -> Seq<u8> {
        Seq::empty()
    }

    /// Converts `self` into an [`Rng`](crate::Rng) that panics if an error
    /// occurs.
    fn into_panicking(self) -> (r: crate::panicking::PanickingRng<Self>)
        ensures
            r.0 == self,
    {
        crate::panicking::PanickingRng(self)
    }

    /// Fills `buf` with random bytes from `self`, returning an error upon
    /// failure.
    fn try_fill_bytes(&mut self, buf: &mut [u8]) -> (r: Result<(), Self::Error>)
        ensures
            final(buf)@.len() == old(buf)@.len(),
            final(self).can_fail() == old(self).can_fail(),
            !old(self).can_fail() ==> r is Ok,
            final(self).try_log_enabled() == old(self).try_log_enabled(),
            old(self).try_log_enabled() ==> match r {
                Ok(()) => fill_log(
                    old(self).try_byte_log(),
                    final(self).try_byte_log(),
                    final(buf)@,
                ),
                Err(_) => old(self).try_byte_log().is_prefix_of(final(self).try_byte_log()),
            },
    ;

    /// Generates a random 8-bit integer, returning an error upon failure.
    fn try_next_u8(&mut self) -> (r: Result<u8, Self::Error>)
        ensures
            final(self).can_fail() == old(self).can_fail(),
            !old(self).can_fail() ==> r is Ok,
            final(self).try_log_enabled() == old(self).try_log_enabled(),
            old(self).try_log_enabled() ==> match r {
                Ok(b) => next_u8_log(old(self).try_byte_log(), final(self).try_byte_log(), b),
                Err(_) => old(self).try_byte_log().is_prefix_of(final(self).try_byte_log()),
            },
    {
        let mut buf: Vec<u8> = vec![0u8; 1];
        match self.try_fill_bytes(buf.as_mut_slice()) {
            Ok(()) => Ok(buf[0]),
            Err(e) => Err(e),
        }
    }

    /// Generates a random 16-bit integer, returning an error upon failure.
    fn try_next_u16(&mut self) -> (r: Result<u16, Self::Error>)
        ensures
            final(self).can_fail() == old(self).can_fail(),
            !old(self).can_fail() ==> r is Ok,
            final(self).try_log_enabled() == old(self).try_log_enabled(),
            old(self).try_log_enabled() ==> match r {
                Ok(w) => next_u16_log(old(self).try_byte_log(), final(self).try_byte_log(), w),
                Err(_) => old(self).try_byte_log().is_prefix_of(final(self).try_byte_log()),
            },
    {
        let mut buf: Vec<u8> = vec![0u8; 2];
        match self.try_fill_bytes(buf.as_mut_slice()) {
            Ok(()) => {
                let w = u16_from_le_bytes(buf.as_slice());
                proof {
                    lemma_auto_spec_u16_to_from_le_bytes();
                }
                Ok(w)
            },
            Err(e) => Err(e),
        }
    }

    /// Generates a random 32-bit integer, returning an error upon failure.
    fn try_next_u32(&mut self) -> (r: Result<u32, Self::Error>)
        ensures
            final(self).can_fail() == old(self).can_fail(),
            !old(self).can_fail() ==> r is Ok,
            final(self).try_log_enabled() == old(self).try_log_enabled(),
            old(self).try_log_enabled() ==> match r {
                Ok(w) => next_u32_log(old(self).try_byte_log(), final(self).try_byte_log(), w),
                Err(_) => old(self).try_byte_log().is_prefix_of(final(self).try_byte_log()),
            },
    {
        let mut buf: Vec<u8> = vec![0u8; 4];
        match self.try_fill_bytes(buf.as_mut_slice()) {
            Ok(()) => {
                let w = u32_from_le_bytes(buf.as_slice());
                proof {
                    lemma_auto_spec_u32_to_from_le_bytes();
                    if old(self).try_log_enabled() {
                        assert((*self).try_byte_log() =~= old(self).try_byte_log()
                            + spec_u32_to_le_bytes(w));
                    }
                }
                Ok(w)
            },
            Err(e) => Err(e),
        }
    }

    /// Generates a random 64-bit integer, returning an error upon failure.
    fn try_next_u64(&mut self) -> (r: Result<u64, Self::Error>)
        ensures
            final(self).can_fail() == old(self).can_fail(),
            !old(self).can_fail() ==> r is Ok,
            final(self).try_log_enabled() == old(self).try_log_enabled(),
            old(self).try_log_enabled() ==> match r {
                Ok(w) => next_u64_log(old(self).try_byte_log(), final(self).try_byte_log(), w),
                Err(_) => old(self).try_byte_log().is_prefix_of(final(self).try_byte_log()),
            },
    {
        let mut buf: Vec<u8> = vec![0u8; 8];
        match self.try_fill_bytes(buf.as_mut_slice()) {
            Ok(()) => {
                let w = u64_from_le_bytes(buf.as_slice());
                proof {
                    lemma_auto_spec_u64_to_from_le_bytes();
                    if old(self).try_log_enabled() {
                        assert((*self).try_byte_log() =~= old(self).try_byte_log()
                            + spec_u64_to_le_bytes(w));
                    }
                }
                Ok(w)
            },
            Err(e) => Err(e),
        }
    }

    /// Generates a random 128-bit integer, returning an error upon failure.
    fn try_next_u128(&mut self) -> (r: Result<u128, Self::Error>)
        ensures
            final(self).can_fail() == old(self).can_fail(),
            !old(self).can_fail() ==> r is Ok,
            final(self).try_log_enabled() == old(self).try_log_enabled(),
            old(self).try_log_enabled() ==> match r {
                Ok(w) => next_u128_log(old(self).try_byte_log(), final(self).try_byte_log(), w),
                Err(_) => old(self).try_byte_log().is_prefix_of(final(self).try_byte_log()),
            },
    {
        let mut buf: Vec<u8> = vec![0u8; 16];
        match self.try_fill_bytes(buf.as_mut_slice()) {
            Ok(()) => {
                let w = u128_from_le_bytes(buf.as_slice());
                proof {
                    lemma_auto_spec_u128_to_from_le_bytes();
                    if old(self).try_log_enabled() {
                        assert((*self).try_byte_log() =~= old(self).try_byte_log()
                            + spec_u128_to_le_bytes(w));
                    }
                }
                Ok(w)
            },
            Err(e) => Err(e),
        }
    }
}

impl<R: Rng> TryRng for R {
    type Error = Never;

    open spec fn can_fail(&self) -> bool {
        false
    }

    open spec fn try_log_enabled(&self) -> bool {
        self.log_enabled()
    }

    open spec fn try_byte_log(&self) -> Seq<u8> {
        self.byte_log()
    }

    fn try_fill_bytes(&mut self, buf: &mut [u8]) -> (r: Result<(), Self::Error>) {
        self.fill_bytes(buf);
        Ok(())
    }

    fn try_next_u8(&mut self) -> (r: Result<u8, Self::Error>) {
        Ok(self.next_u8())
    }

    fn try_next_u16(&mut self) -> (r: Result<u16, Self::Error>) {
        Ok(self.next_u16())
    }

    fn try_next_u32(&mut self) -> (r: Result<u32, Self::Error>) {
        Ok(self.next_u32())
    }

    fn try_next_u64(&mut self) -> (r: Result<u64, Self::Error>) {
        Ok(self.next_u64())
    }

    fn try_next_u128(&mut self) -> (r: Result<u128, Self::Error>) {
        Ok(self.next_u128())
    }
}

/// A log extended by freshly produced bytes keeps the old log as a prefix,
/// and the fresh bytes are exactly the part beyond it.
pub proof fn lemma_log_extends(oldl: Seq<u8>, tail: Seq<u8>)
    ensures
        oldl.is_prefix_of(oldl + tail),
        (oldl + tail).subrange(oldl.len() as int, oldl.len() + tail.len() as int) == tail,
        (oldl + tail).len() == oldl.len() + tail.len(),
{
    assert(oldl =~= (oldl + tail).subrange(0, oldl.len() as int));
    assert(tail =~= (oldl + tail).subrange(oldl.len() as int, oldl.len() + tail.len() as int));
}

/// Every infallible generator, seen through its automatic fallible view,
/// reports that it cannot fail; together with the contract of every
/// [`TryRng`] operation, which returns `Ok` whenever `can_fail()` is false,
/// no such generator ever produces a failure value.
pub proof fn lemma_infallible_cannot_fail<R: Rng>(rng: &R)
    ensures
        !rng.can_fail(),
{
}

/// A prefix of a prefix is a prefix.
pub proof fn lemma_prefix_trans(a: Seq<u8>, b: Seq<u8>, c: Seq<u8>)
    requires
        a.is_prefix_of(b),
        b.is_prefix_of(c),
    ensures
        a.is_prefix_of(c),
{
    assert(a =~= c.subrange(0, a.len() as int));
}

/// How many bytes of words the byte-fill bridge draws to fill a buffer of
/// length `len`: whole 64-bit words while eight or more bytes remain, one
/// more 64-bit word for a remainder of five to seven bytes, and one 32-bit
/// word for a remainder of one to four bytes.
pub open spec fn bridge_bytes_drawn(len: nat) -> nat {
    if len % 8 == 0 {
        len
    } else if len % 8 > 4 {
        (len - len % 8 + 8) as nat
    } else {
        (len - len % 8 + 4) as nat
    }
}

/// The byte log read back as a sequence of 64-bit words, little-endian,
/// eight bytes per word; trailing bytes short of a whole word are dropped.
pub open spec fn words_of(l: Seq<u8>) -> Seq<u64> {
    Seq::new(l.len() / 8, |k: int| spec_u64_from_le_bytes(l.subrange(8 * k, 8 * k + 8)))
}

/// A log reached through two prefix extensions splits at the middle log.
pub proof fn lemma_skip_split(a: Seq<u8>, b: Seq<u8>, c: Seq<u8>)
    requires
        a.is_prefix_of(b),
        b.is_prefix_of(c),
    ensures
        c.skip(a.len() as int) == b.skip(a.len() as int) + c.skip(b.len() as int),
{
    assert forall|i: int| 0 <= i < b.len() - a.len() implies c.skip(a.len() as int)[i] == b.skip(
        a.len() as int,
    )[i] by {
        assert(b[a.len() + i] == c[a.len() + i]);
    }
    assert(c.skip(a.len() as int) =~= b.skip(a.len() as int) + c.skip(b.len() as int));
}

/// Reading words out of two logs laid end to end, where the first holds
/// whole words only, reads the words of each in turn.
pub proof fn lemma_words_of_concat(x: Seq<u8>, y: Seq<u8>)
    requires
        x.len() % 8 == 0,
    ensures
        words_of(x + y) == words_of(x) + words_of(y),
{
    let n1 = (x.len() / 8) as int;
    vstd::arithmetic::div_mod::lemma_fundamental_div_mod(x.len() as int, 8);
    vstd::arithmetic::div_mod::lemma_fundamental_div_mod(y.len() as int, 8);
    vstd::arithmetic::div_mod::lemma_fundamental_div_mod_converse(
        x.len() + y.len() as int,
        8,
        n1 + (y.len() / 8) as int,
        (y.len() % 8) as int,
    );
    assert(((x + y).len() / 8) as int == n1 + y.len() / 8);
    assert forall|k: int| 0 <= k < n1 + y.len() / 8 implies words_of(x + y)[k] == (words_of(x)
        + words_of(y))[k] by {
        if k < n1 {
            assert((x + y).subrange(8 * k, 8 * k + 8) =~= x.subrange(8 * k, 8 * k + 8));
        } else {
            assert((x + y).subrange(8 * k, 8 * k + 8) =~= y.subrange(
                8 * (k - n1),
                8 * (k - n1) + 8,
            ));
        }
    }
    assert(words_of(x + y) =~= words_of(x) + words_of(y));
}

/// What a failed fill leaves behind: the `k` whole words drawn before the
/// failure stand at the front of the buffer in little-endian order, and the
/// rest of the buffer is untouched.
pub open spec fn fill_stopped_at(
    oldl: Seq<u8>,
    newl: Seq<u8>,
    oldb: Seq<u8>,
    newb: Seq<u8>,
    k: int,
) -> bool {
    &&& 0 <= 8 * k <= oldb.len()
    &&& 8 * k <= newl.len() - oldl.len()
    &&& newb.take(8 * k) == newl.subrange(oldl.len() as int, oldl.len() + 8 * k)
    &&& newb.skip(8 * k) == oldb.skip(8 * k)
}

/// The byte budget of the byte-fill bridge meets the whole-buffer fill
/// discipline of [`fill_log`]: it never draws fewer bytes than the buffer
/// holds, and for a buffer whose length is a multiple of four it draws no
/// byte beyond the buffer.  A generator may therefore use the bridge as its
/// whole-buffer fill and keep the fill contract.
pub proof fn lemma_bridge_meets_fill_log(len: nat)
    ensures
        bridge_bytes_drawn(len) >= len,
        len % 4 == 0 ==> bridge_bytes_drawn(len) == len,
{
    assert(len % 8 == len % 4 + if (len / 4) % 2 == 0 {
        0nat
    } else {
        4nat
    }) by (nonlinear_arith);
}

/// Copies the first `count` bytes of `chunk` into `buf` starting at `offset`.
fn copy_prefix_at(buf: &mut [u8], offset: usize, chunk: &Vec<u8>, count: usize)
    requires
        offset + count <= old(buf)@.len(),
        count <= chunk@.len(),
    ensures
        final(buf)@ == old(buf)@.update_subrange_with(offset as int, chunk@.take(count as int)),
{
    let total = buf.len();
    let mut k: usize = 0;
    proof {
        assert(buf@ =~= old(buf)@.update_subrange_with(offset as int, chunk@.take(0int)));
    }
    while k < count
        invariant
            k <= count,
            offset + count <= total,
            total == buf@.len(),
            count <= chunk@.len(),
            buf@ == old(buf)@.update_subrange_with(offset as int, chunk@.take(k as int)),
        decreases count - k,
    {
        buf[offset + k] = chunk[k];
        k += 1;
        proof {
            assert(buf@ =~= old(buf)@.update_subrange_with(offset as int, chunk@.take(k as int)));
        }
    }
}

/// One step of the byte-fill bridge: after a word whose little-endian bytes
/// are `word` is drawn (extending the generator's log from `log_pre` to
/// `log_post`) and its first `count` bytes are written into the buffer at
/// `offset`, the filled part of the buffer still mirrors the log.
proof fn lemma_fill_step(
    log0: Seq<u8>,
    log_pre: Seq<u8>,
    log_post: Seq<u8>,
    buf_pre: Seq<u8>,
    buf_post: Seq<u8>,
    offset: int,
    word: Seq<u8>,
    count: int,
)
    requires
        0 <= offset,
        0 <= count <= word.len(),
        offset + count <= buf_pre.len(),
        log0.is_prefix_of(log_pre),
        log_pre.len() == log0.len() + offset,
        buf_pre.take(offset) == log_pre.skip(log0.len() as int),
        log_post == log_pre + word,
        buf_post == buf_pre.update_subrange_with(offset, word.take(count)),
    ensures
        log0.is_prefix_of(log_post),
        log_post.len() == log0.len() + offset + word.len(),
        buf_post.len() == buf_pre.len(),
        buf_post.take(offset + count) == log_post.skip(log0.len() as int).take(offset + count),
{
    assert forall|i: int| 0 <= i < log0.len() implies log0[i] == log_post[i] by {
        assert(log0[i] == log_pre[i]);
        assert(log_post[i] == log_pre[i]);
    }
    assert(log0 =~= log_post.subrange(0, log0.len() as int));
    assert forall|i: int| 0 <= i < offset + count implies buf_post[i] == log_post[log0.len()
        + i] by {
        if i < offset {
            assert(buf_post[i] == buf_pre[i]);
            assert(buf_pre.take(offset)[i] == buf_pre[i]);
            assert(log_pre.skip(log0.len() as int)[i] == log_pre[log0.len() + i]);
            assert(log_post[log0.len() + i] == log_pre[log0.len() + i]);
        } else {
            assert(buf_post[i] == word.take(count)[i - offset]);
            assert(log_post[log0.len() + i] == word[i - offset]);
        }
    }
    assert(buf_post.take(offset + count) =~= log_post.skip(log0.len() as int).take(
        offset + count,
    ));
}

/// Fills `buf` using `rng`, returning an error upon failure.
///
/// This is the byte-fill bridge: a whole-buffer fill built from a generator's
/// word-at-a-time operations alone.  It writes 64-bit words into the front of
/// the buffer while at least eight bytes remain, covers a final remainder of
/// five to seven bytes with one more 64-bit word and a remainder of one to
/// four bytes with a 32-bit word, keeping the needed low-order bytes of the
/// last word and discarding the rest.  Words become bytes in little-endian
/// order whatever the host's byte order, so for a given word stream the
/// output is the same on every architecture.  A failure of the generator is
/// returned at once: the bytes of words drawn before the failure may already
/// stand in the buffer, but no further word is drawn.
pub fn try_fill_bytes_via_next<R: TryRng>(rng: &mut R, buf: &mut [u8]) -> (r: Result<
    (),
    R::Error,
>)
    ensures
        final(buf)@.len() == old(buf)@.len(),
        final(rng).can_fail() == old(rng).can_fail(),
        !old(rng).can_fail() ==> r is Ok,
        final(rng).try_log_enabled() == old(rng).try_log_enabled(),
        old(buf)@.len() == 0 ==> (r is Ok && *final(rng) == *old(rng)),
        old(rng).try_log_enabled() ==> match r {
            Ok(()) => ({
                let oldl = old(rng).try_byte_log();
                let newl = final(rng).try_byte_log();
                &&& oldl.is_prefix_of(newl)
                &&& newl.len() == oldl.len() + bridge_bytes_drawn(old(buf)@.len() as nat)
                &&& final(buf)@ == newl.subrange(
                    oldl.len() as int,
                    oldl.len() + old(buf)@.len() as int,
                )
            }),
            Err(_) => ({
                let oldl = old(rng).try_byte_log();
                let newl = final(rng).try_byte_log();
                &&& oldl.is_prefix_of(newl)
                &&& exists|k: int| #[trigger] fill_stopped_at(
                    oldl,
                    newl,
                    old(buf)@,
                    final(buf)@,
                    k,
                )
            }),
        },
{
    let ghost log0 = rng.try_byte_log();
    let n = buf.len();
    if n == 0 {
        return Ok(());
    }
    let mut offset: usize = 0;
    while n - offset >= 8
        invariant
            offset <= n,
            offset % 8 == 0,
            n == buf@.len(),
            n == old(buf)@.len(),
            buf@.skip(offset as int) == old(buf)@.skip(offset as int),
            rng.can_fail() == old(rng).can_fail(),
            rng.try_log_enabled() == old(rng).try_log_enabled(),
            log0 == old(rng).try_byte_log(),
            rng.try_log_enabled() ==> {
                &&& log0.is_prefix_of(rng.try_byte_log())
                &&& rng.try_byte_log().len() == log0.len() + offset
                &&& buf@.take(offset as int) == rng.try_byte_log().skip(log0.len() as int)
            },
        decreases n - offset,
    {
        let ghost log_pre = rng.try_byte_log();
        let ghost buf_pre = buf@;
        let w = match rng.try_next_u64() {
            Ok(w) => w,
            Err(e) => {
                proof {
                    if rng.try_log_enabled() {
                        lemma_prefix_trans(log0, log_pre, rng.try_byte_log());
                        assert(log_pre.skip(log0.len() as int) =~= rng.try_byte_log().subrange(
                            log0.len() as int,
                            log0.len() + offset as int,
                        ));
                        assert(8 * ((offset / 8) as int) == offset as int);
                        assert(fill_stopped_at(
                            log0,
                            rng.try_byte_log(),
                            old(buf)@,
                            buf@,
                            (offset / 8) as int,
                        ));
                    }
                }
                return Err(e);
            },
        };
        let chunk = u64_to_le_bytes(w);
        proof {
            lemma_auto_spec_u64_to_from_le_bytes();
        }
        copy_prefix_at(buf, offset, &chunk, 8);
        proof {
            assert forall|i: int| offset + 8 <= i < buf@.len() implies buf@[i] == old(
                buf,
            )@[i] by {
                assert(buf@[i] == buf_pre[i]);
                assert(buf_pre.skip(offset as int)[i - offset] == old(buf)@.skip(
                    offset as int,
                )[i - offset]);
            }
            assert(buf@.skip(offset + 8int) =~= old(buf)@.skip(offset + 8int));
            if rng.try_log_enabled() {
                lemma_fill_step(
                    log0,
                    log_pre,
                    rng.try_byte_log(),
                    buf_pre,
                    buf@,
                    offset as int,
                    spec_u64_to_le_bytes(w),
                    8,
                );
                assert(buf@.take(offset + 8int) == rng.try_byte_log().skip(log0.len() as int));
            }
        }
        offset = offset + 8;
    }
    let rem = n - offset;
    if rem == 0 {
        proof {
            if rng.try_log_enabled() {
                assert(buf@ =~= rng.try_byte_log().subrange(
                    log0.len() as int,
                    log0.len() + n as int,
                ));
            }
        }
        return Ok(());
    }
    let ghost log_pre = rng.try_byte_log();
    let ghost buf_pre = buf@;
    let chunk = if rem > 4 {
        let w = match rng.try_next_u64() {
            Ok(w) => w,
            Err(e) => {
                proof {
                    if rng.try_log_enabled() {
                        lemma_prefix_trans(log0, log_pre, rng.try_byte_log());
                        assert(log_pre.skip(log0.len() as int) =~= rng.try_byte_log().subrange(
                            log0.len() as int,
                            log0.len() + offset as int,
                        ));
                        assert(8 * ((offset / 8) as int) == offset as int);
                        assert(fill_stopped_at(
                            log0,
                            rng.try_byte_log(),
                            old(buf)@,
                            buf@,
                            (offset / 8) as int,
                        ));
                    }
                }
                return Err(e);
            },
        };
        let chunk = u64_to_le_bytes(w);
        proof {
            lemma_auto_spec_u64_to_from_le_bytes();
        }
        chunk
    } else {
        let w = match rng.try_next_u32() {
            Ok(w) => w,
            Err(e) => {
                proof {
                    if rng.try_log_enabled() {
                        lemma_prefix_trans(log0, log_pre, rng.try_byte_log());
                        assert(log_pre.skip(log0.len() as int) =~= rng.try_byte_log().subrange(
                            log0.len() as int,
                            log0.len() + offset as int,
                        ));
                        assert(8 * ((offset / 8) as int) == offset as int);
                        assert(fill_stopped_at(
                            log0,
                            rng.try_byte_log(),
                            old(buf)@,
                            buf@,
                            (offset / 8) as int,
                        ));
                    }
                }
                return Err(e);
            },
        };
        let chunk = u32_to_le_bytes(w);
        proof {
            lemma_auto_spec_u32_to_from_le_bytes();
        }
        chunk
    };
    copy_prefix_at(buf, offset, &chunk, rem);
    proof {
        if rng.try_log_enabled() {
            lemma_fill_step(
                log0,
                log_pre,
                rng.try_byte_log(),
                buf_pre,
                buf@,
                offset as int,
                chunk@,
                rem as int,
            );
            assert(buf@ =~= buf@.take(offset + rem as int));
            assert(buf@ == rng.try_byte_log().skip(log0.len() as int).take(offset + rem as int));
            assert(buf@ =~= rng.try_byte_log().subrange(
                log0.len() as int,
                log0.len() + n as int,
            ));
        }
    }
    Ok(())
}

/// Fills `buf` using `rng` without fail.
///
/// The infallible entry point of the byte-fill bridge: it runs
/// [`try_fill_bytes_via_next`] against the automatic fallible view of the
/// infallible generator, for which an error is proved impossible.
pub fn fill_bytes_via_next<R: Rng>(rng: &mut R, buf: &mut [u8])
    ensures
        final(buf)@.len() == old(buf)@.len(),
        old(buf)@.len() == 0 ==> *final(rng) == *old(rng),
        final(rng).log_enabled() == old(rng).log_enabled(),
        old(rng).log_enabled() ==> ({
            let oldl = old(rng).byte_log();
            let newl = final(rng).byte_log();
            &&& oldl.is_prefix_of(newl)
            &&& newl.len() == oldl.len() + bridge_bytes_drawn(old(buf)@.len() as nat)
            &&& final(buf)@ == newl.subrange(
                oldl.len() as int,
                oldl.len() + old(buf)@.len() as int,
            )
        }),
{
    match try_fill_bytes_via_next(rng, buf) {
        Ok(()) => {},
        Err(_) => unreached(),
    }
}

} // verus!

//! Select a random instance from within a bounded container.

use core::ops::Range;
use vstd::prelude::*;
use vstd::bytes::{spec_u32_from_le_bytes, spec_u32_to_le_bytes, spec_u64_from_le_bytes,
    spec_u64_to_le_bytes, spec_u128_from_le_bytes, spec_u128_to_le_bytes,
    lemma_auto_spec_u32_to_from_le_bytes, lemma_auto_spec_u64_to_from_le_bytes,
    lemma_auto_spec_u128_to_from_le_bytes};
use crate::rng::{lemma_log_extends, lemma_prefix_trans, lemma_skip_split, lemma_words_of_concat,
    words_of, Rng, TryRng};

verus! {

/// A type that can have a random instance retrieved from an instance of `A`.
///
/// `A` is a bounded pool of instances: a half-open integer range, or a
/// borrowed sequence.  The checked operations report an empty pool by
/// returning no value; the unchecked operations require the caller to have
/// ruled emptiness out and return an instance directly.
pub trait RandIn<A>: Sized {
    /// Whether `value` holds at least one instance to pick.
    spec fn can_pick(value: A) -> bool;

    /// Whether `picked` is one of the instances `value` holds.
    spec fn picked_from(picked: Self, value: A) -> bool;

    /// Creates an instance of `Self` from within `value` using `rng` without
    /// fail, or returns `None` if `value` is empty.
    fn rand_in<R: Rng>(rng: &mut R, value: A) -> (r: Option<Self>)
        ensures
            final(rng).log_enabled() == old(rng).log_enabled(),
            old(rng).log_enabled() ==> old(rng).byte_log().is_prefix_of(final(rng).byte_log()),
            r is Some <==> Self::can_pick(value),
            r matches Some(v) ==> Self::picked_from(v, value),
            !Self::can_pick(value) ==> *final(rng) == *old(rng),
    ;

    /// Creates an instance of `Self` from within `value` using `rng`,
    /// returning `Ok(None)` if `value` is empty or `Err` if `rng` failed.
    fn try_rand_in<R: TryRng>(rng: &mut R, value: A) -> (r: Result<Option<Self>, R::Error>)
        ensures
            final(rng).can_fail() == old(rng).can_fail(),
            !old(rng).can_fail() ==> r is Ok,
            final(rng).try_log_enabled() == old(rng).try_log_enabled(),
            old(rng).try_log_enabled() ==> old(rng).try_byte_log().is_prefix_of(
                final(rng).try_byte_log(),
            ),
            r matches Ok(p) ==> (p is Some <==> Self::can_pick(value)),
            (match r {
                Ok(Some(v)) => Self::picked_from(v, value),
                _ => true,
            }),
            !Self::can_pick(value) ==> (r is Ok && *final(rng) == *old(rng)),
    ;

    /// Creates an instance of `Self` from within `value` using `rng` without
    /// fail; `value` must not be empty.
    fn rand_in_unchecked<R: Rng>(rng: &mut R, value: A) -> (v: Self)
        requires
            Self::can_pick(value),
        ensures
            final(rng).log_enabled() == old(rng).log_enabled(),
            old(rng).log_enabled() ==> old(rng).byte_log().is_prefix_of(final(rng).byte_log()),
            Self::picked_from(v, value),
    ;

    /// Creates an instance of `Self` from within `value` using `rng`,
    /// returning `Err` if `rng` failed; `value` must not be empty.
    fn try_rand_in_unchecked<R: TryRng>(rng: &mut R, value: A) -> (r: Result<Self, R::Error>)
        requires
            Self::can_pick(value),
        ensures
            final(rng).can_fail() == old(rng).can_fail(),
            !old(rng).can_fail() ==> r is Ok,
            final(rng).try_log_enabled() == old(rng).try_log_enabled(),
            old(rng).try_log_enabled() ==> old(rng).try_byte_log().is_prefix_of(
                final(rng).try_byte_log(),
            ),
            r matches Ok(v) ==> Self::picked_from(v, value),
    ;
}

/// How many rejected words an integer-range draw tolerates before it falls
/// back to a plain modulo reduction.  Each attempt is rejected with
/// probability below one half, so the fall-back is reached with probability
/// below two to the minus sixty-four.
pub const REJECT_TRIES: u32 = 64;

/// The 64-bit word whose little-endian bytes end a byte log.  Selections
/// that draw 64-bit words state their result as a function of this word:
/// the last word drawn is the one the selection accepted.
pub open spec fn last_u64_of(l: Seq<u8>) -> u64
    recommends
        l.len() >= 8,
{
    spec_u64_from_le_bytes(l.subrange(l.len() - 8, l.len() as int))
}

/// The 32-bit word whose little-endian bytes end a byte log.
pub open spec fn last_u32_of(l: Seq<u8>) -> u32
    recommends
        l.len() >= 4,
{
    spec_u32_from_le_bytes(l.subrange(l.len() - 4, l.len() as int))
}

/// The 128-bit word whose little-endian bytes end a byte log.
pub open spec fn last_u128_of(l: Seq<u8>) -> u128
    recommends
        l.len() >= 16,
{
    spec_u128_from_le_bytes(l.subrange(l.len() - 16, l.len() as int))
}

/// What a range selection backed by 32-bit draws says of its result: the
/// generator's log grew by whole 32-bit words, and the value is the last
/// word drawn, reduced into `[low, high)`.
pub open spec fn picked_by_u32_words(
    oldl: Seq<u8>,
    newl: Seq<u8>,
    low: int,
    high: int,
    v: int,
) -> bool {
    &&& newl.len() - oldl.len() >= 4
    &&& (newl.len() - oldl.len()) % 4 == 0
    &&& v == low + (last_u32_of(newl) as int) % (high - low)
}

/// What a range selection backed by 128-bit draws says of its result: the
/// generator's log grew by whole 128-bit words, and the value is the last
/// word drawn, reduced into `[low, high)`.
pub open spec fn picked_by_u128_words(
    oldl: Seq<u8>,
    newl: Seq<u8>,
    low: int,
    high: int,
    v: int,
) -> bool {
    &&& newl.len() - oldl.len() >= 16
    &&& (newl.len() - oldl.len()) % 16 == 0
    &&& v == low + (last_u128_of(newl) as int) % (high - low)
}

/// What a range selection backed by 64-bit draws says of its result: the
/// generator's log grew by whole 64-bit words, and the value is the last
/// word drawn, reduced into `[low, high)`.
pub open spec fn picked_by_u64_words(
    oldl: Seq<u8>,
    newl: Seq<u8>,
    low: int,
    high: int,
    v: int,
) -> bool {
    &&& newl.len() - oldl.len() >= 8
    &&& (newl.len() - oldl.len()) % 8 == 0
    &&& v == low + (last_u64_of(newl) as int) % (high - low)
}

/// The largest word a draw below `span` accepts: words above it fall into
/// the incomplete last multiple of `span` and are rejected to avoid modulo
/// bias.
pub open spec fn cut_below(span: u64) -> u64
    recommends
        span >= 1,
{
    (u64::MAX as int - ((u64::MAX as int % (span as int) + 1) % (span as int))) as u64
}

/// The position of the first word at or below the cut; the length of the
/// sequence if every word lies above it.
pub open spec fn first_accept(ws: Seq<u64>, span: u64) -> int
    decreases ws.len(),
{
    if ws.len() == 0 {
        0
    } else if ws[0] <= cut_below(span) {
        0
    } else {
        1 + first_accept(ws.skip(1), span)
    }
}

/// The position of the word a draw below `span` accepts: the first word at
/// or below the cut, or the word after [`REJECT_TRIES`] rejections, taken
/// unconditionally as the fall-back.
pub open spec fn accepted_at(ws: Seq<u64>, span: u64) -> int {
    if first_accept(ws, span) < REJECT_TRIES as int {
        first_accept(ws, span)
    } else {
        REJECT_TRIES as int
    }
}

/// Whether a word sequence is exactly `k` complete draws below `span` laid
/// end to end: each draw's words up to its accepted one, nothing after the
/// last.
pub open spec fn parses_into(span: u64, ws: Seq<u64>, k: nat) -> bool
    decreases k,
{
    if k == 0 {
        ws.len() == 0
    } else {
        let a = accepted_at(ws, span);
        &&& a < ws.len()
        &&& parses_into(span, ws.skip(a + 1), (k - 1) as nat)
    }
}

/// The full trace of one draw below `span` in the byte log: the log grew by
/// whole 64-bit words forming one complete draw, and the result is the
/// accepted word reduced modulo `span`.
pub open spec fn draw_words_trace(oldl: Seq<u8>, newl: Seq<u8>, span: u64, d: u64) -> bool {
    let ws = words_of(newl.skip(oldl.len() as int));
    &&& oldl.is_prefix_of(newl)
    &&& newl.len() - oldl.len() == 8 * ws.len()
    &&& ws.len() >= 1
    &&& accepted_at(ws, span) == ws.len() - 1
    &&& d == ws.last() % span
}

/// Pushing a word onto an all-rejected sequence accepts at the new word if
/// it lies at or below the cut, and keeps rejecting otherwise.
proof fn lemma_first_accept_push(ws: Seq<u64>, w: u64, span: u64)
    requires
        first_accept(ws, span) >= ws.len(),
    ensures
        w <= cut_below(span) ==> first_accept(ws.push(w), span) == ws.len(),
        w > cut_below(span) ==> first_accept(ws.push(w), span) == ws.len() + 1,
    decreases ws.len(),
{
    if ws.len() == 0 {
        assert(ws.push(w)[0] == w);
        if w > cut_below(span) {
            assert(ws.push(w).skip(1) =~= Seq::<u64>::empty());
            assert(first_accept(ws.push(w), span) == 1 + first_accept(
                Seq::<u64>::empty(),
                span,
            ));
        }
    } else {
        assert(ws[0] > cut_below(span)) by {
            if ws[0] <= cut_below(span) {
                assert(first_accept(ws, span) == 0);
            }
        }
        assert(ws.push(w)[0] == ws[0]);
        assert(first_accept(ws, span) == 1 + first_accept(ws.skip(1), span));
        assert(ws.push(w).skip(1) =~= ws.skip(1).push(w));
        assert(first_accept(ws.push(w), span) == 1 + first_accept(ws.skip(1).push(w), span));
        lemma_first_accept_push(ws.skip(1), w, span);
    }
}

/// The acceptance position is never negative.
pub proof fn lemma_first_accept_nonneg(ws: Seq<u64>, span: u64)
    ensures
        first_accept(ws, span) >= 0,
    decreases ws.len(),
{
    if ws.len() > 0 && ws[0] > cut_below(span) {
        lemma_first_accept_nonneg(ws.skip(1), span);
    }
}

/// A sequence whose acceptance point lies inside it keeps that acceptance
/// point under any extension; one that rejects throughout keeps rejecting
/// at least as far.
proof fn lemma_first_accept_concat(ws: Seq<u64>, ext: Seq<u64>, span: u64)
    ensures
        first_accept(ws, span) < ws.len() ==> first_accept(ws + ext, span) == first_accept(
            ws,
            span,
        ),
        first_accept(ws, span) >= ws.len() ==> first_accept(ws + ext, span) >= ws.len(),
    decreases ws.len(),
{
    if ws.len() == 0 {
        assert(ws + ext =~= ext);
        lemma_first_accept_nonneg(ext, span);
    } else {
        assert((ws + ext)[0] == ws[0]);
        if ws[0] > cut_below(span) {
            assert(first_accept(ws, span) == 1 + first_accept(ws.skip(1), span));
            assert((ws + ext).skip(1) =~= ws.skip(1) + ext);
            assert(first_accept(ws + ext, span) == 1 + first_accept(ws.skip(1) + ext, span));
            lemma_first_accept_concat(ws.skip(1), ext, span);
        } else {
            assert(first_accept(ws, span) == 0);
            assert(first_accept(ws + ext, span) == 0);
        }
    }
}

/// A word sequence that completes a draw keeps its acceptance point under
/// any extension: the words of later draws cannot move it.
pub proof fn lemma_accepted_at_concat(ws: Seq<u64>, ext: Seq<u64>, span: u64)
    requires
        accepted_at(ws, span) < ws.len(),
    ensures
        accepted_at(ws + ext, span) == accepted_at(ws, span),
{
    lemma_first_accept_nonneg(ws, span);
    lemma_first_accept_concat(ws, ext, span);
    if first_accept(ws, span) < REJECT_TRIES as int {
        assert(first_accept(ws, span) == accepted_at(ws, span) < ws.len());
    } else {
        assert(accepted_at(ws, span) == REJECT_TRIES as int);
        if first_accept(ws, span) < ws.len() {
            assert(first_accept(ws + ext, span) == first_accept(ws, span));
        } else {
            assert(first_accept(ws + ext, span) >= ws.len());
            assert(ws.len() > REJECT_TRIES as int);
        }
    }
}

/// One word drawn during a selection extends the words of the byte log,
/// read relative to the log at the start of the selection, by exactly that
/// word.
proof fn lemma_words_step(oldl: Seq<u8>, log_pre: Seq<u8>, log_new: Seq<u8>, w: u64)
    requires
        oldl.is_prefix_of(log_pre),
        (log_pre.len() - oldl.len()) % 8 == 0,
        log_new == log_pre + spec_u64_to_le_bytes(w),
    ensures
        oldl.is_prefix_of(log_new),
        (log_new.len() - oldl.len()) % 8 == 0,
        log_new.len() - oldl.len() == log_pre.len() - oldl.len() + 8,
        words_of(log_new.skip(oldl.len() as int)) == words_of(
            log_pre.skip(oldl.len() as int),
        ).push(w),
{
    lemma_auto_spec_u64_to_from_le_bytes();
    lemma_log_extends(log_pre, spec_u64_to_le_bytes(w));
    lemma_prefix_trans(oldl, log_pre, log_new);
    lemma_skip_split(oldl, log_pre, log_new);
    assert(log_new.skip(log_pre.len() as int) =~= spec_u64_to_le_bytes(w));
    lemma_words_of_concat(log_pre.skip(oldl.len() as int), spec_u64_to_le_bytes(w));
    assert(spec_u64_to_le_bytes(w).subrange(0, 8) =~= spec_u64_to_le_bytes(w));
    assert(words_of(spec_u64_to_le_bytes(w)) =~= seq![w]);
    assert(words_of(log_pre.skip(oldl.len() as int)) + seq![w] =~= words_of(
        log_pre.skip(oldl.len() as int),
    ).push(w));
}

/// Draws a uniformly distributed 8-bit value below `span`.
///
/// Modulo-rejection: a word is accepted when it lies below the largest
/// multiple of `span` that the word's type can represent, and the accepted
/// word is reduced modulo `span`; after [`REJECT_TRIES`] rejections the next
/// word is reduced without the acceptance test.
///
/// An 8-bit generator operation may draw a wider word and discard its
/// upper bytes, so the accepted word cannot be located in the byte log and
/// the contract pins only the range of the result; the 32-bit and wider
/// draws extend the log by exactly one word each and pin the result to it.
fn draw_below_u8<R: TryRng>(rng: &mut R, span: u8) -> (r: Result<u8, R::Error>)
    requires
        span >= 1,
    ensures
        final(rng).can_fail() == old(rng).can_fail(),
        !old(rng).can_fail() ==> r is Ok,
        final(rng).try_log_enabled() == old(rng).try_log_enabled(),
        old(rng).try_log_enabled() ==> old(rng).try_byte_log().is_prefix_of(
            final(rng).try_byte_log(),
        ),
        r matches Ok(d) ==> d < span,
{
    let m: u8 = u8::MAX % span;
    let cut: u8 = u8::MAX - ((m + 1) % span);
    let mut i: u32 = 0;
    while i < REJECT_TRIES
        invariant
            span >= 1,
            rng.can_fail() == old(rng).can_fail(),
            rng.try_log_enabled() == old(rng).try_log_enabled(),
            old(rng).try_log_enabled() ==> old(rng).try_byte_log().is_prefix_of(
                rng.try_byte_log(),
            ),
        decreases REJECT_TRIES - i,
    {
        let ghost log_pre = rng.try_byte_log();
        let w = match rng.try_next_u8() {
            Ok(w) => w,
            Err(e) => {
                proof {
                    if old(rng).try_log_enabled() {
                        lemma_prefix_trans(
                            old(rng).try_byte_log(),
                            log_pre,
                            rng.try_byte_log(),
                        );
                    }
                }
                return Err(e);
            },
        };
        proof {
            if old(rng).try_log_enabled() {
                lemma_prefix_trans(old(rng).try_byte_log(), log_pre, rng.try_byte_log());
            }
        }
        if w <= cut {
            return Ok(w % span);
        }
        i = i + 1;
    }
    let ghost log_pre = rng.try_byte_log();
    let w = match rng.try_next_u8() {
        Ok(w) => w,
        Err(e) => {
            proof {
                if old(rng).try_log_enabled() {
                    lemma_prefix_trans(old(rng).try_byte_log(), log_pre, rng.try_byte_log());
                }
            }
            return Err(e);
        },
    };
    proof {
        if old(rng).try_log_enabled() {
            lemma_prefix_trans(old(rng).try_byte_log(), log_pre, rng.try_byte_log());
        }
    }
    Ok(w % span)
}

/// Draws a uniformly distributed value in `[low, high)` using one 8-bit
/// word per attempt.
fn range_u8<R: TryRng>(rng: &mut R, low: u8, high: u8) -> (r: Result<u8, R::Error>)
    requires
        low < high,
    ensures
        final(rng).can_fail() == old(rng).can_fail(),
        !old(rng).can_fail() ==> r is Ok,
        final(rng).try_log_enabled() == old(rng).try_log_enabled(),
        old(rng).try_log_enabled() ==> old(rng).try_byte_log().is_prefix_of(
            final(rng).try_byte_log(),
        ),
        r matches Ok(v) ==> low <= v < high,
{
    let span: u8 = high - low;
    match draw_below_u8(rng, span) {
        Ok(d) => Ok(low + d),
        Err(e) => Err(e),
    }
}

impl RandIn<Range<u8>> for u8 {
    open spec fn can_pick(value: Range<u8>) -> bool {
        value.start < value.end
    }

    open spec fn picked_from(picked: Self, value: Range<u8>) -> bool {
        value.start <= picked < value.end
    }

    fn rand_in<R: Rng>(rng: &mut R, value: Range<u8>) -> (r: Option<Self>) {
        if value.start < value.end {
            match range_u8(rng, value.start, value.end) {
                Ok(v) => Some(v),
                Err(_) => unreached(),
            }
        } else {
            None
        }
    }

    fn try_rand_in<R: TryRng>(rng: &mut R, value: Range<u8>) -> (r: Result<
        Option<Self>,
        R::Error,
    >) {
        if value.start < value.end {
            match range_u8(rng, value.start, value.end) {
                Ok(v) => Ok(Some(v)),
                Err(e) => Err(e),
            }
        } else {
            Ok(None)
        }
    }

    fn rand_in_unchecked<R: Rng>(rng: &mut R, value: Range<u8>) -> (v: Self) {
        match range_u8(rng, value.start, value.end) {
            Ok(v) => v,
            Err(_) => unreached(),
        }
    }

    fn try_rand_in_unchecked<R: TryRng>(rng: &mut R, value: Range<u8>) -> (r: Result<
        Self,
        R::Error,
    >) {
        range_u8(rng, value.start, value.end)
    }
}

/// Draws a uniformly distributed 16-bit value below `span`, with the same
/// modulo-rejection policy as [`draw_below_u8`].
fn draw_below_u16<R: TryRng>(rng: &mut R, span: u16) -> (r: Result<u16, R::Error>)
    requires
        span >= 1,
    ensures
        final(rng).can_fail() == old(rng).can_fail(),
        !old(rng).can_fail() ==> r is Ok,
        final(rng).try_log_enabled() == old(rng).try_log_enabled(),
        old(rng).try_log_enabled() ==> old(rng).try_byte_log().is_prefix_of(
            final(rng).try_byte_log(),
        ),
        r matches Ok(d) ==> d < span,
{
    let m: u16 = u16::MAX % span;
    let cut: u16 = u16::MAX - ((m + 1) % span);
    let mut i: u32 = 0;
    while i < REJECT_TRIES
        invariant
            span >= 1,
            rng.can_fail() == old(rng).can_fail(),
            rng.try_log_enabled() == old(rng).try_log_enabled(),
            old(rng).try_log_enabled() ==> old(rng).try_byte_log().is_prefix_of(
                rng.try_byte_log(),
            ),
        decreases REJECT_TRIES - i,
    {
        let ghost log_pre = rng.try_byte_log();
        let w = match rng.try_next_u16() {
            Ok(w) => w,
            Err(e) => {
                proof {
                    if old(rng).try_log_enabled() {
                        lemma_prefix_trans(
                            old(rng).try_byte_log(),
                            log_pre,
                            rng.try_byte_log(),
                        );
                    }
                }
                return Err(e);
            },
        };
        proof {
            if old(rng).try_log_enabled() {
                lemma_prefix_trans(old(rng).try_byte_log(), log_pre, rng.try_byte_log());
            }
        }
        if w <= cut {
            return Ok(w % span);
        }
        i = i + 1;
    }
    let ghost log_pre = rng.try_byte_log();
    let w = match rng.try_next_u16() {
        Ok(w) => w,
        Err(e) => {
            proof {
                if old(rng).try_log_enabled() {
                    lemma_prefix_trans(old(rng).try_byte_log(), log_pre, rng.try_byte_log());
                }
            }
            return Err(e);
        },
    };
    proof {
        if old(rng).try_log_enabled() {
            lemma_prefix_trans(old(rng).try_byte_log(), log_pre, rng.try_byte_log());
        }
    }
    Ok(w % span)
}

/// Draws a uniformly distributed value in `[low, high)` using one 16-bit
/// word per attempt.
fn range_u16<R: TryRng>(rng: &mut R, low: u16, high: u16) -> (r: Result<u16, R::Error>)
    requires
        low < high,
    ensures
        final(rng).can_fail() == old(rng).can_fail(),
        !old(rng).can_fail() ==> r is Ok,
        final(rng).try_log_enabled() == old(rng).try_log_enabled(),
        old(rng).try_log_enabled() ==> old(rng).try_byte_log().is_prefix_of(
            final(rng).try_byte_log(),
        ),
        r matches Ok(v) ==> low <= v < high,
{
    let span: u16 = high - low;
    match draw_below_u16(rng, span) {
        Ok(d) => Ok(low + d),
        Err(e) => Err(e),
    }
}

/// Draws a uniformly distributed 32-bit value below `span`, with the same
/// modulo-rejection policy as [`draw_below_u8`].  Because a 32-bit draw
/// extends the byte log by exactly one word, the result is pinned down: it
/// is the last word drawn, reduced modulo `span`.
fn draw_below_u32<R: TryRng>(rng: &mut R, span: u32) -> (r: Result<u32, R::Error>)
    requires
        span >= 1,
    ensures
        final(rng).can_fail() == old(rng).can_fail(),
        !old(rng).can_fail() ==> r is Ok,
        final(rng).try_log_enabled() == old(rng).try_log_enabled(),
        old(rng).try_log_enabled() ==> old(rng).try_byte_log().is_prefix_of(
            final(rng).try_byte_log(),
        ),
        r matches Ok(d) ==> d < span,
        old(rng).try_log_enabled() ==> (r matches Ok(d) ==> ({
            let oldl = old(rng).try_byte_log();
            let newl = final(rng).try_byte_log();
            &&& newl.len() - oldl.len() >= 4
            &&& (newl.len() - oldl.len()) % 4 == 0
            &&& d == last_u32_of(newl) % span
        })),
{
    let m: u32 = u32::MAX % span;
    let cut: u32 = u32::MAX - ((m + 1) % span);
    let mut i: u32 = 0;
    while i < REJECT_TRIES
        invariant
            span >= 1,
            rng.can_fail() == old(rng).can_fail(),
            rng.try_log_enabled() == old(rng).try_log_enabled(),
            old(rng).try_log_enabled() ==> {
                &&& old(rng).try_byte_log().is_prefix_of(rng.try_byte_log())
                &&& (rng.try_byte_log().len() - old(rng).try_byte_log().len()) % 4 == 0
            },
        decreases REJECT_TRIES - i,
    {
        let ghost log_pre = rng.try_byte_log();
        let w = match rng.try_next_u32() {
            Ok(w) => w,
            Err(e) => {
                proof {
                    if old(rng).try_log_enabled() {
                        lemma_prefix_trans(
                            old(rng).try_byte_log(),
                            log_pre,
                            rng.try_byte_log(),
                        );
                    }
                }
                return Err(e);
            },
        };
        proof {
            if old(rng).try_log_enabled() {
                lemma_auto_spec_u32_to_from_le_bytes();
                lemma_log_extends(log_pre, spec_u32_to_le_bytes(w));
                lemma_prefix_trans(old(rng).try_byte_log(), log_pre, rng.try_byte_log());
                assert(last_u32_of(rng.try_byte_log()) == w);
            }
        }
        if w <= cut {
            return Ok(w % span);
        }
        i = i + 1;
    }
    let ghost log_pre = rng.try_byte_log();
    let w = match rng.try_next_u32() {
        Ok(w) => w,
        Err(e) => {
            proof {
                if old(rng).try_log_enabled() {
                    lemma_prefix_trans(old(rng).try_byte_log(), log_pre, rng.try_byte_log());
                }
            }
            return Err(e);
        },
    };
    proof {
        if old(rng).try_log_enabled() {
            lemma_auto_spec_u32_to_from_le_bytes();
            lemma_log_extends(log_pre, spec_u32_to_le_bytes(w));
            lemma_prefix_trans(old(rng).try_byte_log(), log_pre, rng.try_byte_log());
            assert(last_u32_of(rng.try_byte_log()) == w);
        }
    }
    Ok(w % span)
}

/// Draws a uniformly distributed value in `[low, high)` using one 32-bit
/// word per attempt.
fn range_u32<R: TryRng>(rng: &mut R, low: u32, high: u32) -> (r: Result<u32, R::Error>)
    requires
        low < high,
    ensures
        final(rng).can_fail() == old(rng).can_fail(),
        !old(rng).can_fail() ==> r is Ok,
        final(rng).try_log_enabled() == old(rng).try_log_enabled(),
        old(rng).try_log_enabled() ==> old(rng).try_byte_log().is_prefix_of(
            final(rng).try_byte_log(),
        ),
        r matches Ok(v) ==> low <= v < high,
        old(rng).try_log_enabled() ==> (r matches Ok(v) ==> picked_by_u32_words(
            old(rng).try_byte_log(),
            final(rng).try_byte_log(),
            low as int,
            high as int,
            v as int,
        )),
{
    let span: u32 = high - low;
    match draw_below_u32(rng, span) {
        Ok(d) => Ok(low + d),
        Err(e) => Err(e),
    }
}

/// Draws a uniformly distributed 64-bit value below `span`, with the same
/// modulo-rejection policy as [`draw_below_u8`].  Because a 64-bit draw
/// extends the byte log by exactly one word, the result is pinned down: it
/// is the last word drawn, reduced modulo `span`.
fn draw_below_u64<R: TryRng>(rng: &mut R, span: u64) -> (r: Result<u64, R::Error>)
    requires
        span >= 1,
    ensures
        final(rng).can_fail() == old(rng).can_fail(),
        !old(rng).can_fail() ==> r is Ok,
        final(rng).try_log_enabled() == old(rng).try_log_enabled(),
        old(rng).try_log_enabled() ==> old(rng).try_byte_log().is_prefix_of(
            final(rng).try_byte_log(),
        ),
        r matches Ok(d) ==> d < span,
        old(rng).try_log_enabled() ==> (r matches Ok(d) ==> ({
            let oldl = old(rng).try_byte_log();
            let newl = final(rng).try_byte_log();
            &&& newl.len() - oldl.len() >= 8
            &&& (newl.len() - oldl.len()) % 8 == 0
            &&& d == last_u64_of(newl) % span
        })),
        old(rng).try_log_enabled() ==> (r matches Ok(d) ==> draw_words_trace(
            old(rng).try_byte_log(),
            final(rng).try_byte_log(),
            span,
            d,
        )),
{
    let m: u64 = u64::MAX % span;
    let cut: u64 = u64::MAX - ((m + 1) % span);
    proof {
        assert(cut == cut_below(span));
    }
    let mut i: u32 = 0;
    while i < REJECT_TRIES
        invariant
            span >= 1,
            cut == cut_below(span),
            i <= REJECT_TRIES,
            rng.can_fail() == old(rng).can_fail(),
            rng.try_log_enabled() == old(rng).try_log_enabled(),
            old(rng).try_log_enabled() ==> ({
                let ws = words_of(rng.try_byte_log().skip(old(rng).try_byte_log().len() as int));
                &&& old(rng).try_byte_log().is_prefix_of(rng.try_byte_log())
                &&& (rng.try_byte_log().len() - old(rng).try_byte_log().len()) % 8 == 0
                &&& rng.try_byte_log().len() - old(rng).try_byte_log().len() == 8 * (i as int)
                &&& ws.len() == i as int
                &&& first_accept(ws, span) >= i as int
            }),
        decreases REJECT_TRIES - i,
    {
        let ghost log_pre = rng.try_byte_log();
        let w = match rng.try_next_u64() {
            Ok(w) => w,
            Err(e) => {
                proof {
                    if old(rng).try_log_enabled() {
                        lemma_prefix_trans(
                            old(rng).try_byte_log(),
                            log_pre,
                            rng.try_byte_log(),
                        );
                    }
                }
                return Err(e);
            },
        };
        proof {
            if old(rng).try_log_enabled() {
                lemma_auto_spec_u64_to_from_le_bytes();
                lemma_log_extends(log_pre, spec_u64_to_le_bytes(w));
                lemma_prefix_trans(old(rng).try_byte_log(), log_pre, rng.try_byte_log());
                assert(last_u64_of(rng.try_byte_log()) == w);
                lemma_words_step(old(rng).try_byte_log(), log_pre, rng.try_byte_log(), w);
                lemma_first_accept_push(
                    words_of(log_pre.skip(old(rng).try_byte_log().len() as int)),
                    w,
                    span,
                );
            }
        }
        if w <= cut {
            proof {
                if old(rng).try_log_enabled() {
                    let ws = words_of(
                        rng.try_byte_log().skip(old(rng).try_byte_log().len() as int),
                    );
                    assert(first_accept(ws, span) == i as int);
                    assert(accepted_at(ws, span) == ws.len() - 1);
                    assert(ws.last() == w);
                }
            }
            return Ok(w % span);
        }
        i = i + 1;
    }
    let ghost log_pre = rng.try_byte_log();
    let w = match rng.try_next_u64() {
        Ok(w) => w,
        Err(e) => {
            proof {
                if old(rng).try_log_enabled() {
                    lemma_prefix_trans(old(rng).try_byte_log(), log_pre, rng.try_byte_log());
                }
            }
            return Err(e);
        },
    };
    proof {
        if old(rng).try_log_enabled() {
            lemma_auto_spec_u64_to_from_le_bytes();
            lemma_log_extends(log_pre, spec_u64_to_le_bytes(w));
            lemma_prefix_trans(old(rng).try_byte_log(), log_pre, rng.try_byte_log());
            assert(last_u64_of(rng.try_byte_log()) == w);
            lemma_words_step(old(rng).try_byte_log(), log_pre, rng.try_byte_log(), w);
            lemma_first_accept_push(
                words_of(log_pre.skip(old(rng).try_byte_log().len() as int)),
                w,
                span,
            );
            let ws = words_of(rng.try_byte_log().skip(old(rng).try_byte_log().len() as int));
            assert(first_accept(ws, span) >= REJECT_TRIES as int);
            assert(accepted_at(ws, span) == ws.len() - 1);
            assert(ws.last() == w);
        }
    }
    Ok(w % span)
}

/// Draws a uniformly distributed value in `[low, high)` using one 64-bit
/// word per attempt: the result is the last word drawn, reduced into the
/// range.
fn range_u64<R: TryRng>(rng: &mut R, low: u64, high: u64) -> (r: Result<u64, R::Error>)
    requires
        low < high,
    ensures
        final(rng).can_fail() == old(rng).can_fail(),
        !old(rng).can_fail() ==> r is Ok,
        final(rng).try_log_enabled() == old(rng).try_log_enabled(),
        old(rng).try_log_enabled() ==> old(rng).try_byte_log().is_prefix_of(
            final(rng).try_byte_log(),
        ),
        r matches Ok(v) ==> low <= v < high,
        old(rng).try_log_enabled() ==> (r matches Ok(v) ==> ({
            let oldl = old(rng).try_byte_log();
            let newl = final(rng).try_byte_log();
            &&& newl.len() - oldl.len() >= 8
            &&& (newl.len() - oldl.len()) % 8 == 0
            &&& v == low + (last_u64_of(newl) as int) % (high - low)
        })),
{
    let span: u64 = high - low;
    match draw_below_u64(rng, span) {
        Ok(d) => Ok(low + d),
        Err(e) => Err(e),
    }
}

/// Draws a uniformly distributed 128-bit value below `span`, with the same
/// modulo-rejection policy as [`draw_below_u8`].  Because a 128-bit draw
/// extends the byte log by exactly one word, the result is pinned down: it
/// is the last word drawn, reduced modulo `span`.
fn draw_below_u128<R: TryRng>(rng: &mut R, span: u128) -> (r: Result<u128, R::Error>)
    requires
        span >= 1,
    ensures
        final(rng).can_fail() == old(rng).can_fail(),
        !old(rng).can_fail() ==> r is Ok,
        final(rng).try_log_enabled() == old(rng).try_log_enabled(),
        old(rng).try_log_enabled() ==> old(rng).try_byte_log().is_prefix_of(
            final(rng).try_byte_log(),
        ),
        r matches Ok(d) ==> d < span,
        old(rng).try_log_enabled() ==> (r matches Ok(d) ==> ({
            let oldl = old(rng).try_byte_log();
            let newl = final(rng).try_byte_log();
            &&& newl.len() - oldl.len() >= 16
            &&& (newl.len() - oldl.len()) % 16 == 0
            &&& d == last_u128_of(newl) % span
        })),
{
    let m: u128 = u128::MAX % span;
    let cut: u128 = u128::MAX - ((m + 1) % span);
    let mut i: u32 = 0;
    while i < REJECT_TRIES
        invariant
            span >= 1,
            rng.can_fail() == old(rng).can_fail(),
            rng.try_log_enabled() == old(rng).try_log_enabled(),
            old(rng).try_log_enabled() ==> {
                &&& old(rng).try_byte_log().is_prefix_of(rng.try_byte_log())
                &&& (rng.try_byte_log().len() - old(rng).try_byte_log().len()) % 16 == 0
            },
        decreases REJECT_TRIES - i,
    {
        let ghost log_pre = rng.try_byte_log();
        let w = match rng.try_next_u128() {
            Ok(w) => w,
            Err(e) => {
                proof {
                    if old(rng).try_log_enabled() {
                        lemma_prefix_trans(
                            old(rng).try_byte_log(),
                            log_pre,
                            rng.try_byte_log(),
                        );
                    }
                }
                return Err(e);
            },
        };
        proof {
            if old(rng).try_log_enabled() {
                lemma_auto_spec_u128_to_from_le_bytes();
                lemma_log_extends(log_pre, spec_u128_to_le_bytes(w));
                lemma_prefix_trans(old(rng).try_byte_log(), log_pre, rng.try_byte_log());
                assert(last_u128_of(rng.try_byte_log()) == w);
            }
        }
        if w <= cut {
            return Ok(w % span);
        }
        i = i + 1;
    }
    let ghost log_pre = rng.try_byte_log();
    let w = match rng.try_next_u128() {
        Ok(w) => w,
        Err(e) => {
            proof {
                if old(rng).try_log_enabled() {
                    lemma_prefix_trans(old(rng).try_byte_log(), log_pre, rng.try_byte_log());
                }
            }
            return Err(e);
        },
    };
    proof {
        if old(rng).try_log_enabled() {
            lemma_auto_spec_u128_to_from_le_bytes();
            lemma_log_extends(log_pre, spec_u128_to_le_bytes(w));
            lemma_prefix_trans(old(rng).try_byte_log(), log_pre, rng.try_byte_log());
            assert(last_u128_of(rng.try_byte_log()) == w);
        }
    }
    Ok(w % span)
}

/// Draws a uniformly distributed value in `[low, high)` using one 128-bit
/// word per attempt.
fn range_u128<R: TryRng>(rng: &mut R, low: u128, high: u128) -> (r: Result<u128, R::Error>)
    requires
        low < high,
    ensures
        final(rng).can_fail() == old(rng).can_fail(),
        !old(rng).can_fail() ==> r is Ok,
        final(rng).try_log_enabled() == old(rng).try_log_enabled(),
        old(rng).try_log_enabled() ==> old(rng).try_byte_log().is_prefix_of(
            final(rng).try_byte_log(),
        ),
        r matches Ok(v) ==> low <= v < high,
        old(rng).try_log_enabled() ==> (r matches Ok(v) ==> picked_by_u128_words(
            old(rng).try_byte_log(),
            final(rng).try_byte_log(),
            low as int,
            high as int,
            v as int,
        )),
{
    let span: u128 = high - low;
    match draw_below_u128(rng, span) {
        Ok(d) => Ok(low + d),
        Err(e) => Err(e),
    }
}

/// Draws a uniformly distributed value in `[low, high)` for the
/// pointer-sized integer: the span is covered by one 64-bit draw per
/// attempt, narrowed back to the pointer width, so the result is the last
/// word drawn, reduced into the range.
fn range_usize<R: TryRng>(rng: &mut R, low: usize, high: usize) -> (r: Result<usize, R::Error>)
    requires
        low < high,
    ensures
        final(rng).can_fail() == old(rng).can_fail(),
        !old(rng).can_fail() ==> r is Ok,
        final(rng).try_log_enabled() == old(rng).try_log_enabled(),
        old(rng).try_log_enabled() ==> old(rng).try_byte_log().is_prefix_of(
            final(rng).try_byte_log(),
        ),
        r matches Ok(v) ==> low <= v < high,
        old(rng).try_log_enabled() ==> (r matches Ok(v) ==> ({
            let oldl = old(rng).try_byte_log();
            let newl = final(rng).try_byte_log();
            &&& newl.len() - oldl.len() >= 8
            &&& (newl.len() - oldl.len()) % 8 == 0
            &&& v == low + (last_u64_of(newl) as int) % (high - low)
        })),
        old(rng).try_log_enabled() ==> (r matches Ok(v) ==> draw_words_trace(
            old(rng).try_byte_log(),
            final(rng).try_byte_log(),
            (high - low) as u64,
            (v - low) as u64,
        )),
{
    let span: usize = high - low;
    match draw_below_u64(rng, span as u64) {
        Ok(d) => Ok(low + (d as usize)),
        Err(e) => Err(e),
    }
}

/// Draws a uniformly distributed value in `[low, high)` for the signed
/// 8-bit integer: the range is shifted onto the unsigned span
/// `high - low`, one value below the span is drawn, and the draw is shifted
/// back.
fn range_i8<R: TryRng>(rng: &mut R, low: i8, high: i8) -> (r: Result<i8, R::Error>)
    requires
        low < high,
    ensures
        final(rng).can_fail() == old(rng).can_fail(),
        !old(rng).can_fail() ==> r is Ok,
        final(rng).try_log_enabled() == old(rng).try_log_enabled(),
        old(rng).try_log_enabled() ==> old(rng).try_byte_log().is_prefix_of(
            final(rng).try_byte_log(),
        ),
        r matches Ok(v) ==> low <= v < high,
{
    let span: u8 = if low < 0 && high >= 0 {
        (high as u8) + ((-(low + 1)) as u8) + 1
    } else {
        (high - low) as u8
    };
    let d = match draw_below_u8(rng, span) {
        Ok(d) => d,
        Err(e) => {
            return Err(e);
        },
    };
    if low >= 0 {
        Ok(low + (d as i8))
    } else {
        let nlow: u8 = (-(low + 1)) as u8;
        if d <= nlow {
            Ok(low + (d as i8))
        } else {
            Ok(((d - nlow) - 1) as i8)
        }
    }
}

/// Draws a uniformly distributed value in `[low, high)` for the signed
/// 16-bit integer: the range is shifted onto the unsigned span
/// `high - low`, one value below the span is drawn, and the draw is shifted
/// back.
fn range_i16<R: TryRng>(rng: &mut R, low: i16, high: i16) -> (r: Result<i16, R::Error>)
    requires
        low < high,
    ensures
        final(rng).can_fail() == old(rng).can_fail(),
        !old(rng).can_fail() ==> r is Ok,
        final(rng).try_log_enabled() == old(rng).try_log_enabled(),
        old(rng).try_log_enabled() ==> old(rng).try_byte_log().is_prefix_of(
            final(rng).try_byte_log(),
        ),
        r matches Ok(v) ==> low <= v < high,
{
    let span: u16 = if low < 0 && high >= 0 {
        (high as u16) + ((-(low + 1)) as u16) + 1
    } else {
        (high - low) as u16
    };
    let d = match draw_below_u16(rng, span) {
        Ok(d) => d,
        Err(e) => {
            return Err(e);
        },
    };
    if low >= 0 {
        Ok(low + (d as i16))
    } else {
        let nlow: u16 = (-(low + 1)) as u16;
        if d <= nlow {
            Ok(low + (d as i16))
        } else {
            Ok(((d - nlow) - 1) as i16)
        }
    }
}

/// Draws a uniformly distributed value in `[low, high)` for the signed
/// 32-bit integer: the range is shifted onto the unsigned span
/// `high - low`, one value below the span is drawn, and the draw is shifted
/// back.
fn range_i32<R: TryRng>(rng: &mut R, low: i32, high: i32) -> (r: Result<i32, R::Error>)
    requires
        low < high,
    ensures
        final(rng).can_fail() == old(rng).can_fail(),
        !old(rng).can_fail() ==> r is Ok,
        final(rng).try_log_enabled() == old(rng).try_log_enabled(),
        old(rng).try_log_enabled() ==> old(rng).try_byte_log().is_prefix_of(
            final(rng).try_byte_log(),
        ),
        r matches Ok(v) ==> low <= v < high,
        old(rng).try_log_enabled() ==> (r matches Ok(v) ==> picked_by_u32_words(
            old(rng).try_byte_log(),
            final(rng).try_byte_log(),
            low as int,
            high as int,
            v as int,
        )),
{
    let span: u32 = if low < 0 && high >= 0 {
        (high as u32) + ((-(low + 1)) as u32) + 1
    } else {
        (high - low) as u32
    };
    let d = match draw_below_u32(rng, span) {
        Ok(d) => d,
        Err(e) => {
            return Err(e);
        },
    };
    if low >= 0 {
        Ok(low + (d as i32))
    } else {
        let nlow: u32 = (-(low + 1)) as u32;
        if d <= nlow {
            Ok(low + (d as i32))
        } else {
            Ok(((d - nlow) - 1) as i32)
        }
    }
}

/// Draws a uniformly distributed value in `[low, high)` for the signed
/// 64-bit integer: the range is shifted onto the unsigned span
/// `high - low`, one value below the span is drawn, and the draw is shifted
/// back.
fn range_i64<R: TryRng>(rng: &mut R, low: i64, high: i64) -> (r: Result<i64, R::Error>)
    requires
        low < high,
    ensures
        final(rng).can_fail() == old(rng).can_fail(),
        !old(rng).can_fail() ==> r is Ok,
        final(rng).try_log_enabled() == old(rng).try_log_enabled(),
        old(rng).try_log_enabled() ==> old(rng).try_byte_log().is_prefix_of(
            final(rng).try_byte_log(),
        ),
        r matches Ok(v) ==> low <= v < high,
        old(rng).try_log_enabled() ==> (r matches Ok(v) ==> picked_by_u64_words(
            old(rng).try_byte_log(),
            final(rng).try_byte_log(),
            low as int,
            high as int,
            v as int,
        )),
{
    let span: u64 = if low < 0 && high >= 0 {
        (high as u64) + ((-(low + 1)) as u64) + 1
    } else {
        (high - low) as u64
    };
    let d = match draw_below_u64(rng, span) {
        Ok(d) => d,
        Err(e) => {
            return Err(e);
        },
    };
    if low >= 0 {
        Ok(low + (d as i64))
    } else {
        let nlow: u64 = (-(low + 1)) as u64;
        if d <= nlow {
            Ok(low + (d as i64))
        } else {
            Ok(((d - nlow) - 1) as i64)
        }
    }
}

/// Draws a uniformly distributed value in `[low, high)` for the signed
/// 128-bit integer: the range is shifted onto the unsigned span
/// `high - low`, one value below the span is drawn, and the draw is shifted
/// back.
fn range_i128<R: TryRng>(rng: &mut R, low: i128, high: i128) -> (r: Result<i128, R::Error>)
    requires
        low < high,
    ensures
        final(rng).can_fail() == old(rng).can_fail(),
        !old(rng).can_fail() ==> r is Ok,
        final(rng).try_log_enabled() == old(rng).try_log_enabled(),
        old(rng).try_log_enabled() ==> old(rng).try_byte_log().is_prefix_of(
            final(rng).try_byte_log(),
        ),
        r matches Ok(v) ==> low <= v < high,
        old(rng).try_log_enabled() ==> (r matches Ok(v) ==> picked_by_u128_words(
            old(rng).try_byte_log(),
            final(rng).try_byte_log(),
            low as int,
            high as int,
            v as int,
        )),
{
    let span: u128 = if low < 0 && high >= 0 {
        (high as u128) + ((-(low + 1)) as u128) + 1
    } else {
        (high - low) as u128
    };
    let d = match draw_below_u128(rng, span) {
        Ok(d) => d,
        Err(e) => {
            return Err(e);
        },
    };
    if low >= 0 {
        Ok(low + (d as i128))
    } else {
        let nlow: u128 = (-(low + 1)) as u128;
        if d <= nlow {
            Ok(low + (d as i128))
        } else {
            Ok(((d - nlow) - 1) as i128)
        }
    }
}

/// Draws a uniformly distributed value in `[low, high)` for the signed
/// pointer-sized integer, through the same shift as the other signed widths
/// and one 64-bit draw per attempt.
fn range_isize<R: TryRng>(rng: &mut R, low: isize, high: isize) -> (r: Result<isize, R::Error>)
    requires
        low < high,
    ensures
        final(rng).can_fail() == old(rng).can_fail(),
        !old(rng).can_fail() ==> r is Ok,
        final(rng).try_log_enabled() == old(rng).try_log_enabled(),
        old(rng).try_log_enabled() ==> old(rng).try_byte_log().is_prefix_of(
            final(rng).try_byte_log(),
        ),
        r matches Ok(v) ==> low <= v < high,
        old(rng).try_log_enabled() ==> (r matches Ok(v) ==> picked_by_u64_words(
            old(rng).try_byte_log(),
            final(rng).try_byte_log(),
            low as int,
            high as int,
            v as int,
        )),
{
    let span: usize = if low < 0 && high >= 0 {
        (high as usize) + ((-(low + 1)) as usize) + 1
    } else {
        (high - low) as usize
    };
    let d64 = match draw_below_u64(rng, span as u64) {
        Ok(d) => d,
        Err(e) => {
            return Err(e);
        },
    };
    let d: usize = d64 as usize;
    if low >= 0 {
        Ok(low + (d as isize))
    } else {
        let nlow: usize = (-(low + 1)) as usize;
        if d <= nlow {
            Ok(low + (d as isize))
        } else {
            Ok(((d - nlow) - 1) as isize)
        }
    }
}

impl RandIn<Range<u16>> for u16 {
    open spec fn can_pick(value: Range<u16>) -> bool {
        value.start < value.end
    }

    open spec fn picked_from(picked: Self, value: Range<u16>) -> bool {
        value.start <= picked < value.end
    }

    fn rand_in<R: Rng>(rng: &mut R, value: Range<u16>) -> (r: Option<Self>) {
        if value.start < value.end {
            match range_u16(rng, value.start, value.end) {
                Ok(v) => Some(v),
                Err(_) => unreached(),
            }
        } else {
            None
        }
    }

    fn try_rand_in<R: TryRng>(rng: &mut R, value: Range<u16>) -> (r: Result<
        Option<Self>,
        R::Error,
    >) {
        if value.start < value.end {
            match range_u16(rng, value.start, value.end) {
                Ok(v) => Ok(Some(v)),
                Err(e) => Err(e),
            }
        } else {
            Ok(None)
        }
    }

    fn rand_in_unchecked<R: Rng>(rng: &mut R, value: Range<u16>) -> (v: Self) {
        match range_u16(rng, value.start, value.end) {
            Ok(v) => v,
            Err(_) => unreached(),
        }
    }

    fn try_rand_in_unchecked<R: TryRng>(rng: &mut R, value: Range<u16>) -> (r: Result<
        Self,
        R::Error,
    >) {
        range_u16(rng, value.start, value.end)
    }
}

impl RandIn<Range<u32>> for u32 {
    open spec fn can_pick(value: Range<u32>) -> bool {
        value.start < value.end
    }

    open spec fn picked_from(picked: Self, value: Range<u32>) -> bool {
        value.start <= picked < value.end
    }

    fn rand_in<R: Rng>(rng: &mut R, value: Range<u32>) -> (r: Option<Self>)
        ensures
            old(rng).log_enabled() ==> (r matches Some(v) ==> picked_by_u32_words(
                old(rng).byte_log(),
                final(rng).byte_log(),
                value.start as int,
                value.end as int,
                v as int,
            )),
    {
        if value.start < value.end {
            match range_u32(rng, value.start, value.end) {
                Ok(v) => Some(v),
                Err(_) => unreached(),
            }
        } else {
            None
        }
    }

    fn try_rand_in<R: TryRng>(rng: &mut R, value: Range<u32>) -> (r: Result<
        Option<Self>,
        R::Error,
    >)
        ensures
            old(rng).try_log_enabled() ==> (r matches Ok(p) ==> (p matches Some(v)
                ==> picked_by_u32_words(
                old(rng).try_byte_log(),
                final(rng).try_byte_log(),
                value.start as int,
                value.end as int,
                v as int,
            ))),
    {
        if value.start < value.end {
            match range_u32(rng, value.start, value.end) {
                Ok(v) => Ok(Some(v)),
                Err(e) => Err(e),
            }
        } else {
            Ok(None)
        }
    }

    fn rand_in_unchecked<R: Rng>(rng: &mut R, value: Range<u32>) -> (v: Self)
        ensures
            old(rng).log_enabled() ==> picked_by_u32_words(
                old(rng).byte_log(),
                final(rng).byte_log(),
                value.start as int,
                value.end as int,
                v as int,
            ),
    {
        match range_u32(rng, value.start, value.end) {
            Ok(v) => v,
            Err(_) => unreached(),
        }
    }

    fn try_rand_in_unchecked<R: TryRng>(rng: &mut R, value: Range<u32>) -> (r: Result<
        Self,
        R::Error,
    >)
        ensures
            old(rng).try_log_enabled() ==> (r matches Ok(v) ==> picked_by_u32_words(
                old(rng).try_byte_log(),
                final(rng).try_byte_log(),
                value.start as int,
                value.end as int,
                v as int,
            )),
    {
        range_u32(rng, value.start, value.end)
    }
}

impl RandIn<Range<u64>> for u64 {
    open spec fn can_pick(value: Range<u64>) -> bool {
        value.start < value.end
    }

    open spec fn picked_from(picked: Self, value: Range<u64>) -> bool {
        value.start <= picked < value.end
    }

    fn rand_in<R: Rng>(rng: &mut R, value: Range<u64>) -> (r: Option<Self>)
        ensures
            old(rng).log_enabled() ==> (r matches Some(v) ==> picked_by_u64_words(
                old(rng).byte_log(),
                final(rng).byte_log(),
                value.start as int,
                value.end as int,
                v as int,
            )),
    {
        if value.start < value.end {
            match range_u64(rng, value.start, value.end) {
                Ok(v) => Some(v),
                Err(_) => unreached(),
            }
        } else {
            None
        }
    }

    fn try_rand_in<R: TryRng>(rng: &mut R, value: Range<u64>) -> (r: Result<
        Option<Self>,
        R::Error,
    >)
        ensures
            old(rng).try_log_enabled() ==> (r matches Ok(p) ==> (p matches Some(v)
                ==> picked_by_u64_words(
                old(rng).try_byte_log(),
                final(rng).try_byte_log(),
                value.start as int,
                value.end as int,
                v as int,
            ))),
    {
        if value.start < value.end {
            match range_u64(rng, value.start, value.end) {
                Ok(v) => Ok(Some(v)),
                Err(e) => Err(e),
            }
        } else {
            Ok(None)
        }
    }

    fn rand_in_unchecked<R: Rng>(rng: &mut R, value: Range<u64>) -> (v: Self)
        ensures
            old(rng).log_enabled() ==> picked_by_u64_words(
                old(rng).byte_log(),
                final(rng).byte_log(),
                value.start as int,
                value.end as int,
                v as int,
            ),
    {
        match range_u64(rng, value.start, value.end) {
            Ok(v) => v,
            Err(_) => unreached(),
        }
    }

    fn try_rand_in_unchecked<R: TryRng>(rng: &mut R, value: Range<u64>) -> (r: Result<
        Self,
        R::Error,
    >)
        ensures
            old(rng).try_log_enabled() ==> (r matches Ok(v) ==> picked_by_u64_words(
                old(rng).try_byte_log(),
                final(rng).try_byte_log(),
                value.start as int,
                value.end as int,
                v as int,
            )),
    {
        range_u64(rng, value.start, value.end)
    }
}

impl RandIn<Range<u128>> for u128 {
    open spec fn can_pick(value: Range<u128>) -> bool {
        value.start < value.end
    }

    open spec fn picked_from(picked: Self, value: Range<u128>) -> bool {
        value.start <= picked < value.end
    }

    fn rand_in<R: Rng>(rng: &mut R, value: Range<u128>) -> (r: Option<Self>)
        ensures
            old(rng).log_enabled() ==> (r matches Some(v) ==> picked_by_u128_words(
                old(rng).byte_log(),
                final(rng).byte_log(),
                value.start as int,
                value.end as int,
                v as int,
            )),
    {
        if value.start < value.end {
            match range_u128(rng, value.start, value.end) {
                Ok(v) => Some(v),
                Err(_) => unreached(),
            }
        } else {
            None
        }
    }

    fn try_rand_in<R: TryRng>(rng: &mut R, value: Range<u128>) -> (r: Result<
        Option<Self>,
        R::Error,
    >)
        ensures
            old(rng).try_log_enabled() ==> (r matches Ok(p) ==> (p matches Some(v)
                ==> picked_by_u128_words(
                old(rng).try_byte_log(),
                final(rng).try_byte_log(),
                value.start as int,
                value.end as int,
                v as int,
            ))),
    {
        if value.start < value.end {
            match range_u128(rng, value.start, value.end) {
                Ok(v) => Ok(Some(v)),
                Err(e) => Err(e),
            }
        } else {
            Ok(None)
        }
    }

    fn rand_in_unchecked<R: Rng>(rng: &mut R, value: Range<u128>) -> (v: Self)
        ensures
            old(rng).log_enabled() ==> picked_by_u128_words(
                old(rng).byte_log(),
                final(rng).byte_log(),
                value.start as int,
                value.end as int,
                v as int,
            ),
    {
        match range_u128(rng, value.start, value.end) {
            Ok(v) => v,
            Err(_) => unreached(),
        }
    }

    fn try_rand_in_unchecked<R: TryRng>(rng: &mut R, value: Range<u128>) -> (r: Result<
        Self,
        R::Error,
    >)
        ensures
            old(rng).try_log_enabled() ==> (r matches Ok(v) ==> picked_by_u128_words(
                old(rng).try_byte_log(),
                final(rng).try_byte_log(),
                value.start as int,
                value.end as int,
                v as int,
            )),
    {
        range_u128(rng, value.start, value.end)
    }
}

impl RandIn<Range<usize>> for usize {
    open spec fn can_pick(value: Range<usize>) -> bool {
        value.start < value.end
    }

    open spec fn picked_from(picked: Self, value: Range<usize>) -> bool {
        value.start <= picked < value.end
    }

    fn rand_in<R: Rng>(rng: &mut R, value: Range<usize>) -> (r: Option<Self>)
        ensures
            old(rng).log_enabled() ==> (r matches Some(v) ==> picked_by_u64_words(
                old(rng).byte_log(),
                final(rng).byte_log(),
                value.start as int,
                value.end as int,
                v as int,
            )),
    {
        if value.start < value.end {
            match range_usize(rng, value.start, value.end) {
                Ok(v) => Some(v),
                Err(_) => unreached(),
            }
        } else {
            None
        }
    }

    fn try_rand_in<R: TryRng>(rng: &mut R, value: Range<usize>) -> (r: Result<
        Option<Self>,
        R::Error,
    >)
        ensures
            old(rng).try_log_enabled() ==> (r matches Ok(p) ==> (p matches Some(v)
                ==> picked_by_u64_words(
                old(rng).try_byte_log(),
                final(rng).try_byte_log(),
                value.start as int,
                value.end as int,
                v as int,
            ))),
    {
        if value.start < value.end {
            match range_usize(rng, value.start, value.end) {
                Ok(v) => Ok(Some(v)),
                Err(e) => Err(e),
            }
        } else {
            Ok(None)
        }
    }

    fn rand_in_unchecked<R: Rng>(rng: &mut R, value: Range<usize>) -> (v: Self)
        ensures
            old(rng).log_enabled() ==> picked_by_u64_words(
                old(rng).byte_log(),
                final(rng).byte_log(),
                value.start as int,
                value.end as int,
                v as int,
            ),
            old(rng).log_enabled() ==> draw_words_trace(
                old(rng).byte_log(),
                final(rng).byte_log(),
                (value.end - value.start) as u64,
                (v - value.start) as u64,
            ),
    {
        match range_usize(rng, value.start, value.end) {
            Ok(v) => v,
            Err(_) => unreached(),
        }
    }

    fn try_rand_in_unchecked<R: TryRng>(rng: &mut R, value: Range<usize>) -> (r: Result<
        Self,
        R::Error,
    >)
        ensures
            old(rng).try_log_enabled() ==> (r matches Ok(v) ==> picked_by_u64_words(
                old(rng).try_byte_log(),
                final(rng).try_byte_log(),
                value.start as int,
                value.end as int,
                v as int,
            )),
            old(rng).try_log_enabled() ==> (r matches Ok(v) ==> draw_words_trace(
                old(rng).try_byte_log(),
                final(rng).try_byte_log(),
                (value.end - value.start) as u64,
                (v - value.start) as u64,
            )),
    {
        range_usize(rng, value.start, value.end)
    }
}

impl RandIn<Range<i8>> for i8 {
    open spec fn can_pick(value: Range<i8>) -> bool {
        value.start < value.end
    }

    open spec fn picked_from(picked: Self, value: Range<i8>) -> bool {
        value.start <= picked < value.end
    }

    fn rand_in<R: Rng>(rng: &mut R, value: Range<i8>) -> (r: Option<Self>) {
        if value.start < value.end {
            match range_i8(rng, value.start, value.end) {
                Ok(v) => Some(v),
                Err(_) => unreached(),
            }
        } else {
            None
        }
    }

    fn try_rand_in<R: TryRng>(rng: &mut R, value: Range<i8>) -> (r: Result<
        Option<Self>,
        R::Error,
    >) {
        if value.start < value.end {
            match range_i8(rng, value.start, value.end) {
                Ok(v) => Ok(Some(v)),
                Err(e) => Err(e),
            }
        } else {
            Ok(None)
        }
    }

    fn rand_in_unchecked<R: Rng>(rng: &mut R, value: Range<i8>) -> (v: Self) {
        match range_i8(rng, value.start, value.end) {
            Ok(v) => v,
            Err(_) => unreached(),
        }
    }

    fn try_rand_in_unchecked<R: TryRng>(rng: &mut R, value: Range<i8>) -> (r: Result<
        Self,
        R::Error,
    >) {
        range_i8(rng, value.start, value.end)
    }
}

impl RandIn<Range<i16>> for i16 {
    open spec fn can_pick(value: Range<i16>) -> bool {
        value.start < value.end
    }

    open spec fn picked_from(picked: Self, value: Range<i16>) -> bool {
        value.start <= picked < value.end
    }

    fn rand_in<R: Rng>(rng: &mut R, value: Range<i16>) -> (r: Option<Self>) {
        if value.start < value.end {
            match range_i16(rng, value.start, value.end) {
                Ok(v) => Some(v),
                Err(_) => unreached(),
            }
        } else {
            None
        }
    }

    fn try_rand_in<R: TryRng>(rng: &mut R, value: Range<i16>) -> (r: Result<
        Option<Self>,
        R::Error,
    >) {
        if value.start < value.end {
            match range_i16(rng, value.start, value.end) {
                Ok(v) => Ok(Some(v)),
                Err(e) => Err(e),
            }
        } else {
            Ok(None)
        }
    }

    fn rand_in_unchecked<R: Rng>(rng: &mut R, value: Range<i16>) -> (v: Self) {
        match range_i16(rng, value.start, value.end) {
            Ok(v) => v,
            Err(_) => unreached(),
        }
    }

    fn try_rand_in_unchecked<R: TryRng>(rng: &mut R, value: Range<i16>) -> (r: Result<
        Self,
        R::Error,
    >) {
        range_i16(rng, value.start, value.end)
    }
}

impl RandIn<Range<i32>> for i32 {
    open spec fn can_pick(value: Range<i32>) -> bool {
        value.start < value.end
    }

    open spec fn picked_from(picked: Self, value: Range<i32>) -> bool {
        value.start <= picked < value.end
    }

    fn rand_in<R: Rng>(rng: &mut R, value: Range<i32>) -> (r: Option<Self>)
        ensures
            old(rng).log_enabled() ==> (r matches Some(v) ==> picked_by_u32_words(
                old(rng).byte_log(),
                final(rng).byte_log(),
                value.start as int,
                value.end as int,
                v as int,
            )),
    {
        if value.start < value.end {
            match range_i32(rng, value.start, value.end) {
                Ok(v) => Some(v),
                Err(_) => unreached(),
            }
        } else {
            None
        }
    }

    fn try_rand_in<R: TryRng>(rng: &mut R, value: Range<i32>) -> (r: Result<
        Option<Self>,
        R::Error,
    >)
        ensures
            old(rng).try_log_enabled() ==> (r matches Ok(p) ==> (p matches Some(v)
                ==> picked_by_u32_words(
                old(rng).try_byte_log(),
                final(rng).try_byte_log(),
                value.start as int,
                value.end as int,
                v as int,
            ))),
    {
        if value.start < value.end {
            match range_i32(rng, value.start, value.end) {
                Ok(v) => Ok(Some(v)),
                Err(e) => Err(e),
            }
        } else {
            Ok(None)
        }
    }

    fn rand_in_unchecked<R: Rng>(rng: &mut R, value: Range<i32>) -> (v: Self)
        ensures
            old(rng).log_enabled() ==> picked_by_u32_words(
                old(rng).byte_log(),
                final(rng).byte_log(),
                value.start as int,
                value.end as int,
                v as int,
            ),
    {
        match range_i32(rng, value.start, value.end) {
            Ok(v) => v,
            Err(_) => unreached(),
        }
    }

    fn try_rand_in_unchecked<R: TryRng>(rng: &mut R, value: Range<i32>) -> (r: Result<
        Self,
        R::Error,
    >)
        ensures
            old(rng).try_log_enabled() ==> (r matches Ok(v) ==> picked_by_u32_words(
                old(rng).try_byte_log(),
                final(rng).try_byte_log(),
                value.start as int,
                value.end as int,
                v as int,
            )),
    {
        range_i32(rng, value.start, value.end)
    }
}

impl RandIn<Range<i64>> for i64 {
    open spec fn can_pick(value: Range<i64>) -> bool {
        value.start < value.end
    }

    open spec fn picked_from(picked: Self, value: Range<i64>) -> bool {
        value.start <= picked < value.end
    }

    fn rand_in<R: Rng>(rng: &mut R, value: Range<i64>) -> (r: Option<Self>)
        ensures
            old(rng).log_enabled() ==> (r matches Some(v) ==> picked_by_u64_words(
                old(rng).byte_log(),
                final(rng).byte_log(),
                value.start as int,
                value.end as int,
                v as int,
            )),
    {
        if value.start < value.end {
            match range_i64(rng, value.start, value.end) {
                Ok(v) => Some(v),
                Err(_) => unreached(),
            }
        } else {
            None
        }
    }

    fn try_rand_in<R: TryRng>(rng: &mut R, value: Range<i64>) -> (r: Result<
        Option<Self>,
        R::Error,
    >)
        ensures
            old(rng).try_log_enabled() ==> (r matches Ok(p) ==> (p matches Some(v)
                ==> picked_by_u64_words(
                old(rng).try_byte_log(),
                final(rng).try_byte_log(),
                value.start as int,
                value.end as int,
                v as int,
            ))),
    {
        if value.start < value.end {
            match range_i64(rng, value.start, value.end) {
                Ok(v) => Ok(Some(v)),
                Err(e) => Err(e),
            }
        } else {
            Ok(None)
        }
    }

    fn rand_in_unchecked<R: Rng>(rng: &mut R, value: Range<i64>) -> (v: Self)
        ensures
            old(rng).log_enabled() ==> picked_by_u64_words(
                old(rng).byte_log(),
                final(rng).byte_log(),
                value.start as int,
                value.end as int,
                v as int,
            ),
    {
        match range_i64(rng, value.start, value.end) {
            Ok(v) => v,
            Err(_) => unreached(),
        }
    }

    fn try_rand_in_unchecked<R: TryRng>(rng: &mut R, value: Range<i64>) -> (r: Result<
        Self,
        R::Error,
    >)
        ensures
            old(rng).try_log_enabled() ==> (r matches Ok(v) ==> picked_by_u64_words(
                old(rng).try_byte_log(),
                final(rng).try_byte_log(),
                value.start as int,
                value.end as int,
                v as int,
            )),
    {
        range_i64(rng, value.start, value.end)
    }
}

impl RandIn<Range<i128>> for i128 {
    open spec fn can_pick(value: Range<i128>) -> bool {
        value.start < value.end
    }

    open spec fn picked_from(picked: Self, value: Range<i128>) -> bool {
        value.start <= picked < value.end
    }

    fn rand_in<R: Rng>(rng: &mut R, value: Range<i128>) -> (r: Option<Self>)
        ensures
            old(rng).log_enabled() ==> (r matches Some(v) ==> picked_by_u128_words(
                old(rng).byte_log(),
                final(rng).byte_log(),
                value.start as int,
                value.end as int,
                v as int,
            )),
    {
        if value.start < value.end {
            match range_i128(rng, value.start, value.end) {
                Ok(v) => Some(v),
                Err(_) => unreached(),
            }
        } else {
            None
        }
    }

    fn try_rand_in<R: TryRng>(rng: &mut R, value: Range<i128>) -> (r: Result<
        Option<Self>,
        R::Error,
    >)
        ensures
            old(rng).try_log_enabled() ==> (r matches Ok(p) ==> (p matches Some(v)
                ==> picked_by_u128_words(
                old(rng).try_byte_log(),
                final(rng).try_byte_log(),
                value.start as int,
                value.end as int,
                v as int,
            ))),
    {
        if value.start < value.end {
            match range_i128(rng, value.start, value.end) {
                Ok(v) => Ok(Some(v)),
                Err(e) => Err(e),
            }
        } else {
            Ok(None)
        }
    }

    fn rand_in_unchecked<R: Rng>(rng: &mut R, value: Range<i128>) -> (v: Self)
        ensures
            old(rng).log_enabled() ==> picked_by_u128_words(
                old(rng).byte_log(),
                final(rng).byte_log(),
                value.start as int,
                value.end as int,
                v as int,
            ),
    {
        match range_i128(rng, value.start, value.end) {
            Ok(v) => v,
            Err(_) => unreached(),
        }
    }

    fn try_rand_in_unchecked<R: TryRng>(rng: &mut R, value: Range<i128>) -> (r: Result<
        Self,
        R::Error,
    >)
        ensures
            old(rng).try_log_enabled() ==> (r matches Ok(v) ==> picked_by_u128_words(
                old(rng).try_byte_log(),
                final(rng).try_byte_log(),
                value.start as int,
                value.end as int,
                v as int,
            )),
    {
        range_i128(rng, value.start, value.end)
    }
}

impl RandIn<Range<isize>> for isize {
    open spec fn can_pick(value: Range<isize>) -> bool {
        value.start < value.end
    }

    open spec fn picked_from(picked: Self, value: Range<isize>) -> bool {
        value.start <= picked < value.end
    }

    fn rand_in<R: Rng>(rng: &mut R, value: Range<isize>) -> (r: Option<Self>)
        ensures
            old(rng).log_enabled() ==> (r matches Some(v) ==> picked_by_u64_words(
                old(rng).byte_log(),
                final(rng).byte_log(),
                value.start as int,
                value.end as int,
                v as int,
            )),
    {
        if value.start < value.end {
            match range_isize(rng, value.start, value.end) {
                Ok(v) => Some(v),
                Err(_) => unreached(),
            }
        } else {
            None
        }
    }

    fn try_rand_in<R: TryRng>(rng: &mut R, value: Range<isize>) -> (r: Result<
        Option<Self>,
        R::Error,
    >)
        ensures
            old(rng).try_log_enabled() ==> (r matches Ok(p) ==> (p matches Some(v)
                ==> picked_by_u64_words(
                old(rng).try_byte_log(),
                final(rng).try_byte_log(),
                value.start as int,
                value.end as int,
                v as int,
            ))),
    {
        if value.start < value.end {
            match range_isize(rng, value.start, value.end) {
                Ok(v) => Ok(Some(v)),
                Err(e) => Err(e),
            }
        } else {
            Ok(None)
        }
    }

    fn rand_in_unchecked<R: Rng>(rng: &mut R, value: Range<isize>) -> (v: Self)
        ensures
            old(rng).log_enabled() ==> picked_by_u64_words(
                old(rng).byte_log(),
                final(rng).byte_log(),
                value.start as int,
                value.end as int,
                v as int,
            ),
    {
        match range_isize(rng, value.start, value.end) {
            Ok(v) => v,
            Err(_) => unreached(),
        }
    }

    fn try_rand_in_unchecked<R: TryRng>(rng: &mut R, value: Range<isize>) -> (r: Result<
        Self,
        R::Error,
    >)
        ensures
            old(rng).try_log_enabled() ==> (r matches Ok(v) ==> picked_by_u64_words(
                old(rng).try_byte_log(),
                final(rng).try_byte_log(),
                value.start as int,
                value.end as int,
                v as int,
            )),
    {
        range_isize(rng, value.start, value.end)
    }
}

impl<'a, A> RandIn<&'a [A]> for &'a A {
    open spec fn can_pick(value: &'a [A]) -> bool {
        value@.len() > 0
    }

    open spec fn picked_from(picked: Self, value: &'a [A]) -> bool {
        exists|i: int| 0 <= i < value@.len() && *picked == #[trigger] value@[i]
    }

    fn rand_in<R: Rng>(rng: &mut R, value: &'a [A]) -> (r: Option<Self>)
        ensures
            old(rng).log_enabled() ==> (r matches Some(x) ==> ({
                let newl = final(rng).byte_log();
                &&& newl.len() - old(rng).byte_log().len() >= 8
                &&& (newl.len() - old(rng).byte_log().len()) % 8 == 0
                &&& *x == value@[(last_u64_of(newl) as int) % (value@.len() as int)]
            })),
    {
        if value.len() > 0 {
            Some(Self::rand_in_unchecked(rng, value))
        } else {
            None
        }
    }

    fn try_rand_in<R: TryRng>(rng: &mut R, value: &'a [A]) -> (r: Result<
        Option<Self>,
        R::Error,
    >)
        ensures
            old(rng).try_log_enabled() ==> (r matches Ok(p) ==> (p matches Some(x) ==> ({
                let newl = final(rng).try_byte_log();
                &&& newl.len() - old(rng).try_byte_log().len() >= 8
                &&& (newl.len() - old(rng).try_byte_log().len()) % 8 == 0
                &&& *x == value@[(last_u64_of(newl) as int) % (value@.len() as int)]
            }))),
    {
        if value.len() > 0 {
            match Self::try_rand_in_unchecked(rng, value) {
                Ok(v) => Ok(Some(v)),
                Err(e) => Err(e),
            }
        } else {
            Ok(None)
        }
    }

    fn rand_in_unchecked<R: Rng>(rng: &mut R, value: &'a [A]) -> (v: Self)
        ensures
            old(rng).log_enabled() ==> ({
                let newl = final(rng).byte_log();
                &&& newl.len() - old(rng).byte_log().len() >= 8
                &&& (newl.len() - old(rng).byte_log().len()) % 8 == 0
                &&& *v == value@[(last_u64_of(newl) as int) % (value@.len() as int)]
            }),
    {
        let idx = usize::rand_in_unchecked(rng, 0usize..value.len());
        let v = vstd::slice::slice_index_get(value, idx);
        proof {
            assert(idx < value@.len() && *v == value@[idx as int]);
        }
        v
    }

    fn try_rand_in_unchecked<R: TryRng>(rng: &mut R, value: &'a [A]) -> (r: Result<
        Self,
        R::Error,
    >)
        ensures
            old(rng).try_log_enabled() ==> (r matches Ok(x) ==> ({
                let newl = final(rng).try_byte_log();
                &&& newl.len() - old(rng).try_byte_log().len() >= 8
                &&& (newl.len() - old(rng).try_byte_log().len()) % 8 == 0
                &&& *x == value@[(last_u64_of(newl) as int) % (value@.len() as int)]
            })),
    {
        match usize::try_rand_in_unchecked(rng, 0usize..value.len()) {
            Ok(idx) => {
                let v = vstd::slice::slice_index_get(value, idx);
                proof {
                    assert(idx < value@.len() && *v == value@[idx as int]);
                }
                Ok(v)
            },
            Err(e) => Err(e),
        }
    }
}



/// Splitting a sequence at `i` and replacing the head of the second part is
/// the same as updating position `i`.
proof fn lemma_update_decompose<A>(s: Seq<A>, i: int, x: A)
    requires
        0 <= i < s.len(),
    ensures
        s.subrange(0, i) + s.subrange(i, s.len() as int).update(0, x) == s.update(i, x),
{
    assert(s.subrange(0, i) + s.subrange(i, s.len() as int).update(0, x) =~= s.update(i, x));
}

impl<'a, A> RandIn<&'a mut [A]> for &'a mut A {
    open spec fn can_pick(value: &'a mut [A]) -> bool {
        value@.len() > 0
    }

    open spec fn picked_from(picked: Self, value: &'a mut [A]) -> bool {
        exists|i: int| 0 <= i < value@.len() && *picked == #[trigger] value@[i]
    }

    fn rand_in<R: Rng>(rng: &mut R, value: &'a mut [A]) -> (r: Option<Self>)
        ensures
            r matches Some(m) ==> exists|i: int|
                {
                    &&& 0 <= i < old(value)@.len()
                    &&& *m == old(value)@[i]
                    &&& final(value)@ == #[trigger] old(value)@.update(i, *final(m))
                },
            r is None ==> final(value)@ == old(value)@,
            old(rng).log_enabled() ==> (r matches Some(m) ==> ({
                let newl = final(rng).byte_log();
                let at = (last_u64_of(newl) as int) % (old(value)@.len() as int);
                &&& newl.len() - old(rng).byte_log().len() >= 8
                &&& (newl.len() - old(rng).byte_log().len()) % 8 == 0
                &&& *m == old(value)@[at]
                &&& final(value)@ == old(value)@.update(at, *final(m))
            })),
    {
        if value.len() > 0 {
            Some(Self::rand_in_unchecked(rng, value))
        } else {
            None
        }
    }

    #[verifier::spinoff_prover]
    fn try_rand_in<R: TryRng>(rng: &mut R, value: &'a mut [A]) -> (r: Result<
        Option<Self>,
        R::Error,
    >)
        ensures
            r matches Ok(p) ==> (p matches Some(m) ==> exists|i: int|
                {
                    &&& 0 <= i < old(value)@.len()
                    &&& *m == old(value)@[i]
                    &&& final(value)@ =~= #[trigger] old(value)@.update(i, *final(m))
                }),
            r matches Ok(None) ==> final(value)@ == old(value)@,
            r is Err ==> final(value)@ == old(value)@,
            old(rng).try_log_enabled() ==> (r matches Ok(p) ==> (p matches Some(m) ==> ({
                let newl = final(rng).try_byte_log();
                let at = (last_u64_of(newl) as int) % (old(value)@.len() as int);
                &&& newl.len() - old(rng).try_byte_log().len() >= 8
                &&& (newl.len() - old(rng).try_byte_log().len()) % 8 == 0
                &&& *m == old(value)@[at]
                &&& final(value)@ =~= old(value)@.update(at, *final(m))
            }))),
    {
        if value.len() == 0 {
            return Ok(None);
        }
        let picked = match Self::try_rand_in_unchecked(rng, value) {
            Ok(m) => Some(m),
            Err(e) => {
                return Err(e);
            },
        };
        Ok(picked)
    }

    fn rand_in_unchecked<R: Rng>(rng: &mut R, value: &'a mut [A]) -> (v: Self)
        ensures
            exists|i: int|
                {
                    &&& 0 <= i < old(value)@.len()
                    &&& *v == old(value)@[i]
                    &&& final(value)@ == #[trigger] old(value)@.update(i, *final(v))
                },
            old(rng).log_enabled() ==> ({
                let newl = final(rng).byte_log();
                let at = (last_u64_of(newl) as int) % (old(value)@.len() as int);
                &&& newl.len() - old(rng).byte_log().len() >= 8
                &&& (newl.len() - old(rng).byte_log().len()) % 8 == 0
                &&& *v == old(value)@[at]
                &&& final(value)@ == old(value)@.update(at, *final(v))
            }),
    {
        let ghost s0 = value@;
        let idx = usize::rand_in_unchecked(rng, 0usize..value.len());
        let (_front, tail) = value.split_at_mut(idx);
        match tail.first_mut() {
            Some(m) => {
                proof {
                    lemma_update_decompose(s0, idx as int, *final(m));
                }
                m
            },
            None => unreached(),
        }
    }

    fn try_rand_in_unchecked<R: TryRng>(rng: &mut R, value: &'a mut [A]) -> (r: Result<
        Self,
        R::Error,
    >)
        ensures
            r matches Ok(m) ==> exists|i: int|
                {
                    &&& 0 <= i < old(value)@.len()
                    &&& *m == old(value)@[i]
                    &&& final(value)@ == #[trigger] old(value)@.update(i, *final(m))
                },
            r is Err ==> final(value)@ == old(value)@,
            old(rng).try_log_enabled() ==> (r matches Ok(m) ==> ({
                let newl = final(rng).try_byte_log();
                let at = (last_u64_of(newl) as int) % (old(value)@.len() as int);
                &&& newl.len() - old(rng).try_byte_log().len() >= 8
                &&& (newl.len() - old(rng).try_byte_log().len()) % 8 == 0
                &&& *m == old(value)@[at]
                &&& final(value)@ == old(value)@.update(at, *final(m))
            })),
    {
        let idx = match usize::try_rand_in_unchecked(rng, 0usize..value.len()) {
            Ok(idx) => idx,
            Err(e) => {
                return Err(e);
            },
        };
        let ghost s0 = value@;
        let (_front, tail) = value.split_at_mut(idx);
        match tail.first_mut() {
            Some(m) => {
                proof {
                    lemma_update_decompose(s0, idx as int, *final(m));
                }
                Ok(m)
            },
            None => unreached(),
        }
    }
}

} // verus!

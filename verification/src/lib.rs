//! Random number generation behind a capability interface.
//!
//! The crate separates generators that cannot fail ([`Rng`]) from generators
//! that may fail ([`TryRng`]), and builds typed value generation, bounded
//! selection and shuffling generically on top of either tier.

mod io;
mod panicking;
mod rand;
mod rand_in;
mod rng;
mod shuffle;
mod slice_ext;

pub use crate::io::ReadRng;
pub use crate::panicking::PanickingRng;
pub use crate::rand::{next_usize_log, Rand};
pub use crate::rand_in::{
    accepted_at, cut_below, draw_words_trace, first_accept, last_u32_of, last_u64_of,
    last_u128_of, parses_into, picked_by_u32_words, picked_by_u64_words, picked_by_u128_words,
    RandIn, REJECT_TRIES,
};
pub use crate::rng::{
    bridge_bytes_drawn, fill_bytes_via_next, fill_log, fill_stopped_at,
    lemma_infallible_cannot_fail, next_u8_log, next_u16_log, next_u32_log, next_u64_log,
    next_u128_log, try_fill_bytes_via_next, words_of, Never, Rng, TryRng,
};
pub use crate::shuffle::{replay_shuffle, replay_shuffle_from, swapped, Shuffle};
pub use crate::slice_ext::SliceExt;

use chance::{RandIn, Rng, SliceExt};

/// A 64-bit generator with the split-mix step, for statistical checks.
struct SplitMix {
    state: u64,
}

impl Rng for SplitMix {
    fn fill_bytes(&mut self, buf: &mut [u8]) {
        chance::fill_bytes_via_next(self, buf);
    }

    fn next_u32(&mut self) -> u32 {
        self.next_u64() as u32
    }

    fn next_u64(&mut self) -> u64 {
        self.state = self.state.wrapping_add(0x9e3779b97f4a7c15);
        let mut z = self.state;
        z = (z ^ (z >> 30)).wrapping_mul(0xbf58476d1ce4e5b9);
        z = (z ^ (z >> 27)).wrapping_mul(0x94d049bb133111eb);
        z ^ (z >> 31)
    }
}

/// Emits a scripted stream of bytes directly from `fill_bytes`.
struct ByteScript {
    bytes: Vec<u8>,
    pos: usize,
}

impl Rng for ByteScript {
    fn fill_bytes(&mut self, buf: &mut [u8]) {
        for b in buf.iter_mut() {
            *b = self.bytes[self.pos];
            self.pos += 1;
        }
    }
}

#[test]
fn range_selection_stays_in_bounds_and_roughly_uniform() {
    let mut rng = SplitMix { state: 42 };
    let (low, high) = (3u8, 10u8);
    let buckets = (high - low) as usize;
    let mut counts = vec![0usize; buckets];
    let draws = 100_000usize;
    for _ in 0..draws {
        let v = u8::rand_in(&mut rng, low..high).unwrap();
        assert!(low <= v && v < high);
        counts[(v - low) as usize] += 1;
    }
    let mean = draws / buckets;
    for (k, c) in counts.iter().enumerate() {
        assert!(
            *c > mean * 8 / 10 && *c < mean * 12 / 10,
            "bucket {} count {} out of tolerance around {}",
            k,
            c,
            mean
        );
    }
}

#[test]
fn range_selection_in_bounds_many_types() {
    let mut rng = SplitMix { state: 7 };
    for _ in 0..2_000 {
        let v = u16::rand_in(&mut rng, 100..200).unwrap();
        assert!((100..200).contains(&v));
        let v = u64::rand_in(&mut rng, 5..6).unwrap();
        assert_eq!(v, 5);
        let v = u128::rand_in(&mut rng, 0..1_000_000_000_000_000_000_000u128).unwrap();
        assert!(v < 1_000_000_000_000_000_000_000u128);
        let v = usize::rand_in(&mut rng, 10..13).unwrap();
        assert!((10..13).contains(&v));
        let v = i8::rand_in(&mut rng, -120..121).unwrap();
        assert!((-120..121).contains(&v));
        let v = i32::rand_in(&mut rng, -5..-2).unwrap();
        assert!((-5..-2).contains(&v));
        let v = i64::rand_in(&mut rng, i64::MIN..i64::MAX).unwrap();
        assert!(v < i64::MAX);
        let v = isize::rand_in(&mut rng, -3..4).unwrap();
        assert!((-3..4).contains(&v));
        let v = u8::rand_in(&mut rng, 0..255).unwrap();
        assert!(v < 255);
        let v = usize::rand_in(&mut rng, 0..usize::MAX).unwrap();
        assert!(v < usize::MAX);
        assert_eq!(usize::rand_in(&mut rng, 7..8), Some(7));
    }
}

#[test]
fn empty_range_yields_none() {
    let mut rng = SplitMix { state: 1 };
    assert_eq!(u8::rand_in(&mut rng, 5..5), None);
    assert_eq!(u32::try_rand_in(&mut rng, 9..3), Ok(None));
    assert_eq!(i16::rand_in(&mut rng, 0..0), None);
}

#[test]
fn rejection_discards_biased_high_draws() {
    // for a span of 250 inside the 8-bit words, values from 250 to 255 are
    // rejected; the first scripted byte falls in that zone and must be
    // skipped
    let mut rng = ByteScript { bytes: vec![252, 7, 0, 0], pos: 0 };
    let v = u8::rand_in(&mut rng, 0..250).unwrap();
    assert_eq!(v, 7);
    assert_eq!(rng.pos, 2);
}

#[test]
fn signed_selection_shifts_the_draw() {
    // span 10 over [-5, 5): a draw of 3 lands below zero, a draw of 7 above
    let mut rng = ByteScript { bytes: vec![3], pos: 0 };
    assert_eq!(i8::rand_in(&mut rng, -5..5), Some(-2));
    let mut rng = ByteScript { bytes: vec![7], pos: 0 };
    assert_eq!(i8::rand_in(&mut rng, -5..5), Some(2));
}

#[test]
fn element_selection_returns_position_of_draw() {
    // the source returns the 64-bit word 3; over a 5-element sequence the
    // drawn index is 3
    let mut rng = ByteScript { bytes: vec![3, 0, 0, 0, 0, 0, 0, 0], pos: 0 };
    let v = [10u32, 11, 12, 13, 14];
    let picked = v.get_rand(&mut rng);
    assert_eq!(picked, Some(&13));
}

#[test]
fn checked_selection_on_empty_returns_none() {
    let mut rng = SplitMix { state: 3 };
    let empty_nums: [u64; 0] = [];
    assert_eq!(empty_nums.get_rand(&mut rng), None);
    assert_eq!(empty_nums.try_get_rand(&mut rng).unwrap(), None);
    let mut empty_strings: Vec<String> = Vec::new();
    assert!(empty_strings.as_mut_slice().get_rand_mut(&mut rng).is_none());
    assert!(empty_strings.as_mut_slice().try_get_rand_mut(&mut rng).unwrap().is_none());
}

#[test]
fn checked_selection_returns_existing_element() {
    let mut rng = SplitMix { state: 99 };
    let v = vec![2u32, 3, 5, 7, 11];
    for _ in 0..1_000 {
        let x = *v.as_slice().get_rand(&mut rng).unwrap();
        assert!(v.contains(&x));
    }
    let mut w = vec![String::from("a"), String::from("b")];
    for _ in 0..100 {
        let picked = w.as_mut_slice().get_rand_mut(&mut rng).unwrap();
        assert!(*picked == "a" || *picked == "b");
    }
}

#[test]
fn mutable_selection_writes_back() {
    // the source drives the draw to index 1; writing through the returned
    // reference must land at that position
    let mut rng = ByteScript { bytes: vec![1, 0, 0, 0, 0, 0, 0, 0], pos: 0 };
    let mut v = [5u32, 6, 7];
    {
        let m = v.get_rand_mut(&mut rng).unwrap();
        assert_eq!(*m, 6);
        *m = 60;
    }
    assert_eq!(v, [5, 60, 7]);
}

#[test]
fn unchecked_selection_matches_checked() {
    let mut a = ByteScript { bytes: vec![2, 0, 0, 0, 0, 0, 0, 0], pos: 0 };
    let mut b = ByteScript { bytes: vec![2, 0, 0, 0, 0, 0, 0, 0], pos: 0 };
    let v = [1u8, 2, 3, 4];
    assert_eq!(v.get_rand(&mut a).unwrap(), v.get_rand_unchecked(&mut b));
    let mut c = ByteScript { bytes: vec![2, 0, 0, 0, 0, 0, 0, 0], pos: 0 };
    assert_eq!(v.try_get_rand_unchecked(&mut c).unwrap(), &3);
}

/// A generator that fails after a budget of bytes, with a unit error.
struct Budget {
    left: usize,
}

impl chance::TryRng for Budget {
    type Error = &'static str;

    fn try_fill_bytes(&mut self, buf: &mut [u8]) -> Result<(), Self::Error> {
        if buf.len() > self.left {
            return Err("source exhausted");
        }
        self.left -= buf.len();
        for (k, b) in buf.iter_mut().enumerate() {
            *b = k as u8;
        }
        Ok(())
    }
}

#[test]
fn source_failure_propagates_through_selection() {
    let mut rng = Budget { left: 0 };
    assert_eq!(u32::try_rand_in(&mut rng, 1..9), Err("source exhausted"));
    let v = [4u8, 5, 6];
    assert_eq!(v.try_get_rand(&mut rng), Err("source exhausted"));
    let mut rng = Budget { left: 8 };
    assert!(u32::try_rand_in(&mut rng, 1..9).unwrap().is_some());
}

/// A generator that fails on every call.
struct Dead;

impl chance::TryRng for Dead {
    type Error = ();

    fn try_fill_bytes(&mut self, _buf: &mut [u8]) -> Result<(), Self::Error> {
        Err(())
    }
}

#[test]
fn empty_pools_succeed_even_on_a_dead_source() {
    let mut rng = Dead;
    assert_eq!(u8::try_rand_in(&mut rng, 5..5), Ok(None));
    assert_eq!(i64::try_rand_in(&mut rng, 3..-3), Ok(None));
    let nothing: [u32; 0] = [];
    assert_eq!(nothing.try_get_rand(&mut rng), Ok(None));
    let mut nothing_mut: [String; 0] = [];
    assert!(nothing_mut.try_get_rand_mut(&mut rng).unwrap().is_none());
}

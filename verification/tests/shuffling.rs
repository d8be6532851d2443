use chance::{Rng, Shuffle};

/// Emits a scripted stream of 64-bit words.
struct WordScript {
    words: Vec<u64>,
    pos: usize,
    u64_draws: usize,
}

impl Rng for WordScript {
    fn fill_bytes(&mut self, buf: &mut [u8]) {
        chance::fill_bytes_via_next(self, buf);
    }

    fn next_u32(&mut self) -> u32 {
        self.next_u64() as u32
    }

    fn next_u64(&mut self) -> u64 {
        self.u64_draws += 1;
        let w = self.words[self.pos];
        self.pos += 1;
        w
    }
}

/// A split-mix generator for unscripted shuffles.
struct Mix {
    state: u64,
}

impl Rng for Mix {
    fn fill_bytes(&mut self, buf: &mut [u8]) {
        chance::fill_bytes_via_next(self, buf);
    }

    fn next_u32(&mut self) -> u32 {
        self.next_u64() as u32
    }

    fn next_u64(&mut self) -> u64 {
        self.state = self.state.wrapping_add(0x9e3779b97f4a7c15);
        let mut z = self.state;
        z = (z ^ (z >> 30)).wrapping_mul(0xbf58476d1ce4e5b9);
        z = (z ^ (z >> 27)).wrapping_mul(0x94d049bb133111eb);
        z ^ (z >> 31)
    }
}

#[test]
fn shuffle_keeps_the_multiset() {
    let mut rng = Mix { state: 2024 };
    let original = vec![3u32, 1, 4, 1, 5, 9, 2, 6, 5, 3, 5];
    for _ in 0..50 {
        let mut v = original.clone();
        v.as_mut_slice().shuffle(&mut rng);
        let mut sorted = v.clone();
        sorted.sort();
        let mut expected = original.clone();
        expected.sort();
        assert_eq!(sorted, expected);
    }
}

#[test]
fn try_shuffle_keeps_the_multiset() {
    let mut rng = Mix { state: 77 };
    let original = vec![String::from("a"), String::from("b"), String::from("a")];
    let mut v = original.clone();
    let r: Result<(), chance::Never> = v.as_mut_slice().try_shuffle(&mut rng);
    assert!(r.is_ok());
    let mut sorted = v.clone();
    sorted.sort();
    assert_eq!(sorted, vec![String::from("a"), String::from("a"), String::from("b")]);
}

#[test]
fn one_element_shuffle_draws_once_and_changes_nothing() {
    let mut rng = WordScript { words: vec![0, 0, 0, 0], pos: 0, u64_draws: 0 };
    let mut v = [41u8];
    v.shuffle(&mut rng);
    assert_eq!(v, [41]);
    assert_eq!(rng.u64_draws, 1);
}

#[test]
fn scripted_shuffle_performs_the_scripted_swaps() {
    // two elements, draws 1 then 1: position 0 swaps with 1, position 1
    // swaps with itself
    let mut rng = WordScript { words: vec![1, 1], pos: 0, u64_draws: 0 };
    let mut v = ["x", "y"];
    v.shuffle(&mut rng);
    assert_eq!(v, ["y", "x"]);
}

/// A generator that fails after a number of word draws.
struct FailsAfter {
    draws_left: usize,
}

impl chance::TryRng for FailsAfter {
    type Error = u8;

    fn try_fill_bytes(&mut self, buf: &mut [u8]) -> Result<(), Self::Error> {
        if self.draws_left == 0 {
            return Err(9);
        }
        self.draws_left -= 1;
        for b in buf.iter_mut() {
            *b = 0;
        }
        Ok(())
    }
}

#[test]
fn failed_shuffle_reports_the_error_and_keeps_the_multiset() {
    let mut rng = FailsAfter { draws_left: 2 };
    let mut v = [10u8, 20, 30, 40];
    let r = v.try_shuffle(&mut rng);
    assert_eq!(r, Err(9));
    let mut sorted = v;
    sorted.sort();
    assert_eq!(sorted, [10, 20, 30, 40]);
}

/// A generator that fails on every call.
struct Husk;

impl chance::TryRng for Husk {
    type Error = i32;

    fn try_fill_bytes(&mut self, _buf: &mut [u8]) -> Result<(), Self::Error> {
        Err(-1)
    }
}

#[test]
fn empty_shuffle_succeeds_even_on_a_dead_source() {
    let mut rng = Husk;
    let mut nothing: [u8; 0] = [];
    assert_eq!(nothing.try_shuffle(&mut rng), Ok(()));
}

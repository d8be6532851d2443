use chance::{fill_bytes_via_next, try_fill_bytes_via_next, Rand, Rng};

/// Emits a scripted stream of 64-bit words; a 32-bit draw consumes one word
/// and keeps its low half.
struct ScriptRng {
    words: Vec<u64>,
    pos: usize,
    u64_draws: usize,
    u32_draws: usize,
}

impl ScriptRng {
    fn new(words: Vec<u64>) -> Self {
        ScriptRng { words, pos: 0, u64_draws: 0, u32_draws: 0 }
    }
}

impl Rng for ScriptRng {
    fn fill_bytes(&mut self, buf: &mut [u8]) {
        fill_bytes_via_next(self, buf);
    }

    fn next_u32(&mut self) -> u32 {
        self.u32_draws += 1;
        let w = self.words[self.pos];
        self.pos += 1;
        w as u32
    }

    fn next_u64(&mut self) -> u64 {
        self.u64_draws += 1;
        let w = self.words[self.pos];
        self.pos += 1;
        w
    }
}

/// The little-endian decomposition the byte-fill bridge must produce for a
/// buffer of length `l` from the given word stream.
fn expected_fill(words: &[u64], l: usize) -> Vec<u8> {
    let mut out: Vec<u8> = Vec::new();
    let mut k = 0;
    while out.len() + 8 <= l {
        out.extend_from_slice(&words[k].to_le_bytes());
        k += 1;
    }
    let rem = l - out.len();
    if rem > 4 {
        out.extend_from_slice(&words[k].to_le_bytes()[..rem]);
    } else if rem > 0 {
        out.extend_from_slice(&(words[k] as u32).to_le_bytes()[..rem]);
    }
    out
}

#[test]
fn bridge_all_lengths_match_le_decomposition() {
    let words: Vec<u64> = (0..8).map(|k| 0x1111_1111_1111_1111u64.wrapping_mul(k + 2)).collect();
    for l in 0..=24usize {
        let mut rng = ScriptRng::new(words.clone());
        let mut buf = vec![0u8; l];
        let r = try_fill_bytes_via_next(&mut rng, &mut buf);
        assert!(r.is_ok());
        assert_eq!(buf.len(), l);
        assert_eq!(buf, expected_fill(&words, l), "length {}", l);
    }
}

#[test]
fn bridge_ten_bytes_from_fixed_word() {
    let mut rng = ScriptRng::new(vec![0x0102030405060708; 4]);
    let mut buf = [0u8; 10];
    let r = try_fill_bytes_via_next(&mut rng, &mut buf);
    assert!(r.is_ok());
    assert_eq!(buf, [0x08, 0x07, 0x06, 0x05, 0x04, 0x03, 0x02, 0x01, 0x08, 0x07]);
}

#[test]
fn bridge_word_budget_per_length() {
    // whole words, then one extra 64-bit word for a 5..7 remainder and one
    // 32-bit word for a 1..4 remainder
    for (l, d64, d32) in [(0usize, 0, 0), (3, 0, 1), (4, 0, 1), (5, 1, 0), (8, 1, 0), (12, 1, 1), (15, 2, 0), (16, 2, 0)] {
        let mut rng = ScriptRng::new(vec![7; 8]);
        let mut buf = vec![0u8; l];
        try_fill_bytes_via_next(&mut rng, &mut buf).unwrap();
        assert_eq!((rng.u64_draws, rng.u32_draws), (d64, d32), "length {}", l);
    }
}

#[test]
fn infallible_fill_equals_fallible_fill() {
    let words = vec![0xdead_beef_0bad_f00d, 0x0123_4567_89ab_cdef, 0xfedc_ba98_7654_3210];
    let mut a = ScriptRng::new(words.clone());
    let mut b = ScriptRng::new(words);
    let mut buf_a = [0u8; 13];
    let mut buf_b = [0u8; 13];
    fill_bytes_via_next(&mut a, &mut buf_a);
    try_fill_bytes_via_next(&mut b, &mut buf_b).unwrap();
    assert_eq!(buf_a, buf_b);
}

/// Emits a fixed byte pattern directly from `fill_bytes`, the shape of a
/// source that fills buffers natively.
struct ByteRng {
    next: u8,
}

impl Rng for ByteRng {
    fn fill_bytes(&mut self, buf: &mut [u8]) {
        for b in buf.iter_mut() {
            *b = self.next;
            self.next = self.next.wrapping_add(1);
        }
    }
}

#[test]
fn typed_generation_reads_little_endian() {
    let mut rng = ByteRng { next: 1 };
    assert_eq!(u8::rand(&mut rng), 0x01);
    let mut rng = ByteRng { next: 1 };
    assert_eq!(u16::rand(&mut rng), 0x0201);
    let mut rng = ByteRng { next: 1 };
    assert_eq!(u32::rand(&mut rng), 0x04030201);
    let mut rng = ByteRng { next: 1 };
    assert_eq!(u64::rand(&mut rng), 0x0807060504030201);
    let mut rng = ByteRng { next: 1 };
    assert_eq!(u128::rand(&mut rng), 0x100f0e0d0c0b0a090807060504030201);
    let mut rng = ByteRng { next: 1 };
    assert_eq!(usize::rand(&mut rng), 0x0807060504030201u64 as usize);
}

#[test]
fn typed_generation_try_matches_plain() {
    let mut a = ByteRng { next: 9 };
    let mut b = ByteRng { next: 9 };
    let va = u64::rand(&mut a);
    let vb: Result<u64, chance::Never> = u64::try_rand(&mut b);
    assert_eq!(vb.unwrap(), va);
}

#[test]
fn read_rand_replaces_in_place() {
    let mut rng = ByteRng { next: 1 };
    let mut v: u32 = 0;
    v.read_rand(&mut rng);
    assert_eq!(v, 0x04030201);
    let mut w: u16 = 7;
    assert!(w.try_read_rand(&mut rng).is_ok());
    assert_eq!(w, 0x0605);
}

/// Counts fill calls and fails after a word budget, emitting counting words.
struct DryingRng {
    words_left: usize,
    next_word: u64,
    calls: usize,
}

impl chance::TryRng for DryingRng {
    type Error = ();

    fn try_fill_bytes(&mut self, buf: &mut [u8]) -> Result<(), Self::Error> {
        self.calls += 1;
        if self.words_left == 0 {
            return Err(());
        }
        self.words_left -= 1;
        let bytes = self.next_word.to_le_bytes();
        self.next_word += 1;
        for (k, b) in buf.iter_mut().enumerate() {
            *b = bytes[k % 8];
        }
        Ok(())
    }
}

#[test]
fn failed_fill_keeps_drawn_words_and_untouched_tail() {
    // two words are drawn before the failure: the first sixteen bytes hold
    // them, the rest of the buffer is untouched
    let mut rng = DryingRng { words_left: 2, next_word: 0x1111111111111111, calls: 0 };
    let mut buf = [0xEEu8; 20];
    let r = try_fill_bytes_via_next(&mut rng, &mut buf);
    assert!(r.is_err());
    assert_eq!(&buf[..8], &0x1111111111111111u64.to_le_bytes());
    assert_eq!(&buf[8..16], &0x1111111111111112u64.to_le_bytes());
    assert_eq!(&buf[16..], [0xEE; 4]);
}

#[test]
fn empty_fill_succeeds_without_a_draw() {
    let mut rng = DryingRng { words_left: 0, next_word: 0, calls: 0 };
    let mut buf = [0u8; 0];
    let r = try_fill_bytes_via_next(&mut rng, &mut buf);
    assert!(r.is_ok());
    assert_eq!(rng.calls, 0);
}

use chance::{Never, PanickingRng, ReadRng, Rng, TryRng};
use std::io::Cursor;

#[test]
fn read_rng_hands_out_the_stream_bytes() {
    let mut rng = ReadRng(Cursor::new(vec![9u8, 8, 7, 6, 5]));
    let mut buf = [0u8; 4];
    assert!(rng.try_fill_bytes(&mut buf).is_ok());
    assert_eq!(buf, [9, 8, 7, 6]);
}

#[test]
fn read_rng_reports_a_short_stream() {
    let mut rng = ReadRng(Cursor::new(vec![1u8, 2]));
    let mut buf = [0u8; 4];
    assert!(rng.try_fill_bytes(&mut buf).is_err());
}

/// A fallible generator that counts down and then fails.
struct Flaky {
    ok_calls: usize,
}

impl TryRng for Flaky {
    type Error = String;

    fn try_fill_bytes(&mut self, buf: &mut [u8]) -> Result<(), Self::Error> {
        if self.ok_calls == 0 {
            return Err(String::from("drained"));
        }
        self.ok_calls -= 1;
        for (k, b) in buf.iter_mut().enumerate() {
            *b = 2 * k as u8;
        }
        Ok(())
    }
}

#[test]
fn panicking_adapter_passes_successes_through() {
    let mut adapter = PanickingRng(Flaky { ok_calls: 10 });
    let mut buf = [0u8; 3];
    adapter.fill_bytes(&mut buf);
    assert_eq!(buf, [0, 2, 4]);
    assert_eq!(adapter.next_u16(), 0x0200);
}

#[test]
fn into_panicking_wraps_the_source() {
    let adapter = Flaky { ok_calls: 5 }.into_panicking();
    let mut adapter = adapter;
    assert_eq!(adapter.next_u8(), 0);
}

/// A source that implements only the infallible capability.
struct Steady {
    v: u8,
}

impl Rng for Steady {
    fn fill_bytes(&mut self, buf: &mut [u8]) {
        for b in buf.iter_mut() {
            *b = self.v;
        }
    }
}

#[test]
fn infallible_source_never_fails_through_the_fallible_tier() {
    let mut rng = Steady { v: 0xab };
    let mut buf = [0u8; 7];
    for _ in 0..100 {
        let r: Result<(), Never> = rng.try_fill_bytes(&mut buf);
        assert!(r.is_ok());
        let w: Result<u64, Never> = rng.try_next_u64();
        assert_eq!(w.unwrap(), 0xabababab_abababab);
        let b: Result<u8, Never> = rng.try_next_u8();
        assert_eq!(b.unwrap(), 0xab);
    }
    assert_eq!(buf, [0xab; 7]);
}

#[test]
fn every_width_wraps_its_infallible_call() {
    let mut rng = Steady { v: 0x11 };
    assert_eq!(rng.try_next_u16().unwrap(), 0x1111);
    assert_eq!(rng.try_next_u32().unwrap(), 0x11111111);
    assert_eq!(rng.try_next_u128().unwrap(), 0x11111111_11111111_11111111_11111111);
}

use yscale::config::FormatCfg;
use yscale::output::{Converter, SampleFormat};
use yscale::rng::Rng;

fn reference_step(x: u64) -> u64 {
    let mut x = x;
    x ^= x >> 12;
    x ^= x << 25;
    x ^= x >> 27;
    x
}

#[test]
fn rng_matches_xorshift64_star() {
    let mut r = Rng::new(0x1234_5678_9abc_def1);
    let mut s: u64 = 0x1234_5678_9abc_def1 | 1;
    for _ in 0..1000 {
        s = reference_step(s);
        assert_eq!(r.next_u64(), s.wrapping_mul(0x2545_F491_4F6C_DD1D));
    }
}

#[test]
fn rng_zero_seed_is_forced_odd() {
    let mut a = Rng::new(0);
    let mut b = Rng::new(1);
    for _ in 0..100 {
        assert_eq!(a.next_u64(), b.next_u64());
    }
}

#[test]
fn rng_never_yields_zero_from_zero_seed() {
    let mut r = Rng::new(0);
    for _ in 0..10_000 {
        assert_ne!(r.next_u64(), 0);
    }
}

#[test]
fn rng_u53_is_top_bits() {
    let mut a = Rng::new(42);
    let mut b = Rng::new(42);
    for _ in 0..1000 {
        let full = a.next_u64();
        let top = b.next_u53();
        assert_eq!(top, full >> 11);
        assert!(top < (1u64 << 53));
    }
}

#[test]
fn format_bits() {
    assert_eq!(SampleFormat::S16Le.bits(), 16);
    assert_eq!(SampleFormat::S32Le.bits(), 32);
}

#[test]
fn converter_dithers_only_below_32_bits() {
    assert!(!Converter::new(SampleFormat::S32Le, true).dithers());
    assert!(!Converter::new(SampleFormat::S16Le, false).dithers());
    assert!(Converter::new(SampleFormat::S16Le, true).dithers());
}

#[test]
fn converter_dither_draws() {
    let mut off = Converter::new(SampleFormat::S32Le, true);
    assert_eq!(off.dither_draws(), None);
    let mut on = Converter::new(SampleFormat::S16Le, true);
    let mut rng = Rng::new(0x9E37_79B9_7F4A_7C15);
    for _ in 0..10 {
        let (a, b) = on.dither_draws().unwrap();
        assert_eq!(a, rng.next_u53());
        assert_eq!(b, rng.next_u53());
    }
}

#[test]
fn format_from_config() {
    assert_eq!(SampleFormat::from(FormatCfg::S16Le), SampleFormat::S16Le);
    assert_eq!(SampleFormat::from(FormatCfg::S32Le), SampleFormat::S32Le);
}

#[test]
fn rng_stream_depends_on_seed_with_low_bit_set() {
    for seed in [0u64, 1, 2, 3, 0xFFFF_FFFF_FFFF_FFFE, 0x1234_5678_9abc_def0] {
        let mut a = Rng::new(seed);
        let mut b = Rng::new(seed | 1);
        for _ in 0..1000 {
            let x = a.next_u64();
            assert_eq!(x, b.next_u64());
            assert_ne!(x, 0);
        }
    }
}

use yscale::engine::{
    accepts_pipeline, accepts_source, check_source, classify_fill, full_snapshot_tick, live_pad_from, BlockFill,
    EngineError,
};
use yscale::source::{def_loopback, pad_tail, Impulse, Silence, WavFile};

#[test]
fn impulse_hits_once() {
    let mut s = Impulse::new(48_000, 1, 1.0, None);
    let mut buf = vec![0.0; 16];
    s.fill(&mut buf, 16, 0.0);
    assert_eq!(buf[0], 1.0);
    assert!(buf[1..].iter().all(|&v| v == 0.0));
}

#[test]
fn impulse_repeats_with_period() {
    let mut s = Impulse::new(48_000, 2, 0.5, Some(3));
    let mut buf = vec![9.0; 14];
    assert_eq!(s.fill(&mut buf, 4, 0.0), 4);
    assert_eq!(buf, vec![0.5, 0.5, 0.0, 0.0, 0.0, 0.0, 0.5, 0.5, 9.0, 9.0, 9.0, 9.0, 9.0, 9.0]);
    let mut next = vec![9.0; 4];
    s.fill(&mut next, 2, 0.0);
    assert_eq!(next, vec![0.0, 0.0, 0.0, 0.0]);
    assert_eq!((s.sample_rate(), s.channels()), (48_000, 2));
}

#[test]
fn silence_fills_zeros() {
    let s = Silence::new(44_100, 2);
    let mut buf = vec![1.0; 6];
    assert_eq!(s.fill(&mut buf, 2, 0.0), 2);
    assert_eq!(buf, vec![0.0, 0.0, 0.0, 0.0, 1.0, 1.0]);
    assert_eq!((s.sample_rate(), s.channels()), (44_100, 2));
}

#[test]
fn wav_mono_feeds_all_channels() {
    let mut w = WavFile::new(48_000, 2, 1, vec![0.1, 0.2, 0.3], false);
    let mut buf = vec![0.0; 8];
    assert_eq!(w.fill(&mut buf, 4, 0.0), 3);
    assert_eq!(&buf[..6], &[0.1, 0.1, 0.2, 0.2, 0.3, 0.3]);
    assert_eq!(w.fill(&mut buf, 4, 0.0), 0);
}

#[test]
fn wav_maps_channels_and_zero_fills() {
    let mut w = WavFile::new(48_000, 3, 2, vec![1, 2, 3, 4], false);
    let mut buf = vec![7; 6];
    assert_eq!(w.fill(&mut buf, 2, 0), 2);
    assert_eq!(buf, vec![1, 2, 0, 3, 4, 0]);
}

#[test]
fn wav_loops() {
    let mut w = WavFile::new(48_000, 1, 1, vec![1, 2, 3], true);
    let mut buf = vec![0; 7];
    assert_eq!(w.fill(&mut buf, 7, 0), 7);
    assert_eq!(buf, vec![1, 2, 3, 1, 2, 3, 1]);
    let mut empty = WavFile::new(48_000, 1, 1, Vec::<i32>::new(), true);
    assert_eq!(empty.fill(&mut buf, 3, 0), 0);
}

#[test]
fn short_block_is_padded() {
    let mut buf = vec![1, 1, 1, 1, 1, 1];
    pad_tail(&mut buf, 1, 2, 0);
    assert_eq!(buf, vec![1, 1, 0, 0, 0, 0]);
    assert_eq!(classify_fill(0, 64), BlockFill::Ended);
    assert_eq!(classify_fill(10, 64), BlockFill::Short { got: 10 });
    assert_eq!(classify_fill(64, 64), BlockFill::Full);
}

#[test]
fn source_checks() {
    assert_eq!(check_source(2, 48_000, 2, 48_000), Ok(()));
    assert_eq!(
        check_source(1, 44_100, 2, 48_000),
        Err(EngineError::Channels { source: 1, expected: 2 })
    );
    assert_eq!(
        check_source(2, 44_100, 2, 48_000),
        Err(EngineError::SampleRate { source_rate: 44_100, config_rate: 48_000 })
    );
    assert!(accepts_pipeline(2, 3, 2, 3));
    assert!(!accepts_pipeline(2, 3, 2, 2));
    assert!(accepts_source(2, 2));
    assert!(!accepts_source(2, 1));
    assert!(full_snapshot_tick(12));
    assert!(!full_snapshot_tick(13));
    assert_eq!(def_loopback(), "plughw:Loopback,1,0");
}

#[test]
fn live_loop_pads_and_never_ends() {
    assert_eq!(live_pad_from(0, 64), 0);
    assert_eq!(live_pad_from(10, 64), 10);
    assert_eq!(live_pad_from(64, 64), 64);
    assert_eq!(live_pad_from(100, 64), 64);
}

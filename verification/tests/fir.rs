use yscale::fir::{
    any_filled, assign_channels, first_channel, limit_taps, read_channel, splice_segment,
    write_channel, FirLayout, MAX_TAPS,
};

#[test]
fn layout_sizes() {
    let l = FirLayout::plan(37, 64);
    assert_eq!(l.block, 64);
    assert_eq!(l.taps, 37);
    assert_eq!(l.fft_len, 128);
    assert_eq!(l.overlap, 64);
    let e = FirLayout::plan(0, 0);
    assert_eq!((e.block, e.taps, e.fft_len, e.overlap), (1, 1, 1, 0));
    let d = FirLayout::plan(3, 4);
    assert_eq!((d.fft_len, d.overlap), (8, 4));
}

#[test]
fn bank_slots_follow_channels() {
    let slots = assign_channels(vec![Some(1), None, Some(3), Some(4)], 3);
    assert_eq!(slots, vec![Some(1), None, Some(3)]);
    let grown = assign_channels(vec![Some(7)], 3);
    assert_eq!(grown, vec![Some(7), None, None]);
    assert!(any_filled(&grown));
    assert!(!any_filled(&assign_channels::<u8>(Vec::new(), 2)));
}

#[test]
fn channel_read_write_round_trip() {
    let mut buf = vec![1.0, 10.0, 2.0, 20.0, 3.0, 30.0, 4.0, 40.0];
    let mut col = vec![0.0; 4];
    read_channel(&buf, 4, 2, 0, &mut col);
    assert_eq!(col, vec![1.0, 2.0, 3.0, 4.0]);
    let shifted = vec![0.0, 0.0, 1.0, 2.0];
    write_channel(&mut buf, 4, 2, 0, &shifted);
    assert_eq!(buf, vec![0.0, 10.0, 0.0, 20.0, 1.0, 30.0, 2.0, 40.0]);
}

#[test]
fn first_channel_deinterleaves() {
    assert_eq!(first_channel(&vec![1, 2, 3, 4, 5], 2), vec![1, 3, 5]);
    assert_eq!(first_channel(&vec![1, 2, 3], 0), vec![1, 2, 3]);
    assert_eq!(first_channel(&Vec::<u8>::new(), 3), Vec::<u8>::new());
    assert_eq!(first_channel(&vec![9, 8, 7, 6], 4), vec![9]);
}

#[test]
fn taps_are_limited() {
    let mut empty: Vec<f64> = Vec::new();
    assert_eq!(limit_taps(&mut empty), None);
    let mut some = vec![0.5; 10];
    assert_eq!(limit_taps(&mut some), Some(10));
    let mut long = vec![0.25; MAX_TAPS + 5];
    assert_eq!(limit_taps(&mut long), Some(MAX_TAPS));
    assert_eq!(long.len(), 16384);
}

#[test]
fn overlap_segment_shuffle() {
    let mut overlap = vec![0, 0, 1];
    let seg = splice_segment(&mut overlap, &vec![2, 3, 4, 5]);
    assert_eq!(seg, vec![0, 0, 1, 2, 3, 4, 5]);
    assert_eq!(overlap, vec![3, 4, 5]);
}

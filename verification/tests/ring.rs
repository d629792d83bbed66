use yscale::ring::{DelayLine, LookAhead};

#[test]
fn delay_line_capacity_is_power_of_two() {
    // room for 64 samples of delay plus 8 of headroom
    assert_eq!(DelayLine::new(72, 0.0f64).capacity(), 128);
    assert_eq!(DelayLine::new(0, 0.0f64).capacity(), 8);
    assert_eq!(DelayLine::new(8, 0.0f64).capacity(), 8);
    assert_eq!(DelayLine::new(9, 0.0f64).capacity(), 16);
}

#[test]
fn delay_line_integer_delay_is_exact() {
    let mut d = DelayLine::new(72, 0.0f64);
    for n in 0..32 {
        let x = if n == 0 { 1.0 } else { 0.0 };
        d.push(x);
        // the impulse is read back exactly n pushes later
        assert_eq!(d.tap(n), 1.0);
        if n > 0 {
            assert_eq!(d.tap(n - 1), 0.0);
        }
    }
}

#[test]
fn delay_line_reads_history() {
    let mut d = DelayLine::new(8, 0i32);
    for x in 1..=20 {
        d.push(x);
    }
    for back in 0..8 {
        assert_eq!(d.tap(back), 20 - back as i32);
    }
    d.clear(0);
    for back in 0..8 {
        assert_eq!(d.tap(back), 0);
    }
}

#[test]
fn look_ahead_delays_frames() {
    let mut la = LookAhead::new(2, 3, 0.0f64);
    assert_eq!(la.frames(), 3);
    assert_eq!(la.channels(), 2);
    assert_eq!(la.latency(true), 3);
    assert_eq!(la.latency(false), 0);
    let mut outputs = Vec::new();
    for f in 0..8 {
        let mut frame = vec![f as f64, -(f as f64)];
        la.exchange(&mut frame);
        outputs.push(frame);
    }
    for f in 0..3 {
        assert_eq!(outputs[f], vec![0.0, 0.0]);
    }
    for f in 3..8 {
        assert_eq!(outputs[f], vec![(f - 3) as f64, -((f - 3) as f64)]);
    }
}

#[test]
fn look_ahead_minimums() {
    let la = LookAhead::new(0, 0, 0u8);
    assert_eq!(la.frames(), 1);
    assert_eq!(la.channels(), 1);
}

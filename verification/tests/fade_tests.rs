use loopwav::fade::apply_fade_in_fade_out;

#[test]
fn fade_in_scales_prefix() {
    // Mono, 6 frames, fade of 2: frame 0 -> factor 0/2, frame 1 -> 1/2;
    // fade-out: frame 4 -> factor 2/2 (unchanged), frame 5 -> 1/2.
    let mut data: Vec<i16> = vec![10000, 10000, 10000, 10000, 10000, 10000];
    apply_fade_in_fade_out(&mut data, 1, 2);
    assert_eq!(data, vec![0, 5000, 10000, 10000, 10000, 5000]);
}

#[test]
fn fade_rounds_ties_away_from_zero() {
    // 5 * 1/2 = 2.5 rounds to 3, not 2.
    let mut data: Vec<i16> = vec![5, 5, 5];
    apply_fade_in_fade_out(&mut data, 1, 2);
    // fade-in: frame 0 -> 0, frame 1 -> round(2.5) = 3;
    // fade-out: frame 1 -> factor 2/2, frame 2 -> round(2.5) = 3.
    assert_eq!(data, vec![0, 3, 3]);
}

#[test]
fn fade_rounds_negative_ties_away_from_zero() {
    let mut data: Vec<i16> = vec![-5, -5, -5];
    apply_fade_in_fade_out(&mut data, 1, 2);
    assert_eq!(data, vec![0, -3, -3]);
}

#[test]
fn fade_first_frame_is_silent_on_every_channel() {
    let mut data: Vec<i16> = vec![9000, -9000, 8000, -8000, 7000, -7000, 6000, -6000];
    apply_fade_in_fade_out(&mut data, 2, 2);
    assert_eq!(data[0], 0);
    assert_eq!(data[1], 0);
}

#[test]
fn fade_longer_than_buffer_is_clamped() {
    // 2 frames, fade of 10: clamped to 2, both passes applied in turn.
    let mut data: Vec<i16> = vec![1000, 1000];
    apply_fade_in_fade_out(&mut data, 1, 10);
    // fade-in: [0, 500]; fade-out: frame 0 -> factor 2/2, frame 1 -> 1/2.
    assert_eq!(data, vec![0, 250]);
}

#[test]
fn fade_empty_buffer_is_untouched() {
    let mut data: Vec<i16> = Vec::new();
    apply_fade_in_fade_out(&mut data, 1, 5);
    assert!(data.is_empty());
}

#[test]
fn fade_zero_length_is_untouched() {
    let mut data: Vec<i16> = vec![123, -456, 789, -12];
    apply_fade_in_fade_out(&mut data, 2, 0);
    assert_eq!(data, vec![123, -456, 789, -12]);
}

#[test]
fn fade_twice_is_not_idempotent() {
    // A second pass re-scales already-scaled samples; the asymmetry is
    // expected, not a defect.
    let mut once: Vec<i16> = vec![10000, 10000, 10000, 10000];
    apply_fade_in_fade_out(&mut once, 1, 2);
    assert_eq!(once, vec![0, 5000, 10000, 5000]);
    let mut twice: Vec<i16> = once.clone();
    apply_fade_in_fade_out(&mut twice, 1, 2);
    assert_eq!(twice, vec![0, 2500, 10000, 2500]);
    assert_ne!(once, twice);
}

#[test]
fn fade_out_last_frame_keeps_residual_signal() {
    // The last frame's factor is 1/fade, not 0: no exact silence there
    // for a large enough sample.
    let mut data: Vec<i16> = vec![10000, 10000, 10000, 10000];
    apply_fade_in_fade_out(&mut data, 1, 2);
    assert_eq!(data[3], 5000);
    assert_ne!(data[3], 0);
}

#[test]
fn fade_of_one_frame_leaves_last_frame_unscaled() {
    // With a one-frame fade the fade-out factor on the last frame is
    // 1/1: the identity.
    let mut data: Vec<i16> = vec![10000, 10000, 10000, 10000];
    apply_fade_in_fade_out(&mut data, 1, 1);
    assert_eq!(data, vec![0, 10000, 10000, 10000]);
}

use loopwav::decode::PcmStream;
use loopwav::pipeline::process_decoded;
use loopwav::pipeline::PipelineError;
use loopwav::pipeline::FADE_SECONDS;
use loopwav::pipeline::LOOP_SECONDS;

fn stream_with(samples: Vec<i16>, sample_rate: i32, channels: usize) -> PcmStream {
    let mut stream = PcmStream::new();
    stream
        .accumulate_frame(samples, sample_rate, channels)
        .unwrap();
    stream
}

#[test]
fn accumulate_fixes_format_from_first_frame() {
    let mut stream = PcmStream::new();
    assert_eq!(stream.accumulate_frame(vec![1, 2, 3, 4], 44100, 2), Ok(()));
    assert_eq!(stream.sample_rate, 44100);
    assert_eq!(stream.channels, 2);
    assert_eq!(stream.accumulate_frame(vec![5, 6], 44100, 2), Ok(()));
    assert_eq!(stream.samples, vec![1, 2, 3, 4, 5, 6]);
}

#[test]
fn accumulate_rejects_format_change() {
    let mut stream = stream_with(vec![1, 2], 44100, 2);
    assert_eq!(
        stream.accumulate_frame(vec![3, 4], 48000, 2),
        Err(PipelineError::FormatChanged)
    );
    assert_eq!(
        stream.accumulate_frame(vec![3], 44100, 1),
        Err(PipelineError::FormatChanged)
    );
    // The stream is untouched by a rejected frame.
    assert_eq!(stream.samples, vec![1, 2]);
}

#[test]
fn accumulate_rejects_unusable_frames() {
    let mut stream = PcmStream::new();
    assert_eq!(
        stream.accumulate_frame(vec![1, 2], 0, 2),
        Err(PipelineError::InvalidFormat)
    );
    assert_eq!(
        stream.accumulate_frame(vec![1, 2], -44100, 2),
        Err(PipelineError::InvalidFormat)
    );
    assert_eq!(
        stream.accumulate_frame(vec![1, 2], 44100, 0),
        Err(PipelineError::InvalidFormat)
    );
    assert_eq!(
        stream.accumulate_frame(vec![1, 2, 3], 44100, 2),
        Err(PipelineError::InvalidFormat)
    );
    assert_eq!(stream.sample_rate, 0);
    assert!(stream.samples.is_empty());
}

#[test]
fn process_empty_stream_is_an_error() {
    let stream = PcmStream::new();
    assert!(matches!(
        process_decoded(stream, LOOP_SECONDS, FADE_SECONDS),
        Err(PipelineError::EmptyAudio)
    ));
}

#[test]
fn process_oversized_target_is_an_error() {
    // 4294967295 s * 2147483647 Hz * 3 channels does not fit in a
    // sample count this machine can address.
    let stream = stream_with(vec![0, 0, 0], i32::MAX, 3);
    assert!(matches!(
        process_decoded(stream, u32::MAX, FADE_SECONDS),
        Err(PipelineError::TargetTooLarge)
    ));
}

#[test]
fn process_zero_duration_yields_empty_output() {
    let stream = stream_with(vec![100, 200], 8000, 1);
    let out = process_decoded(stream, 0, FADE_SECONDS).unwrap();
    assert!(out.samples.is_empty());
    assert_eq!(out.sample_rate, 8000);
    assert_eq!(out.channels, 1);
}

#[test]
fn process_small_stream_loops_faded_buffer() {
    // 4 frames at 2 Hz mono, 3 s loop, 1 s fade: fade covers 2 frames
    // at each end, target is 3 * 2 * 1 = 6 samples.
    let stream = stream_with(vec![10000, 10000, 10000, 10000], 2, 1);
    let out = process_decoded(stream, 3, 1).unwrap();
    // Faded source: [0, 5000, 10000, 5000]; looped to 6 samples.
    assert_eq!(out.samples, vec![0, 5000, 10000, 5000, 0, 5000]);
}

#[test]
fn one_second_stereo_source_fills_ten_second_loop() {
    // A synthetic 2-channel, 44100 Hz source of exactly 44100 frames.
    let frames: usize = 44100;
    let source: Vec<i16> = vec![20000; frames * 2];
    let stream = stream_with(source, 44100, 2);
    let out = process_decoded(stream, LOOP_SECONDS, FADE_SECONDS).unwrap();
    assert_eq!(out.samples.len(), 882000);
    assert_eq!(out.sample_rate, 44100);
    assert_eq!(out.channels, 2);
    // First frame pair is exact silence.
    assert_eq!(out.samples[0], 0);
    assert_eq!(out.samples[1], 0);
    // Mid-buffer frame 22050: fade-in factor 1/2 then fade-out factor
    // 1/2 on the rounded result.
    assert_eq!(out.samples[2 * 22050], 5000);
    assert_eq!(out.samples[2 * 22050 + 1], 5000);
    // Last frame of the repetition carries the factor 1/44100 on top of
    // its fade-in value: heavily attenuated, here rounded to zero.
    assert_eq!(out.samples[2 * 44099], 0);
    // The next repetition restarts at the faded buffer's first frame.
    assert_eq!(out.samples[2 * 44100], 0);
    // One repetition in: frame 44100 + 22050 repeats frame 22050.
    assert_eq!(out.samples[2 * (44100 + 22050)], 5000);
}

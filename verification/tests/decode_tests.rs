use loopwav::decode::decode_all;
use loopwav::pipeline::run_pipeline;
use loopwav::pipeline::PipelineError;
use loopwav::pipeline::FADE_SECONDS;
use loopwav::pipeline::LOOP_SECONDS;

/// One silent MPEG-1 layer III frame: 44100 Hz, mono, 128 kb/s, no
/// padding — 417 bytes, all of the side information and main data zero.
fn silent_frame() -> Vec<u8> {
    let mut frame: Vec<u8> = vec![0xff, 0xfb, 0x90, 0xc0];
    frame.resize(417, 0);
    frame
}

#[test]
fn decode_empty_input_yields_empty_stream() {
    let data: Vec<u8> = Vec::new();
    let stream = decode_all(&data).unwrap();
    assert_eq!(stream.sample_rate, 0);
    assert_eq!(stream.channels, 0);
    assert!(stream.samples.is_empty());
}

#[test]
fn decode_junk_input_yields_empty_stream() {
    // No sync word anywhere: the decoder skips to the end of the
    // stream without producing a frame.
    let data: Vec<u8> = vec![0x00; 512];
    let stream = decode_all(&data).unwrap();
    assert!(stream.samples.is_empty());
}

#[test]
fn decode_silent_frames_fixes_format() {
    let mut data: Vec<u8> = Vec::new();
    for _ in 0..4 {
        data.extend(silent_frame());
    }
    let stream = decode_all(&data).unwrap();
    assert_eq!(stream.sample_rate, 44100);
    assert_eq!(stream.channels, 1);
    assert!(!stream.samples.is_empty());
    assert_eq!(stream.samples.len() % stream.channels, 0);
    assert!(stream.samples.iter().all(|s| *s == 0));
}

#[test]
fn pipeline_on_empty_input_reports_empty_audio() {
    let data: Vec<u8> = Vec::new();
    assert!(matches!(
        run_pipeline(&data, LOOP_SECONDS, FADE_SECONDS),
        Err(PipelineError::EmptyAudio)
    ));
}

#[test]
fn pipeline_on_silent_frames_fills_the_loop() {
    let mut data: Vec<u8> = Vec::new();
    for _ in 0..4 {
        data.extend(silent_frame());
    }
    let out = run_pipeline(&data, LOOP_SECONDS, FADE_SECONDS).unwrap();
    assert_eq!(out.sample_rate, 44100);
    assert_eq!(out.channels, 1);
    assert_eq!(out.samples.len(), 441000);
    assert!(out.samples.iter().all(|s| *s == 0));
}

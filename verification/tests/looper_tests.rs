use loopwav::looper::build_looped;
use loopwav::pipeline::PipelineError;

#[test]
fn loop_fill_truncates_final_repetition() {
    let source: Vec<i16> = vec![1, 2, 3];
    let out = build_looped(&source, 7).unwrap();
    assert_eq!(out, vec![1, 2, 3, 1, 2, 3, 1]);
}

#[test]
fn loop_fill_exact_multiple() {
    let source: Vec<i16> = vec![1, 2];
    let out = build_looped(&source, 6).unwrap();
    assert_eq!(out, vec![1, 2, 1, 2, 1, 2]);
}

#[test]
fn loop_fill_target_shorter_than_source() {
    let source: Vec<i16> = vec![4, 5, 6, 7];
    let out = build_looped(&source, 2).unwrap();
    assert_eq!(out, vec![4, 5]);
}

#[test]
fn loop_fill_target_zero() {
    let source: Vec<i16> = vec![9];
    let out = build_looped(&source, 0).unwrap();
    assert!(out.is_empty());
}

#[test]
fn loop_fill_empty_source_is_an_error() {
    let source: Vec<i16> = Vec::new();
    assert_eq!(build_looped(&source, 10), Err(PipelineError::EmptyAudio));
    assert_eq!(build_looped(&source, 0), Err(PipelineError::EmptyAudio));
}

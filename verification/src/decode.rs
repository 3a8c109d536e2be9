//! Decoder adapter: pull decoded PCM frames out of a compressed MP3
//! byte stream and accumulate them into one interleaved buffer.
//!
//! The bitstream parsing itself is `minimp3`'s job and is taken on
//! trust behind two small wrappers.  What a given byte stream decodes
//! to is a function of the bytes alone; the frame metadata of that
//! decode — each frame's payload length, sample rate and channel
//! count — is given the name `mp3_steps`, while the sample values,
//! which float synthesis may vary across builds, stay unconstrained.
//! Everything that decides — fixing the stream format from the first
//! frame, rejecting a mid-stream format change or an unusable frame,
//! growing the buffer — is verified here.

use vstd::prelude::*;

verus! {

use crate::pipeline::PipelineError;
use vstd::arithmetic::div_mod::lemma_fundamental_div_mod;
use vstd::arithmetic::div_mod::lemma_fundamental_div_mod_converse_mod;

/// `minimp3::Decoder` drives the MP3 bitstream parsing; a value of it
/// is opaque here and only handed between the wrappers below.
#[verifier::external_type_specification]
#[verifier::external_body]
#[verifier::reject_recursive_types(R)]
pub struct ExDecoder<R>(minimp3::Decoder<R>);

/// The frames that decoding `bytes` yields, in order, one step per
/// frame: payload length, sample rate, channel count.  The metadata of
/// a decode is integer header parsing, a function of the bytes alone;
/// the decoded sample values are not named.
pub uninterp spec fn mp3_steps(bytes: Seq<u8>) -> Seq<(int, int, int)>;

/// The frames a decoder has still to hand out, in the same shape as
/// `mp3_steps`.
pub uninterp spec fn decoder_steps(decoder: minimp3::Decoder<&[u8]>) -> Seq<(int, int, int)>;

/// One outcome of polling the decoder: a frame of interleaved PCM
/// samples with the format it was decoded under, the end of the
/// stream, or a failure.
pub enum DecodeStep {
    Frame { pcm: Vec<i16>, sample_rate: i32, channels: usize },
    Eof,
    Failed,
}

/// Relies on `minimp3::Decoder::new`: it only wraps the byte source;
/// no decoding happens yet, so the frames still to come are exactly
/// the frames the bytes decode to.
#[verifier::external_body]
fn decoder_new(data: &Vec<u8>) -> (decoder: minimp3::Decoder<&[u8]>)
    ensures
        decoder_steps(decoder) == mp3_steps(data@),
{
    minimp3::Decoder::new(data.as_slice())
}

/// Relies on `minimp3::Decoder::next_frame`: it yields the next frame
/// of the stream and reports `Error::Eof` at its end.  Over an
/// in-memory byte slice no other outcome can reach the caller: reads
/// from a slice cannot fail, and `next_frame` consumes its
/// insufficient-data and skipped-data cases in its own loop.  A
/// returned frame carries the head step's metadata and leaves the
/// tail; its payload holds a whole number of interleaved sample
/// groups (`next_frame` sizes it as samples-per-channel times the
/// channel count).  Nothing is assumed about the sample values.
#[verifier::external_body]
fn next_step(decoder: &mut minimp3::Decoder<&[u8]>) -> (r: DecodeStep)
    ensures
        !(r is Failed),
        r is Eof <==> decoder_steps(*old(decoder)).len() == 0,
        r matches DecodeStep::Frame { pcm, sample_rate, channels } ==> {
            &&& decoder_steps(*old(decoder)).len() > 0
            &&& decoder_steps(*old(decoder))[0] == (
                pcm@.len() as int,
                sample_rate as int,
                channels as int,
            )
            &&& decoder_steps(*final(decoder)) == decoder_steps(*old(decoder)).drop_first()
            &&& (channels > 0 ==> pcm@.len() as int % (channels as int) == 0)
        },
{
    match decoder.next_frame() {
        Ok(frame) => DecodeStep::Frame {
            pcm: frame.data,
            sample_rate: frame.sample_rate,
            channels: frame.channels,
        },
        Err(minimp3::Error::Eof) => DecodeStep::Eof,
        Err(_) => DecodeStep::Failed,
    }
}

/// The accumulating PCM buffer together with the stream format fixed
/// by the first decoded frame.  Until a frame has arrived the format
/// is unset: the sample rate is zero and the buffer empty.
pub struct PcmStream {
    /// Interleaved 16-bit samples, channel-major within each frame.
    pub samples: Vec<i16>,
    /// Sample rate in hertz; zero while no frame has arrived.
    pub sample_rate: u32,
    /// Interleaved channel count; zero while no frame has arrived.
    pub channels: usize,
}

/// A frame that no stream may accept: a non-positive sample rate, no
/// channels, or a payload that is not a whole number of frames.
pub open spec fn frame_unusable(pcm: Seq<i16>, sample_rate: int, channels: int) -> bool {
    sample_rate <= 0 || channels <= 0 || pcm.len() as int % channels != 0
}

/// `frame_unusable` over a step's metadata alone.
pub open spec fn step_unusable(step: (int, int, int)) -> bool {
    step.1 <= 0 || step.2 <= 0 || step.0 % step.2 != 0
}

/// A whole decode goes through exactly when every step is usable and
/// every step carries the first step's format.
pub open spec fn steps_accepted(steps: Seq<(int, int, int)>) -> bool {
    forall|k: int|
        0 <= k < steps.len() ==> !step_unusable(#[trigger] steps[k]) && (k > 0 ==> steps[k].1
            == steps[0].1 && steps[k].2 == steps[0].2)
}

/// Total payload length of a sequence of steps.
pub open spec fn steps_total_len(steps: Seq<(int, int, int)>) -> int
    decreases steps.len(),
{
    if steps.len() == 0 {
        0
    } else {
        steps[0].0 + steps_total_len(steps.drop_first())
    }
}

/// Appending a step adds its payload length to the total.
proof fn lemma_steps_total_len_push(steps: Seq<(int, int, int)>, step: (int, int, int))
    ensures
        steps_total_len(steps.push(step)) == steps_total_len(steps) + step.0,
    decreases steps.len(),
{
    if steps.len() == 0 {
        assert(steps.push(step)[0] == step);
        assert(steps.push(step).drop_first() =~= Seq::<(int, int, int)>::empty());
        assert(steps_total_len(Seq::<(int, int, int)>::empty()) == 0);
    } else {
        assert(steps.push(step)[0] == steps[0]);
        assert(steps.push(step).drop_first() =~= steps.drop_first().push(step));
        lemma_steps_total_len_push(steps.drop_first(), step);
    }
}

impl PcmStream {
    /// The stream format has been fixed by a first frame.
    pub open spec fn format_set(self) -> bool {
        self.sample_rate > 0
    }

    /// A set format has channels and a whole number of frames behind
    /// it; an unset one has nothing at all.
    pub open spec fn wf(self) -> bool {
        &&& self.format_set() ==> self.channels > 0 && self.samples@.len() as int % (
        self.channels as int) == 0
        &&& !self.format_set() ==> self.channels == 0 && self.samples@.len() == 0
    }

    /// A frame whose format differs from the one this stream has
    /// already fixed.
    pub open spec fn format_mismatch(self, sample_rate: int, channels: int) -> bool {
        self.format_set() && (self.sample_rate as int != sample_rate || self.channels as int
            != channels)
    }

    /// An empty stream with its format still unset.
    pub fn new() -> (r: PcmStream)
        ensures
            r.wf(),
            !r.format_set(),
            r.samples@.len() == 0,
    {
        PcmStream { samples: Vec::new(), sample_rate: 0, channels: 0 }
    }

    /// Append one decoded frame.  The first frame fixes the stream
    /// format; an unusable frame or a later change of format is
    /// rejected and leaves the stream untouched.
    pub fn accumulate_frame(
        &mut self,
        pcm: Vec<i16>,
        sample_rate: i32,
        channels: usize,
    ) -> (r: Result<(), PipelineError>)
        requires
            old(self).wf(),
        ensures
            final(self).wf(),
            r is Err ==> *final(self) == *old(self),
            r == Err::<(), PipelineError>(PipelineError::InvalidFormat) <==> frame_unusable(
                pcm@,
                sample_rate as int,
                channels as int,
            ),
            !frame_unusable(pcm@, sample_rate as int, channels as int) ==> (r == Err::<
                (),
                PipelineError,
            >(PipelineError::FormatChanged) <==> old(self).format_mismatch(
                sample_rate as int,
                channels as int,
            )),
            r is Ok <==> !frame_unusable(pcm@, sample_rate as int, channels as int)
                && !old(self).format_mismatch(sample_rate as int, channels as int),
            r is Ok ==> final(self).samples@ == old(self).samples@ + pcm@
                && final(self).sample_rate as int == sample_rate as int
                && final(self).channels == channels,
    {
        if sample_rate <= 0 || channels == 0 {
            return Err(PipelineError::InvalidFormat);
        }
        if pcm.len() % channels != 0 {
            return Err(PipelineError::InvalidFormat);
        }
        if self.sample_rate == 0 {
            self.sample_rate = sample_rate as u32;
            self.channels = channels;
        } else if self.sample_rate != sample_rate as u32 || self.channels != channels {
            return Err(PipelineError::FormatChanged);
        }
        proof {
            let c = channels as int;
            let a = self.samples@.len() as int;
            let b = pcm@.len() as int;
            lemma_fundamental_div_mod(a, c);
            lemma_fundamental_div_mod(b, c);
            assert(c * (a / c) + c * (b / c) == (a / c + b / c) * c) by (nonlinear_arith);
            lemma_fundamental_div_mod_converse_mod(a + b, c, a / c + b / c, 0);
        }
        let mut tail = pcm;
        self.samples.append(&mut tail);
        Ok(())
    }
}

/// Decode a complete compressed stream: poll the decoder until the end
/// of the stream, accumulating every frame along the way.  The first
/// frame fixes the format; the end of the stream is normal
/// termination.  Decoding succeeds exactly when every step of the
/// stream is usable and carries the first step's format, and the
/// result then holds the sum of the payloads under that format.
pub fn decode_all(data: &Vec<u8>) -> (r: Result<PcmStream, PipelineError>)
    ensures
        r is Ok <==> steps_accepted(mp3_steps(data@)),
        r matches Ok(stream) ==> {
            &&& stream.wf()
            &&& stream.samples@.len() as int == steps_total_len(mp3_steps(data@))
            &&& (mp3_steps(data@).len() == 0 ==> !stream.format_set())
            &&& (mp3_steps(data@).len() > 0 ==> stream.format_set() && stream.sample_rate as int
                == mp3_steps(data@)[0].1 && stream.channels as int == mp3_steps(data@)[0].2)
        },
        r is Err ==> r == Err::<PcmStream, PipelineError>(PipelineError::InvalidFormat) || r
            == Err::<PcmStream, PipelineError>(PipelineError::FormatChanged),
{
    let ghost steps: Seq<(int, int, int)> = mp3_steps(data@);
    let mut decoder = decoder_new(data);
    let mut stream = PcmStream::new();
    let ghost mut done: int = 0;
    loop
        invariant
            steps == mp3_steps(data@),
            stream.wf(),
            0 <= done <= steps.len(),
            decoder_steps(decoder) == steps.subrange(done, steps.len() as int),
            stream.samples@.len() as int == steps_total_len(steps.subrange(0, done)),
            done == 0 ==> !stream.format_set(),
            done > 0 ==> stream.format_set() && stream.sample_rate as int == steps[0].1
                && stream.channels as int == steps[0].2,
            forall|m: int|
                0 <= m < done ==> !step_unusable(#[trigger] steps[m]) && (m > 0 ==> steps[m].1
                    == steps[0].1 && steps[m].2 == steps[0].2),
        decreases steps.len() - done,
    {
        let ghost before: Seq<(int, int, int)> = decoder_steps(decoder);
        match next_step(&mut decoder) {
            DecodeStep::Frame { pcm, sample_rate, channels } => {
                proof {
                    assert(before[0] == steps[done]);
                    assert(before.drop_first() =~= steps.subrange(done + 1, steps.len() as int));
                    assert(steps.subrange(0, done + 1) =~= steps.subrange(0, done).push(
                        steps[done],
                    ));
                    lemma_steps_total_len_push(steps.subrange(0, done), steps[done]);
                }
                match stream.accumulate_frame(pcm, sample_rate, channels) {
                    Ok(_) => {
                        proof {
                            done = done + 1;
                        }
                    },
                    Err(e) => {
                        proof {
                            assert(!steps_accepted(steps)) by {
                                if steps_accepted(steps) {
                                    assert(!step_unusable(steps[done]));
                                    assert(done > 0 ==> steps[done].1 == steps[0].1
                                        && steps[done].2 == steps[0].2);
                                }
                            };
                        }
                        return Err(e);
                    },
                }
            },
            DecodeStep::Eof => {
                proof {
                    assert(done == steps.len());
                    assert(steps.subrange(0, done) =~= steps);
                }
                return Ok(stream);
            },
            DecodeStep::Failed => {
                // Unreachable over an in-memory stream: `next_step`'s
                // contract rules a failure out.
                return Err(PipelineError::InvalidFormat);
            },
        }
    }
}

} // verus!

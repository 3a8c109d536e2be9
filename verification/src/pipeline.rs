//! The straight decode → fade → loop-fill pipeline and its error
//! taxonomy.
//!
//! Decoding is the only step whose outcome depends on the compressed
//! bytes; everything after it — the fade envelopes and the loop fill —
//! is a function of the decoded buffer alone, and `process_decoded`
//! states that function exactly.

use vstd::prelude::*;

verus! {

use crate::decode::PcmStream;
use crate::decode::decode_all;
use crate::decode::mp3_steps;
use crate::decode::steps_accepted;
use crate::decode::steps_total_len;
use crate::fade::apply_fade_in_fade_out;
use crate::fade::effective_fade;
use crate::fade::faded_val;
use crate::looper::build_looped;
use vstd::arithmetic::div_mod::lemma_fundamental_div_mod_converse_mod;
use vstd::arithmetic::div_mod::lemma_mod_division_less_than_divisor;

/// Fixed playback length of the looped output, in whole seconds.
pub const LOOP_SECONDS: u32 = 10;

/// Fixed length of each fade envelope, in whole seconds.
pub const FADE_SECONDS: u32 = 1;

/// Everything that can stop the pipeline short of a finished buffer.
#[derive(Clone, Copy, Debug, PartialEq, Eq, Structural)]
pub enum PipelineError {
    /// A decoded frame carried an unusable format: no channels, a
    /// non-positive sample rate, or a payload that is not a whole
    /// number of frames.
    InvalidFormat,
    /// A later frame carried a different sample rate or channel count
    /// than the first one.
    FormatChanged,
    /// Decoding produced no samples at all, so there is nothing to
    /// loop.
    EmptyAudio,
    /// The requested loop duration asks for more samples than this
    /// machine can address.
    TargetTooLarge,
}

/// Total interleaved sample count that a loop of `loop_secs` whole
/// seconds must contain.  With whole seconds the ceiling of
/// `duration * rate * channels` is the product itself.
pub open spec fn loop_target(loop_secs: int, sample_rate: int, channels: int) -> int {
    loop_secs * sample_rate * channels
}

/// Taper both ends of a decoded stream and fill a loop of `loop_secs`
/// seconds from it.  The output holds exactly the target sample count:
/// repetition after repetition of the faded buffer, the last one
/// truncated.  An empty stream and a target beyond this machine's
/// address range are the only errors.
pub fn process_decoded(stream: PcmStream, loop_secs: u32, fade_secs: u32) -> (r: Result<
    PcmStream,
    PipelineError,
>)
    requires
        stream.wf(),
    ensures
        r == Err::<PcmStream, PipelineError>(PipelineError::EmptyAudio) <==> stream.samples@.len()
            == 0,
        stream.samples@.len() > 0 ==> (r == Err::<PcmStream, PipelineError>(
            PipelineError::TargetTooLarge,
        ) <==> loop_target(
            loop_secs as int,
            stream.sample_rate as int,
            stream.channels as int,
        ) > usize::MAX as int),
        r is Err ==> stream.samples@.len() == 0 || loop_target(
            loop_secs as int,
            stream.sample_rate as int,
            stream.channels as int,
        ) > usize::MAX as int,
        r matches Ok(out) ==> out.wf() && out.sample_rate == stream.sample_rate && out.channels
            == stream.channels && out.samples@.len() as int == loop_target(
            loop_secs as int,
            stream.sample_rate as int,
            stream.channels as int,
        ) && forall|j: int|
            0 <= j < out.samples@.len() ==> #[trigger] out.samples@[j] as int == faded_val(
                stream.samples@,
                stream.channels as int,
                effective_fade(
                    fade_secs as int * stream.sample_rate as int,
                    stream.samples@.len() as int / stream.channels as int,
                ),
                j % stream.samples@.len() as int,
            ),
{
    if stream.samples.len() == 0 {
        return Err(PipelineError::EmptyAudio);
    }
    let sample_rate: u32 = stream.sample_rate;
    let channels: usize = stream.channels;
    proof {
        assert((loop_secs as int) * (sample_rate as int) < 0x1_0000_0000_0000_0000int)
            by (nonlinear_arith)
            requires
                (loop_secs as int) <= 0xffff_ffffint,
                (sample_rate as int) <= 0xffff_ffffint,
                (loop_secs as int) >= 0,
                (sample_rate as int) >= 0,
        ;
    }
    let per_second: u64 = (loop_secs as u64) * (sample_rate as u64);
    proof {
        assert((per_second as int) * (channels as int) < 0x1_0000_0000_0000_0000_0000_0000_0000_0000int)
            by (nonlinear_arith)
            requires
                (per_second as int) < 0x1_0000_0000_0000_0000int,
                (channels as int) < 0x1_0000_0000_0000_0000int,
                (per_second as int) >= 0,
                (channels as int) >= 0,
        ;
    }
    let target_wide: u128 = (per_second as u128) * (channels as u128);
    if target_wide > usize::MAX as u128 {
        proof {
            assert(loop_target(loop_secs as int, sample_rate as int, channels as int)
                == target_wide as int) by (nonlinear_arith)
                requires
                    target_wide as int == (per_second as int) * (channels as int),
                    per_second as int == (loop_secs as int) * (sample_rate as int),
            ;
        }
        return Err(PipelineError::TargetTooLarge);
    }
    let target: usize = target_wide as usize;
    proof {
        assert(loop_target(loop_secs as int, sample_rate as int, channels as int)
            == target as int) by (nonlinear_arith)
            requires
                target as int == (per_second as int) * (channels as int),
                per_second as int == (loop_secs as int) * (sample_rate as int),
        ;
    }
    let total_frames: usize = stream.samples.len() / channels;
    proof {
        assert((fade_secs as int) * (sample_rate as int) < 0x1_0000_0000_0000_0000_0000_0000_0000_0000int)
            by (nonlinear_arith)
            requires
                (fade_secs as int) <= 0xffff_ffffint,
                (sample_rate as int) <= 0xffff_ffffint,
                (fade_secs as int) >= 0,
                (sample_rate as int) >= 0,
        ;
    }
    let fade_wide: u128 = (fade_secs as u128) * (sample_rate as u128);
    let fade_param: usize = if fade_wide > total_frames as u128 {
        total_frames
    } else {
        fade_wide as usize
    };
    let mut samples: Vec<i16> = stream.samples;
    apply_fade_in_fade_out(&mut samples, channels, fade_param);
    let ghost orig: Seq<i16> = stream.samples@;
    let ghost eff: int = effective_fade(
        fade_secs as int * sample_rate as int,
        orig.len() as int / channels as int,
    );
    proof {
        assert(effective_fade(
            fade_param as int,
            orig.len() as int / channels as int,
        ) == eff);
    }
    let looped: Vec<i16> = match build_looped(&samples, target) {
        Ok(v) => v,
        Err(e) => {
            return Err(e);
        },
    };
    proof {
        let c = channels as int;
        lemma_fundamental_div_mod_converse_mod(target as int, c, per_second as int, 0);
        assert forall|j: int| 0 <= j < looped@.len() implies #[trigger] looped@[j] as int
            == faded_val(orig, c, eff, j % orig.len() as int) by {
            lemma_mod_division_less_than_divisor(j, orig.len() as int);
        }
    }
    Ok(PcmStream { samples: looped, sample_rate, channels })
}

/// Run the whole pipeline over a compressed MP3 byte stream: decode it
/// in full, taper both ends of the decoded audio, and fill a loop of
/// `loop_secs` seconds from it.  It succeeds exactly when the stream
/// decodes to at least one sample under one constant, usable format
/// and the target sample count is addressable; the result then holds
/// exactly the target sample count for that format.
pub fn run_pipeline(mp3: &Vec<u8>, loop_secs: u32, fade_secs: u32) -> (r: Result<
    PcmStream,
    PipelineError,
>)
    ensures
        r is Ok <==> steps_accepted(mp3_steps(mp3@)) && steps_total_len(mp3_steps(mp3@)) > 0
            && loop_target(
            loop_secs as int,
            mp3_steps(mp3@)[0].1,
            mp3_steps(mp3@)[0].2,
        ) <= usize::MAX as int,
        r matches Ok(out) ==> out.wf() && out.format_set() && out.channels > 0
            && out.sample_rate as int == mp3_steps(mp3@)[0].1 && out.channels as int
            == mp3_steps(mp3@)[0].2 && out.samples@.len() as int == loop_target(
            loop_secs as int,
            out.sample_rate as int,
            out.channels as int,
        ),
{
    let stream: PcmStream = match decode_all(mp3) {
        Ok(s) => s,
        Err(e) => {
            return Err(e);
        },
    };
    let r = process_decoded(stream, loop_secs, fade_secs);
    proof {
        let steps = mp3_steps(mp3@);
        if steps.len() == 0 {
            assert(steps_total_len(steps) == 0);
        }
    }
    r
}

} // verus!

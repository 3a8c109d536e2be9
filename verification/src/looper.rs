//! Duration-driven loop fill.
//!
//! The writer's computational half: repeat a source buffer end to end
//! until a target interleaved sample count is reached, truncating the
//! final repetition wherever the target falls.  An empty source buffer
//! can never fill a positive target, so it is rejected outright rather
//! than looped forever.

use vstd::prelude::*;

verus! {

use crate::pipeline::PipelineError;
use vstd::arithmetic::div_mod::lemma_fundamental_div_mod;
use vstd::arithmetic::div_mod::lemma_fundamental_div_mod_converse_mod;
use vstd::arithmetic::div_mod::lemma_mod_division_less_than_divisor;

/// Repeat `source` from its start, sample for sample, until exactly
/// `target_samples` samples have been produced; the last pass through
/// the source is cut off wherever the target is reached.  An empty
/// source reports an error instead of looping forever.
pub fn build_looped(source: &Vec<i16>, target_samples: usize) -> (r: Result<
    Vec<i16>,
    PipelineError,
>)
    ensures
        r is Err <==> source@.len() == 0,
        r is Err ==> r == Err::<Vec<i16>, PipelineError>(PipelineError::EmptyAudio),
        r matches Ok(out) ==> out@.len() == target_samples && forall|j: int|
            0 <= j < target_samples ==> #[trigger] out@[j] == source@[j % source@.len() as int],
{
    if source.len() == 0 {
        return Err(PipelineError::EmptyAudio);
    }
    let src_len: usize = source.len();
    let mut out: Vec<i16> = Vec::new();
    let mut pos: usize = 0;
    let mut written: usize = 0;
    proof {
        lemma_fundamental_div_mod_converse_mod(0, src_len as int, 0, 0);
    }
    while written < target_samples
        invariant
            src_len == source@.len(),
            src_len > 0,
            pos < src_len,
            written <= target_samples,
            pos as int == written as int % src_len as int,
            out@.len() == written,
            forall|j: int|
                0 <= j < written ==> #[trigger] out@[j] == source@[j % src_len as int],
        decreases target_samples - written,
    {
        out.push(source[pos]);
        proof {
            lemma_fundamental_div_mod(written as int, src_len as int);
            let q = written as int / src_len as int;
            assert((src_len as int) * q == q * (src_len as int)) by (nonlinear_arith);
            if pos + 1 < src_len {
                lemma_fundamental_div_mod_converse_mod(
                    written as int + 1,
                    src_len as int,
                    q,
                    pos as int + 1,
                );
            } else {
                assert((q + 1) * (src_len as int) == q * (src_len as int) + src_len as int)
                    by (nonlinear_arith);
                lemma_fundamental_div_mod_converse_mod(
                    written as int + 1,
                    src_len as int,
                    q + 1,
                    0,
                );
            }
        }
        written = written + 1;
        pos = pos + 1;
        if pos == src_len {
            pos = 0;
        }
    }
    Ok(out)
}

} // verus!

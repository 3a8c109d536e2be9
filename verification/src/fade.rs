//! Linear fade envelopes at both ends of an interleaved PCM buffer.
//!
//! The buffer holds `total_frames` per-channel frames, `channels`
//! interleaved samples each.  A fade-in scales frame `i` of the first
//! `eff` frames by `i / eff`; a fade-out then scales frame `i` of the
//! last `eff` frames by `(total_frames - i) / eff`, on top of whatever
//! the fade-in left there.  `eff` is the requested fade length clamped
//! to the buffer, so a fade longer than the audio cannot reach outside
//! it; the two passes may overlap and are applied in that order.

use vstd::prelude::*;

verus! {

use crate::sample_math::scale_sample;
use crate::sample_math::scaled;
use crate::sample_math::lemma_scaled_bound;
use crate::sample_math::lemma_scaled_identity;
use crate::sample_math::lemma_scaled_strictly_reduces;
use crate::sample_math::lemma_scaled_zero;
use vstd::arithmetic::div_mod::lemma_fundamental_div_mod;
use vstd::arithmetic::div_mod::lemma_fundamental_div_mod_converse_div;
use vstd::arithmetic::div_mod::lemma_fundamental_div_mod_converse_mod;
use vstd::arithmetic::div_mod::lemma_mod_division_less_than_divisor;
use vstd::arithmetic::mul::lemma_mul_inequality;

/// Number of frames the envelope actually covers: the requested count,
/// clamped so that it never exceeds the buffer.
pub open spec fn effective_fade(fade_samples: int, total_frames: int) -> int {
    if fade_samples <= total_frames {
        fade_samples
    } else {
        total_frames
    }
}

/// Value of interleaved sample `j` after the fade-in pass alone.
pub open spec fn fade_in_val(data: Seq<i16>, channels: int, eff: int, j: int) -> int
    recommends
        channels > 0,
        0 <= j < data.len(),
{
    if eff > 0 && j / channels < eff {
        scaled(data[j] as int, j / channels, eff)
    } else {
        data[j] as int
    }
}

/// Value of interleaved sample `j` after the fade-in and then the
/// fade-out pass.
pub open spec fn faded_val(data: Seq<i16>, channels: int, eff: int, j: int) -> int
    recommends
        channels > 0,
        0 <= j < data.len(),
{
    let total = data.len() as int / channels;
    let v1 = fade_in_val(data, channels, eff, j);
    if eff > 0 && j / channels >= total - eff {
        scaled(v1, total - j / channels, eff)
    } else {
        v1
    }
}

/// Both fade passes keep every sample inside the 16-bit range.
pub proof fn lemma_faded_val_fits(data: Seq<i16>, channels: int, eff: int, j: int)
    requires
        channels > 0,
        0 <= j < data.len(),
        0 <= eff,
        data.len() == (data.len() as int / channels) * channels,
        eff <= data.len() as int / channels,
    ensures
        i16::MIN <= fade_in_val(data, channels, eff, j) <= i16::MAX,
        i16::MIN <= faded_val(data, channels, eff, j) <= i16::MAX,
{
    let total = data.len() as int / channels;
    let v0 = data[j] as int;
    let v1 = fade_in_val(data, channels, eff, j);
    if eff > 0 && j / channels < eff {
        lemma_scaled_bound(v0, j / channels, eff);
    }
    if eff > 0 && j / channels >= total - eff {
        lemma_fundamental_div_mod(j, channels);
        assert(j / channels < total) by {
            if j / channels >= total {
                lemma_mul_inequality(total, j / channels, channels);
                assert(total * channels <= (j / channels) * channels);
                assert(channels * (j / channels) == (j / channels) * channels)
                    by (nonlinear_arith);
                assert(j >= data.len());
            }
        };
        lemma_scaled_bound(v1, total - j / channels, eff);
    }
}

/// Apply a linear fade-in over the first `fade_samples` frames and a
/// linear fade-out over the last `fade_samples` frames of the buffer,
/// in place.  The fade length is clamped to the number of frames, so a
/// fade longer than the buffer is safe; an empty buffer is left as it
/// is.
pub fn apply_fade_in_fade_out(data: &mut Vec<i16>, channels: usize, fade_samples: usize)
    requires
        channels > 0,
        old(data)@.len() as int % (channels as int) == 0,
    ensures
        final(data)@.len() == old(data)@.len(),
        forall|j: int|
            0 <= j < old(data)@.len() ==> #[trigger] final(data)@[j] as int == faded_val(
                old(data)@,
                channels as int,
                effective_fade(
                    fade_samples as int,
                    old(data)@.len() as int / (channels as int),
                ),
                j,
            ),
{
    let len: usize = data.len();
    let total_frames: usize = len / channels;
    let eff: usize = if fade_samples <= total_frames {
        fade_samples
    } else {
        total_frames
    };
    proof {
        lemma_fundamental_div_mod(len as int, channels as int);
        assert(len as int == (total_frames as int) * (channels as int)) by (nonlinear_arith)
            requires
                len as int == (channels as int) * (total_frames as int) + len as int % (
                channels as int),
                len as int % (channels as int) == 0,
        ;
    }
    if eff == 0 {
        return ;
    }
    let ghost orig: Seq<i16> = data@;
    let mut i: usize = 0;
    while i < eff
        invariant
            channels > 0,
            0 < eff <= total_frames,
            i <= eff,
            orig.len() == len,
            len as int == (total_frames as int) * (channels as int),
            total_frames as int == orig.len() as int / (channels as int),
            data@.len() == orig.len(),
            forall|j: int|
                0 <= j < orig.len() && j / (channels as int) < i
                    ==> #[trigger] data@[j] as int == fade_in_val(
                    orig,
                    channels as int,
                    eff as int,
                    j,
                ),
            forall|j: int|
                0 <= j < orig.len() && j / (channels as int) >= i ==> #[trigger] data@[j]
                    == orig[j],
        decreases eff - i,
    {
        let mut c: usize = 0;
        while c < channels
            invariant
                channels > 0,
                0 < eff <= total_frames,
                i < eff,
                c <= channels,
                orig.len() == len,
                len as int == (total_frames as int) * (channels as int),
                total_frames as int == orig.len() as int / (channels as int),
                data@.len() == orig.len(),
                forall|j: int|
                    0 <= j < orig.len() && (j / (channels as int) < i || (j / (
                    channels as int) == i && j % (channels as int) < c))
                        ==> #[trigger] data@[j] as int == fade_in_val(
                        orig,
                        channels as int,
                        eff as int,
                        j,
                    ),
                forall|j: int|
                    0 <= j < orig.len() && (j / (channels as int) > i || (j / (
                    channels as int) == i && j % (channels as int) >= c))
                        ==> #[trigger] data@[j] == orig[j],
            decreases channels - c,
        {
            proof {
                lemma_mul_inequality(i as int, total_frames as int - 1, channels as int);
                assert((total_frames as int - 1) * (channels as int) + (channels as int)
                    == (total_frames as int) * (channels as int)) by (nonlinear_arith);
            }
            let idx: usize = i * channels + c;
            proof {
                lemma_fundamental_div_mod_converse_div(
                    idx as int,
                    channels as int,
                    i as int,
                    c as int,
                );
                lemma_fundamental_div_mod_converse_mod(
                    idx as int,
                    channels as int,
                    i as int,
                    c as int,
                );
            }
            let v: i16 = data[idx];
            let nv: i16 = scale_sample(v, i, eff);
            data[idx] = nv;
            proof {
                assert forall|j: int|
                    #![trigger j / (channels as int), j % (channels as int)]
                    0 <= j < orig.len() && j / (channels as int) == i as int && j % (
                    channels as int) == c as int implies j == idx as int by {
                    lemma_fundamental_div_mod(j, channels as int);
                    assert((channels as int) * (i as int) == (i as int) * (channels as int))
                        by (nonlinear_arith);
                }
            }
            c += 1;
        }
        proof {
            assert forall|j: int|
                #![trigger j % (channels as int)]
                0 <= j < orig.len() && j / (channels as int) == i as int implies j % (
                channels as int) < channels as int by {
                lemma_mod_division_less_than_divisor(j, channels as int);
            }
        }
        i += 1;
    }
    assert(forall|j: int|
        0 <= j < orig.len() ==> #[trigger] data@[j] as int == fade_in_val(
            orig,
            channels as int,
            eff as int,
            j,
        ));
    let ghost mid: Seq<i16> = data@;
    let mut f: usize = total_frames - eff;
    while f < total_frames
        invariant
            channels > 0,
            0 < eff <= total_frames,
            total_frames - eff <= f <= total_frames,
            orig.len() == len,
            len as int == (total_frames as int) * (channels as int),
            total_frames as int == orig.len() as int / (channels as int),
            data@.len() == orig.len(),
            mid.len() == orig.len(),
            forall|j: int|
                0 <= j < orig.len() ==> #[trigger] mid[j] as int == fade_in_val(
                    orig,
                    channels as int,
                    eff as int,
                    j,
                ),
            forall|j: int|
                0 <= j < orig.len() && j / (channels as int) < f ==> #[trigger] data@[j]
                    as int == faded_val(orig, channels as int, eff as int, j),
            forall|j: int|
                0 <= j < orig.len() && j / (channels as int) >= f ==> #[trigger] data@[j]
                    == mid[j],
        decreases total_frames - f,
    {
        let mut c: usize = 0;
        while c < channels
            invariant
                channels > 0,
                0 < eff <= total_frames,
                total_frames - eff <= f < total_frames,
                c <= channels,
                orig.len() == len,
                len as int == (total_frames as int) * (channels as int),
                total_frames as int == orig.len() as int / (channels as int),
                data@.len() == orig.len(),
                mid.len() == orig.len(),
                forall|j: int|
                    0 <= j < orig.len() ==> #[trigger] mid[j] as int == fade_in_val(
                        orig,
                        channels as int,
                        eff as int,
                        j,
                    ),
                forall|j: int|
                    0 <= j < orig.len() && (j / (channels as int) < f || (j / (
                    channels as int) == f && j % (channels as int) < c))
                        ==> #[trigger] data@[j] as int == faded_val(
                        orig,
                        channels as int,
                        eff as int,
                        j,
                    ),
                forall|j: int|
                    0 <= j < orig.len() && (j / (channels as int) > f || (j / (
                    channels as int) == f && j % (channels as int) >= c))
                        ==> #[trigger] data@[j] == mid[j],
            decreases channels - c,
        {
            proof {
                lemma_mul_inequality(f as int, total_frames as int - 1, channels as int);
                assert((total_frames as int - 1) * (channels as int) + (channels as int)
                    == (total_frames as int) * (channels as int)) by (nonlinear_arith);
            }
            let idx: usize = f * channels + c;
            proof {
                lemma_fundamental_div_mod_converse_div(
                    idx as int,
                    channels as int,
                    f as int,
                    c as int,
                );
                lemma_fundamental_div_mod_converse_mod(
                    idx as int,
                    channels as int,
                    f as int,
                    c as int,
                );
                lemma_faded_val_fits(orig, channels as int, eff as int, idx as int);
            }
            let v: i16 = data[idx];
            let nv: i16 = scale_sample(v, total_frames - f, eff);
            data[idx] = nv;
            proof {
                assert forall|j: int|
                    #![trigger j / (channels as int), j % (channels as int)]
                    0 <= j < orig.len() && j / (channels as int) == f as int && j % (
                    channels as int) == c as int implies j == idx as int by {
                    lemma_fundamental_div_mod(j, channels as int);
                    assert((channels as int) * (f as int) == (f as int) * (channels as int))
                        by (nonlinear_arith);
                }
            }
            c += 1;
        }
        proof {
            assert forall|j: int|
                #![trigger j % (channels as int)]
                0 <= j < orig.len() && j / (channels as int) == f as int implies j % (
                channels as int) < channels as int by {
                lemma_mod_division_less_than_divisor(j, channels as int);
            }
        }
        f += 1;
    }
    proof {
        assert forall|j: int| #![trigger j / (channels as int)]
            0 <= j < orig.len() implies j / (channels as int) < total_frames as int by {
            lemma_fundamental_div_mod(j, channels as int);
            lemma_mod_division_less_than_divisor(j, channels as int);
            if j / (channels as int) >= total_frames as int {
                lemma_mul_inequality(
                    total_frames as int,
                    j / (channels as int),
                    channels as int,
                );
                assert((channels as int) * (j / (channels as int)) == (j / (
                channels as int)) * (channels as int)) by (nonlinear_arith);
                assert(false);
            }
        }
    }
}

/// Fade-in law: away from the fade-out region, a frame inside the
/// fade-in window carries exactly the factor `frame / eff`, and the
/// very first frame is exact silence on every channel.
pub proof fn lemma_fade_in_prefix(data: Seq<i16>, channels: int, eff: int, j: int)
    requires
        channels > 0,
        0 <= j < data.len(),
        0 < eff <= data.len() as int / channels,
        j / channels < eff,
        j / channels < data.len() as int / channels - eff,
    ensures
        faded_val(data, channels, eff, j) == scaled(data[j] as int, j / channels, eff),
        j / channels == 0 ==> faded_val(data, channels, eff, j) == 0,
{
    if j / channels == 0 {
        lemma_scaled_zero(data[j] as int, eff);
    }
}

/// The first frame of a faded buffer is exact silence on every channel,
/// whether or not the fade regions overlap.
pub proof fn lemma_fade_first_frame_silent(data: Seq<i16>, channels: int, eff: int, j: int)
    requires
        channels > 0,
        0 <= j < data.len(),
        0 < eff <= data.len() as int / channels,
        j / channels == 0,
    ensures
        faded_val(data, channels, eff, j) == 0,
{
    let total = data.len() as int / channels;
    lemma_scaled_zero(data[j] as int, eff);
    assert(fade_in_val(data, channels, eff, j) == 0);
    if j / channels >= total - eff {
        lemma_scaled_zero_value(total - j / channels, eff);
    }
}

/// The fade is not idempotent.  Take a buffer that already carries
/// the envelope and run the passes once more: a frame strictly inside
/// the fade-in window and clear of the fade-out window is re-scaled,
/// and whenever its once-faded sample is still large enough for the
/// factor to move it, its value changes.  (On the samples this leaves
/// out — exact silence, or values too small for the factor to move —
/// a second pass can coincide with the first.)
pub proof fn lemma_fade_twice_rescales(
    data: Seq<i16>,
    once: Seq<i16>,
    channels: int,
    eff: int,
    j: int,
)
    requires
        channels > 0,
        once.len() == data.len(),
        0 <= j < data.len(),
        0 < eff <= data.len() as int / channels,
        forall|k: int|
            0 <= k < data.len() ==> #[trigger] once[k] as int == faded_val(
                data,
                channels,
                eff,
                k,
            ),
        0 < j / channels < eff,
        j / channels < data.len() as int / channels - eff,
        (if once[j] as int >= 0 {
            once[j] as int
        } else {
            -(once[j] as int)
        }) * (eff - j / channels) * 2 > eff,
    ensures
        faded_val(once, channels, eff, j) != once[j] as int,
{
    let fr = j / channels;
    assert(faded_val(once, channels, eff, j) == scaled(once[j] as int, fr, eff));
    lemma_scaled_strictly_reduces(once[j] as int, fr, eff);
}

/// Scaling exact silence by any factor leaves exact silence.
proof fn lemma_scaled_zero_value(num: int, den: int)
    requires
        den > 0,
    ensures
        scaled(0, num, den) == 0,
{
    assert(0 * num == 0) by (nonlinear_arith);
    lemma_fundamental_div_mod_converse_div(den, 2 * den, 0, den);
}

/// Fade-out law: the very last frame is scaled by the factor `1 / eff`
/// on top of its fade-in value — not by zero — and with a one-frame
/// fade it is left exactly as the fade-in pass had it.
pub proof fn lemma_fade_out_last_frame(data: Seq<i16>, channels: int, eff: int, j: int)
    requires
        channels > 0,
        0 <= j < data.len(),
        data.len() == (data.len() as int / channels) * channels,
        0 < eff <= data.len() as int / channels,
        j / channels == data.len() as int / channels - 1,
    ensures
        faded_val(data, channels, eff, j) == scaled(
            fade_in_val(data, channels, eff, j),
            1,
            eff,
        ),
        eff == 1 ==> faded_val(data, channels, eff, j) == fade_in_val(data, channels, eff, j),
{
    if eff == 1 {
        lemma_scaled_identity(fade_in_val(data, channels, eff, j), 1);
    }
}

} // verus!


//! Mono downmix loader for integer PCM data.
//!
//! The WAV container is decoded by `hound`; the downmix itself is the
//! library's logic: each interleaved frame is reduced to the truncating
//! arithmetic mean of its channel samples, and the signed full-scale
//! magnitude of the sample width is returned as the divisor that
//! normalizes those means into nominal `[-1, 1]` values.

use vstd::prelude::*;
use vstd::arithmetic::div_mod::lemma_fundamental_div_mod_converse;
use crate::error::AudioError;

verus! {

#[verifier::external_type_specification]
#[verifier::external_body]
pub struct ExWavError(hound::Error);

/// What `hound` decodes out of the given WAV bytes: the header's channel
/// count and bits per sample, and the interleaved integer samples; `None`
/// when the bytes do not decode.
pub uninterp spec fn wav_decode_of(bytes: Seq<u8>) -> Option<(u16, u16, Seq<i32>)>;

/// Relies on `hound::WavReader::new`, `WavReader::spec` and
/// `WavReader::samples::<i32>`: decodes in-memory WAV data into interleaved
/// integer samples. A successful decode has at least one channel and a
/// positive sample width (the header is validated), and the sample count
/// is a whole number of frames.
#[verifier::external_body]
fn decode_wav(bytes: &Vec<u8>) -> (r: Result<(u16, u16, Vec<i32>), hound::Error>)
    ensures
        r is Ok <==> wav_decode_of(bytes@) is Some,
        r is Ok ==> ({
            let d = wav_decode_of(bytes@)->Some_0;
            &&& r->Ok_0.0 == d.0
            &&& r->Ok_0.1 == d.1
            &&& r->Ok_0.2@ == d.2
            &&& d.0 >= 1
            &&& d.1 >= 1
            &&& d.2.len() as int % (d.0 as int) == 0
        }),
{
    let mut reader = hound::WavReader::new(std::io::Cursor::new(bytes.as_slice()))?;
    let spec = reader.spec();
    let samples = reader.samples::<i32>().collect::<Result<Vec<i32>, hound::Error>>()?;
    Ok((spec.channels, spec.bits_per_sample, samples))
}

/// Sum of a run of samples, as a mathematical integer.
pub open spec fn sample_sum(s: Seq<i32>) -> int
    decreases s.len(),
{
    if s.len() == 0 {
        0
    } else {
        sample_sum(s.drop_last()) + s.last()
    }
}

/// Arithmetic mean with the fractional part discarded toward zero, as
/// integer division computes it.
pub open spec fn mean_trunc(sum: int, n: int) -> int
    recommends
        n >= 1,
{
    if sum >= 0 {
        sum / n
    } else {
        -((-sum) / n)
    }
}

/// Number of frames that `len` interleaved samples form at `channels`
/// samples per frame; a trailing partial frame counts as one.
pub open spec fn frame_count(len: int, channels: int) -> int
    recommends
        channels >= 1,
{
    (len + channels - 1) / channels
}

/// The samples of frame `i`: the `i`-th run of `channels` consecutive
/// samples, clipped to the end of the data.
pub open spec fn frame_of(s: Seq<i32>, channels: int, i: int) -> Seq<i32> {
    s.subrange(
        i * channels,
        if (i + 1) * channels <= s.len() {
            (i + 1) * channels
        } else {
            s.len() as int
        },
    )
}

/// The downmixed value of frame `i`: the truncating mean of its samples.
pub open spec fn frame_mean(s: Seq<i32>, channels: int, i: int) -> int {
    mean_trunc(sample_sum(frame_of(s, channels, i)), frame_of(s, channels, i).len() as int)
}

/// The whole downmix: one truncating channel mean per frame, in order.
pub open spec fn mono_means_spec(s: Seq<i32>, channels: int) -> Seq<int> {
    Seq::new(frame_count(s.len() as int, channels) as nat, |i: int| frame_mean(s, channels, i))
}

/// The signed full-scale magnitude of a sample width: `2^(bits - 1)`, the
/// divisor that maps integer samples into nominal `[-1, 1]`.
pub open spec fn full_scale_spec(bits: u16) -> int
    recommends
        1 <= bits <= 32,
{
    (1u64 << ((bits - 1) as u64)) as int
}

/// Reduces interleaved integer frames to one truncating channel mean per
/// frame.
pub fn mono_downmix(samples: &Vec<i32>, channels: u16) -> (r: Vec<i64>)
    requires
        channels >= 1,
    ensures
        r@.map_values(|v: i64| v as int) == mono_means_spec(samples@, channels as int),
{
    let len: usize = samples.len();
    let cs: usize = channels as usize;
    let ghost csi = cs as int;
    let mut out: Vec<i64> = Vec::new();
    let mut pos: usize = 0;
    proof {
        assert(0int * csi == 0) by (nonlinear_arith);
    }
    while pos < len
        invariant
            1 <= csi <= 0xffff,
            csi == cs as int,
            csi == channels as int,
            len == samples@.len(),
            pos as int == if out@.len() * csi <= len as int {
                out@.len() * csi
            } else {
                len as int
            },
            out@.len() == 0 || (out@.len() - 1) * csi < len as int,
            forall|i: int| 0 <= i < out@.len() ==> out@[i] as int == frame_mean(
                samples@,
                csi,
                i,
            ),
        decreases len - pos,
    {
        let ghost k = out@.len() as int;
        proof {
            assert(k * csi <= len as int) by {
                if k * csi > len as int {
                    assert(pos as int == len as int);
                }
            };
            assert(pos as int == k * csi);
            assert((k + 1) * csi == k * csi + csi) by (nonlinear_arith);
        }
        let end: usize = if cs < len - pos {
            pos + cs
        } else {
            len
        };
        let mut sum: i64 = 0;
        let mut j: usize = pos;
        while j < end
            invariant
                pos <= j <= end <= len,
                len == samples@.len(),
                end as int - pos as int <= 0xffff,
                sum == sample_sum(samples@.subrange(pos as int, j as int)),
                (-0x8000_0000) * (j - pos) <= sum <= 0x7fff_ffff * (j - pos),
            decreases end - j,
        {
            proof {
                assert(samples@.subrange(pos as int, j as int + 1).drop_last() =~= samples@.subrange(
                    pos as int,
                    j as int,
                ));
            }
            sum = sum + (samples[j] as i64);
            j = j + 1;
        }
        let fl: u64 = (end - pos) as u64;
        let m: i64 = if sum >= 0 {
            ((sum as u64) / fl) as i64
        } else {
            -((((-sum) as u64) / fl) as i64)
        };
        proof {
            let fr = frame_of(samples@, csi, k);
            assert(fr =~= samples@.subrange(pos as int, end as int));
            assert(m as int == mean_trunc(sample_sum(fr), fr.len() as int));
            assert(m as int == frame_mean(samples@, csi, k));
        }
        out.push(m);
        pos = end;
    }
    proof {
        let leni = len as int;
        let k = out@.len() as int;
        assert(k * csi >= leni) by {
            if k * csi < leni {
                assert(pos as int == k * csi);
            }
        };
        assert(frame_count(leni, csi) == k) by {
            if k == 0 {
                assert(leni <= 0);
                lemma_fundamental_div_mod_converse(leni + csi - 1, csi, 0, leni + csi - 1);
            } else {
                assert((k - 1) * csi < leni);
                assert(k * csi == (k - 1) * csi + csi) by (nonlinear_arith);
                assert((k + 1) * csi == k * csi + csi) by (nonlinear_arith);
                assert(k * csi <= leni + csi - 1 < (k + 1) * csi);
                lemma_fundamental_div_mod_converse(leni + csi - 1, csi, k, leni + csi - 1 - k * csi);
            }
        };
        assert(out@.map_values(|v: i64| v as int) =~= mono_means_spec(samples@, csi));
    }
    out
}

/// A decoded, downmixed PCM take: one integer mean per frame, and the
/// signed full-scale magnitude to normalize the means by.
pub struct MonoPcm {
    /// Truncating channel mean of each frame, in file order.
    pub means: Vec<i64>,
    /// `2^(bits_per_sample - 1)`; dividing each mean by it yields the
    /// nominal `[-1, 1]` sample value.
    pub full_scale: i64,
}

/// Decodes WAV bytes and downmixes every frame to the truncating mean of
/// its channel samples. Fails with `DecodeFailed` exactly when the bytes do
/// not decode, and with `UnsupportedConfig` on a sample width beyond 32
/// bits.
pub fn read_wav_mono(bytes: &Vec<u8>) -> (r: Result<MonoPcm, AudioError>)
    ensures
        wav_decode_of(bytes@) is None ==> r is Err && r->Err_0 == AudioError::DecodeFailed,
        wav_decode_of(bytes@) is Some ==> ({
            let d = wav_decode_of(bytes@)->Some_0;
            if d.1 > 32 {
                r is Err && r->Err_0 == AudioError::UnsupportedConfig
            } else {
                &&& r is Ok
                &&& r->Ok_0.means@.map_values(|v: i64| v as int) == mono_means_spec(
                    d.2,
                    d.0 as int,
                )
                &&& r->Ok_0.full_scale == full_scale_spec(d.1)
            }
        }),
{
    let decoded = match decode_wav(bytes) {
        Ok(d) => d,
        Err(_) => {
            return Err(AudioError::DecodeFailed);
        },
    };
    let channels = decoded.0;
    let bits = decoded.1;
    let samples = decoded.2;
    if bits > 32 {
        return Err(AudioError::UnsupportedConfig);
    }
    let means = mono_downmix(&samples, channels);
    let shift: u64 = (bits - 1) as u64;
    proof {
        assert(1u64 << shift <= 0x8000_0000) by (bit_vector)
            requires
                shift <= 31u64,
        ;
    }
    let fs64: u64 = 1u64 << shift;
    Ok(MonoPcm { means, full_scale: fs64 as i64 })
}

} // verus!

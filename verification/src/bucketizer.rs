//! The bucketizer: reduces the audible part of a spectral summary — the
//! bins below a fixed 10 kHz ceiling — to exactly 32 bucket values. The
//! audible bins are split into 32 contiguous chunks of equal size (the
//! count divided by 32, truncating; trailing remainder bins are dropped,
//! not redistributed), each chunk's magnitudes are summed, and the sum is
//! clamped to 1.0 and scaled onto the unsigned 16-bit range. Too few bins
//! make every chunk empty and every bucket zero.

use vstd::prelude::*;

use crate::sensor::AudioData;
use crate::spectrum::{
    SpectrumResult, scale_frequency, scale_magnitude, scale_to_u16, scaled_bin_freq, sum_mags,
};

verus! {

/// Bins at or above this frequency (in Hz) are not bucketized.
pub const AUDIBLE_CEILING_HZ: u32 = 10_000;

/// The number of buckets a reading carries.
pub const BUCKET_COUNT: usize = 32;

/// How many leading bins lie below the audible ceiling. Bin `i` stands for
/// `i * sample_rate / frame_len` Hz, so the audible bins are exactly a
/// prefix, of length the ceiling of `10000 * frame_len / sample_rate`,
/// capped at the bin count.
pub open spec fn audible_count(n_bins: int, sample_rate: int, frame_len: int) -> int
    recommends
        n_bins >= 0,
        sample_rate >= 1,
        frame_len >= 1,
{
    let limit = (10_000 * frame_len + sample_rate - 1) / sample_rate;
    if limit <= n_bins {
        limit
    } else {
        n_bins
    }
}

/// Bin `i`'s frequency lies strictly below the 10 kHz ceiling, compared as
/// exact rationals by cross-multiplication.
pub open spec fn below_ceiling(i: int, sample_rate: int, frame_len: int) -> bool {
    i * sample_rate < 10_000 * frame_len
}

/// The audible prefix is exactly the bins whose frequency lies below the
/// ceiling: every counted bin is below it, and the count stops only at the
/// bin total or at the first bin at or above it.
pub proof fn lemma_audible_count_correct(n_bins: int, sample_rate: int, frame_len: int)
    requires
        n_bins >= 0,
        sample_rate >= 1,
        frame_len >= 1,
    ensures
        0 <= audible_count(n_bins, sample_rate, frame_len) <= n_bins,
        forall|i: int|
            0 <= i < audible_count(n_bins, sample_rate, frame_len) ==> below_ceiling(
                i,
                sample_rate,
                frame_len,
            ),
        audible_count(n_bins, sample_rate, frame_len) == n_bins || audible_count(
            n_bins,
            sample_rate,
            frame_len,
        ) * sample_rate >= 10_000 * frame_len,
{
    let ceiling = 10_000 * frame_len;
    let c = (ceiling + sample_rate - 1) / sample_rate;
    vstd::arithmetic::div_mod::lemma_fundamental_div_mod(ceiling + sample_rate - 1, sample_rate);
    vstd::arithmetic::div_mod::lemma_mod_division_less_than_divisor(
        ceiling + sample_rate - 1,
        sample_rate,
    );
    let m = (ceiling + sample_rate - 1) % sample_rate;
    assert(ceiling + sample_rate - 1 == sample_rate * c + m);
    assert(c >= 0) by (nonlinear_arith)
        requires
            sample_rate * c + m >= sample_rate - 1,
            0 <= m < sample_rate,
            sample_rate >= 1,
    ;
    assert(sample_rate * c >= ceiling) by {
        assert(sample_rate * c == ceiling + sample_rate - 1 - m);
    }
    assert forall|i: int|
        0 <= i < audible_count(n_bins, sample_rate, frame_len) implies below_ceiling(
        i,
        sample_rate,
        frame_len,
    ) by {
        assert(i < c);
        assert(i * sample_rate <= (c - 1) * sample_rate) by (nonlinear_arith)
            requires i < c && sample_rate >= 1;
        assert((c - 1) * sample_rate == sample_rate * c - sample_rate) by (nonlinear_arith);
        assert(sample_rate * c - sample_rate == ceiling - 1 - m);
    }
    if audible_count(n_bins, sample_rate, frame_len) != n_bins {
        assert(audible_count(n_bins, sample_rate, frame_len) == c);
        assert(c * sample_rate == sample_rate * c) by (nonlinear_arith);
    }
}

/// The size of each of the 32 chunks the audible bins split into.
pub open spec fn chunk_size(count: int) -> int {
    count / 32
}

/// Bucket `j` of a trimmed magnitude sequence: the clamped, scaled sum of
/// chunk `j`, or zero when the chunks are empty.
pub open spec fn bucket_value(trimmed: Seq<u32>, cs: int, j: int) -> u16
    recommends
        cs >= 0,
        0 <= j < 32,
        32 * cs <= trimmed.len(),
{
    if cs == 0 {
        0u16
    } else {
        scale_to_u16(sum_mags(trimmed.subrange(j * cs, (j + 1) * cs)))
    }
}

/// Bucket `j` of a spectral summary: the audible bins, chunked and scaled.
pub open spec fn spec_bucket(spectrum: SpectrumResult, j: int) -> u16 {
    let count = audible_count(
        spectrum.mags@.len() as int,
        spectrum.sample_rate as int,
        spectrum.frame_len as int,
    );
    bucket_value(spectrum.mags@.take(count), chunk_size(count), j)
}

/// The audible count lies within the bins, and 32 whole chunks fit in it.
proof fn lemma_count_bounds(n_bins: int, sample_rate: int, frame_len: int)
    requires
        n_bins >= 0,
        sample_rate >= 1,
        frame_len >= 1,
    ensures
        0 <= audible_count(n_bins, sample_rate, frame_len) <= n_bins,
        32 * chunk_size(audible_count(n_bins, sample_rate, frame_len)) <= audible_count(
            n_bins,
            sample_rate,
            frame_len,
        ),
{
    lemma_audible_count_correct(n_bins, sample_rate, frame_len);
    let count = audible_count(n_bins, sample_rate, frame_len);
    vstd::arithmetic::div_mod::lemma_fundamental_div_mod(count, 32);
    vstd::arithmetic::div_mod::lemma_mod_division_less_than_divisor(count, 32);
}

/// Counts the audible bins of a summary.
fn audible_bins(spectrum: &SpectrumResult) -> (count: usize)
    requires
        spectrum.wf(),
    ensures
        count == audible_count(
            spectrum.mags@.len() as int,
            spectrum.sample_rate as int,
            spectrum.frame_len as int,
        ),
        count <= spectrum.mags@.len(),
{
    proof {
        lemma_count_bounds(
            spectrum.mags@.len() as int,
            spectrum.sample_rate as int,
            spectrum.frame_len as int,
        );
    }
    let numerator: u128 = 10_000u128 * (spectrum.frame_len as u128);
    let rate: u128 = spectrum.sample_rate as u128;
    let limit: u128 = (numerator + rate - 1) / rate;
    let n = spectrum.mags.len();
    if limit >= n as u128 {
        n
    } else {
        limit as usize
    }
}

/// Splits the audible bins into 32 equal chunks and returns the clamped,
/// scaled sum of each — always exactly 32 values, whatever the size of the
/// spectrum.
#[verifier::loop_isolation(false)]
pub fn bucketize(spectrum: &SpectrumResult) -> (buckets: Vec<u16>)
    requires
        spectrum.wf(),
    ensures
        buckets@.len() == 32,
        forall|j: int| 0 <= j < 32 ==> buckets@[j] == spec_bucket(*spectrum, j),
{
    let n = spectrum.mags.len();
    let count = audible_bins(spectrum);
    let cs = count / 32;
    let ghost trimmed = spectrum.mags@.take(count as int);
    proof {
        lemma_count_bounds(
            spectrum.mags@.len() as int,
            spectrum.sample_rate as int,
            spectrum.frame_len as int,
        );
        assert(trimmed.len() == count);
    }
    let mut buckets: Vec<u16> = Vec::new();
    let mut j: usize = 0;
    while j < 32
        invariant
            j <= 32,
            buckets@.len() == j,
            forall|q: int| 0 <= q < j ==> buckets@[q] == bucket_value(trimmed, cs as int, q),
        decreases 32 - j,
    {
        if cs == 0 {
            buckets.push(0u16);
        } else {
            proof {
                assert((j + 1) * cs <= 32 * cs) by (nonlinear_arith)
                    requires j < 32 && cs >= 0;
                assert(j * cs < (j + 1) * cs) by (nonlinear_arith)
                    requires cs >= 1;
                assert(j * cs + cs == (j + 1) * cs) by (nonlinear_arith);
            }
            let start = j * cs;
            let end = start + cs;
            let mut idx = start;
            let mut acc: u64 = 0;
            while idx < end
                invariant
                    start <= idx <= end,
                    acc <= 0x1_0000,
                    acc <= 0xffff ==> acc == sum_mags(
                        trimmed.subrange(start as int, idx as int),
                    ),
                    acc == 0x1_0000 ==> sum_mags(trimmed.subrange(start as int, idx as int))
                        >= 0x1_0000,
                decreases end - idx,
            {
                proof {
                    assert(trimmed.subrange(start as int, idx + 1).drop_last() =~= trimmed.subrange(
                        start as int,
                        idx as int,
                    ));
                    assert(trimmed.subrange(start as int, idx + 1).last() == trimmed[idx as int]);
                    assert(trimmed[idx as int] == spectrum.mags@[idx as int]);
                }
                acc = acc + spectrum.mags[idx] as u64;
                if acc > 0xffff {
                    acc = 0x1_0000;
                }
                idx += 1;
            }
            let scaled: u16 = if acc >= 0xffff {
                0xffff
            } else {
                acc as u16
            };
            proof {
                assert(scaled == scale_to_u16(sum_mags(trimmed.subrange(start as int, end as int))));
            }
            buckets.push(scaled);
        }
        j += 1;
    }
    buckets
}

/// Builds the reading a completed frame yields: the 32 buckets plus the
/// three scalar summaries, each independently clamped and scaled.
pub fn to_audio_data(spectrum: &SpectrumResult) -> (audio: AudioData)
    requires
        spectrum.wf(),
    ensures
        forall|j: int| 0 <= j < 32 ==> audio.freq_buckets@[j] == spec_bucket(*spectrum, j),
        audio.energy_avg == scale_to_u16(spectrum.avg as nat),
        audio.max_freq_magnitude == scale_to_u16(
            spectrum.mags@[spectrum.max_index as int] as nat,
        ),
        audio.max_freq == scaled_bin_freq(
            spectrum.max_index as int,
            spectrum.sample_rate as int,
            spectrum.frame_len as int,
        ),
{
    let buckets = bucketize(spectrum);
    let mut freq_buckets = [0u16; 32];
    let mut k: usize = 0;
    while k < 32
        invariant
            k <= 32,
            buckets@.len() == 32,
            forall|j: int| 0 <= j < k ==> freq_buckets@[j] == buckets@[j],
            forall|j: int| 0 <= j < 32 ==> buckets@[j] == spec_bucket(*spectrum, j),
        decreases 32 - k,
    {
        freq_buckets[k] = buckets[k];
        k += 1;
    }
    AudioData {
        freq_buckets,
        energy_avg: scale_magnitude(spectrum.avg),
        max_freq_magnitude: scale_magnitude(spectrum.max_magnitude()),
        max_freq: scale_frequency(spectrum.max_index, spectrum.sample_rate, spectrum.frame_len),
    }
}

/// The sum of a constant sequence is the count times the constant.
proof fn lemma_sum_const(mags: Seq<u32>, v: u32)
    requires
        forall|i: int| 0 <= i < mags.len() ==> mags[i] == v,
    ensures
        sum_mags(mags) == mags.len() * v,
    decreases mags.len(),
{
    if mags.len() == 0 {
        assert(mags.len() * v == 0) by (nonlinear_arith)
            requires mags.len() == 0;
    } else {
        lemma_sum_const(mags.drop_last(), v);
        assert((mags.len() - 1) * v + v == mags.len() * v) by (nonlinear_arith)
            requires mags.len() >= 1;
    }
}

/// Silence scales to zero: when every bin magnitude is zero, every bucket
/// is zero, and so are the scaled average energy and the scaled dominant
/// magnitude. (No scaled output can exceed 65535 in any case: the scaled
/// range is unsigned 16-bit by construction.)
pub proof fn lemma_buckets_zero_on_silence(spectrum: SpectrumResult)
    requires
        spectrum.wf(),
        forall|i: int| 0 <= i < spectrum.mags@.len() ==> spectrum.mags@[i] == 0,
    ensures
        forall|j: int| 0 <= j < 32 ==> spec_bucket(spectrum, j) == 0,
        scale_to_u16(spectrum.avg as nat) == 0,
        scale_to_u16(spectrum.mags@[spectrum.max_index as int] as nat) == 0,
{
    let n = spectrum.mags@.len() as int;
    lemma_count_bounds(n, spectrum.sample_rate as int, spectrum.frame_len as int);
    let count = audible_count(n, spectrum.sample_rate as int, spectrum.frame_len as int);
    let trimmed = spectrum.mags@.take(count);
    let cs = chunk_size(count);
    lemma_sum_const(spectrum.mags@, 0);
    assert(spectrum.mags@.len() * 0 == 0) by (nonlinear_arith);
    assert(spectrum.avg == sum_mags(spectrum.mags@) / spectrum.mags@.len());
    assert(spectrum.avg == 0) by {
        vstd::arithmetic::div_mod::lemma_div_of0(n);
    }
    assert forall|j: int| 0 <= j < 32 implies spec_bucket(spectrum, j) == 0 by {
        if cs != 0 {
            let chunk = trimmed.subrange(j * cs, (j + 1) * cs);
            assert((j + 1) * cs <= 32 * cs) by (nonlinear_arith)
                requires j < 32 && cs >= 0;
            assert(j * cs >= 0) by (nonlinear_arith)
                requires j >= 0 && cs >= 0;
            assert(j * cs + cs == (j + 1) * cs) by (nonlinear_arith);
            assert forall|x: int| 0 <= x < chunk.len() implies chunk[x] == 0 by {
                assert(chunk[x] == trimmed[j * cs + x]);
                assert(trimmed[j * cs + x] == spectrum.mags@[j * cs + x]);
            }
            lemma_sum_const(chunk, 0);
            assert(chunk.len() * 0 == 0) by (nonlinear_arith);
        }
    }
}

/// A uniform full-scale spectrum saturates: when every bin magnitude is
/// 1.0 and the audible bins fill every chunk, every bucket scales to 65535,
/// and so does the scaled average energy.
pub proof fn lemma_buckets_full_on_uniform(spectrum: SpectrumResult)
    requires
        spectrum.wf(),
        forall|i: int| 0 <= i < spectrum.mags@.len() ==> spectrum.mags@[i] == 0xffffu32,
        chunk_size(
            audible_count(
                spectrum.mags@.len() as int,
                spectrum.sample_rate as int,
                spectrum.frame_len as int,
            ),
        ) >= 1,
    ensures
        forall|j: int| 0 <= j < 32 ==> spec_bucket(spectrum, j) == 0xffff,
        scale_to_u16(spectrum.avg as nat) == 0xffff,
{
    let n = spectrum.mags@.len() as int;
    lemma_count_bounds(n, spectrum.sample_rate as int, spectrum.frame_len as int);
    let count = audible_count(n, spectrum.sample_rate as int, spectrum.frame_len as int);
    let trimmed = spectrum.mags@.take(count);
    let cs = chunk_size(count);
    lemma_sum_const(spectrum.mags@, 0xffff);
    assert(spectrum.avg == sum_mags(spectrum.mags@) / spectrum.mags@.len());
    assert(sum_mags(spectrum.mags@) == n * 0xffff);
    assert((n * 0xffff) / n == 0xffff) by {
        vstd::arithmetic::div_mod::lemma_div_multiples_vanish(0xffff, n);
        assert(n * 0xffff == 0xffff * n) by (nonlinear_arith);
    }
    assert(spectrum.avg == 0xffff);
    assert forall|j: int| 0 <= j < 32 implies spec_bucket(spectrum, j) == 0xffff by {
        let chunk = trimmed.subrange(j * cs, (j + 1) * cs);
        assert((j + 1) * cs <= 32 * cs) by (nonlinear_arith)
            requires j < 32 && cs >= 0;
        assert(j * cs >= 0) by (nonlinear_arith)
            requires j >= 0 && cs >= 0;
        assert(j * cs < (j + 1) * cs) by (nonlinear_arith)
            requires cs >= 1;
        assert(j * cs + cs == (j + 1) * cs) by (nonlinear_arith);
        assert forall|x: int| 0 <= x < chunk.len() implies chunk[x] == 0xffffu32 by {
            assert(chunk[x] == trimmed[j * cs + x]);
            assert(trimmed[j * cs + x] == spectrum.mags@[j * cs + x]);
        }
        lemma_sum_const(chunk, 0xffff);
        assert(chunk.len() == cs);
        assert(cs * 0xffff >= 0xffff) by (nonlinear_arith)
            requires cs >= 1;
    }
}

} // verus!

//! The spectral summary. The frequency transform itself — windowing a frame
//! of real samples and turning it into half-spectrum magnitude bins, each
//! normalized by the frame length — is an external capability supplied by
//! the caller. Its output enters here as fixed-point magnitudes: a `u32`
//! counts units of 1/65535, so `FULL_SCALE` stands for a magnitude of 1.0.
//! From those bins this module derives the scalar summaries (average
//! magnitude, dominant bin) and the clamp-and-scale rule that maps a
//! magnitude onto the full unsigned 16-bit range.

use vstd::prelude::*;

verus! {

/// The fixed-point image of magnitude 1.0; also the top of the scaled range.
pub const FULL_SCALE: u32 = 0xffff;

/// The sum of a sequence of fixed-point magnitudes.
pub open spec fn sum_mags(mags: Seq<u32>) -> nat
    decreases mags.len(),
{
    if mags.len() == 0 {
        0
    } else {
        sum_mags(mags.drop_last()) + mags.last() as nat
    }
}

/// `i` is the index of the largest magnitude, first occurrence on ties.
pub open spec fn is_first_max(mags: Seq<u32>, i: int) -> bool {
    &&& 0 <= i < mags.len()
    &&& forall|j: int| 0 <= j < mags.len() ==> mags[j] <= mags[i]
    &&& forall|j: int| 0 <= j < i ==> mags[j] < mags[i]
}

/// Clamp to 1.0 and scale onto the unsigned 16-bit range. In fixed point
/// the linear map collapses to a saturation: values at or above 1.0 give
/// 65535, anything below is already its own scaled image. Values beyond
/// 1.0 neither wrap nor panic.
pub open spec fn scale_to_u16(v: nat) -> u16 {
    if v >= 0xffff {
        0xffff
    } else {
        v as u16
    }
}

/// The dominant-frequency summary: bin `index` stands for the frequency
/// `index * sample_rate / frame_len` Hz, which is clamped to [0, 1] and
/// scaled, truncating, onto the 16-bit range — so any dominant frequency of
/// 1 Hz or more saturates at 65535, exactly as the clamp rule demands.
pub open spec fn scaled_bin_freq(index: int, sample_rate: int, frame_len: int) -> int
    recommends
        index >= 0,
        sample_rate >= 1,
        frame_len >= 1,
{
    let scaled = index * sample_rate * 0xffff / frame_len;
    if scaled >= 0xffff {
        0xffff
    } else {
        scaled
    }
}

/// The half-spectrum of one analysis frame, with its derived summaries.
/// Bin `i` covers the frequency `i * sample_rate / frame_len` Hz, so the
/// bin frequencies strictly increase with the index; magnitudes are
/// non-negative fixed-point values.
pub struct SpectrumResult {
    pub mags: Vec<u32>,
    pub sample_rate: u32,
    pub frame_len: usize,
    pub avg: u32,
    pub max_index: usize,
}

impl SpectrumResult {
    /// A valid summary: one bin per two samples of the transformed frame, a
    /// real sample rate, the average exact, and the dominant bin the first
    /// maximum.
    pub open spec fn wf(&self) -> bool {
        &&& self.mags@.len() >= 1
        &&& self.sample_rate >= 1
        &&& self.frame_len == 2 * self.mags@.len()
        &&& self.avg == sum_mags(self.mags@) / self.mags@.len()
        &&& is_first_max(self.mags@, self.max_index as int)
    }

    /// The magnitude of the dominant bin.
    pub fn max_magnitude(&self) -> (m: u32)
        requires
            self.wf(),
        ensures
            m == self.mags@[self.max_index as int],
    {
        self.mags[self.max_index]
    }
}

/// A sum of magnitudes is at most the count times the largest value a
/// magnitude can take.
proof fn lemma_sum_mags_bound(mags: Seq<u32>)
    ensures
        sum_mags(mags) <= mags.len() * 0xffff_ffff,
    decreases mags.len(),
{
    if mags.len() == 0 {
    } else {
        lemma_sum_mags_bound(mags.drop_last());
        assert((mags.len() - 1) * 0xffff_ffff + 0xffff_ffff == mags.len() * 0xffff_ffff)
            by (nonlinear_arith)
            requires mags.len() >= 1;
    }
}

/// Builds the spectral summary from the transform's magnitude bins: the
/// arithmetic mean of all bins (truncating) and the dominant bin, first
/// occurrence on ties. `frame_len` is the length of the transformed frame
/// the bins came from, two samples per bin.
pub fn analyze(mags: Vec<u32>, sample_rate: u32, frame_len: usize) -> (spectrum: SpectrumResult)
    requires
        mags@.len() >= 1,
        sample_rate >= 1,
        frame_len == 2 * mags@.len(),
    ensures
        spectrum.wf(),
        spectrum.mags@ == mags@,
        spectrum.sample_rate == sample_rate,
        spectrum.frame_len == frame_len,
{
    let n = mags.len();
    let mut total: u128 = 0;
    let mut i: usize = 0;
    while i < n
        invariant
            i <= n,
            n == mags@.len(),
            total == sum_mags(mags@.take(i as int)),
            total <= i as int * 0xffff_ffff,
        decreases n - i,
    {
        proof {
            assert(i as int * 0xffff_ffff + 0xffff_ffff == (i + 1) as int * 0xffff_ffff)
                by (nonlinear_arith);
            assert(i as int * 0xffff_ffff <= 0xffff_ffff_ffff_ffff * 0xffff_ffff)
                by (nonlinear_arith)
                requires 0 <= i as int <= 0xffff_ffff_ffff_ffff;
            assert(mags@.take(i + 1).drop_last() =~= mags@.take(i as int));
        }
        total = total + mags[i] as u128;
        i += 1;
    }
    proof {
        assert(mags@.take(n as int) =~= mags@);
        lemma_sum_mags_bound(mags@);
        vstd::arithmetic::div_mod::lemma_multiply_divide_le(
            total as int,
            n as int,
            0xffff_ffff as int,
        );
        assert(n as int * 0xffff_ffff == mags@.len() * 0xffff_ffff);
    }
    let avg: u32 = (total / n as u128) as u32;

    let mut max_index: usize = 0;
    let mut i: usize = 1;
    while i < n
        invariant
            1 <= i <= n,
            n == mags@.len(),
            max_index < i,
            forall|j: int| 0 <= j < i ==> mags@[j] <= mags@[max_index as int],
            forall|j: int| 0 <= j < max_index ==> mags@[j] < mags@[max_index as int],
        decreases n - i,
    {
        if mags[i] > mags[max_index] {
            max_index = i;
        }
        i += 1;
    }
    SpectrumResult { mags, sample_rate, frame_len, avg, max_index }
}

/// The scaled image of a fixed-point magnitude.
pub fn scale_magnitude(v: u32) -> (scaled: u16)
    ensures
        scaled == scale_to_u16(v as nat),
{
    if v >= 0xffff {
        0xffff
    } else {
        v as u16
    }
}

/// The scaled image of bin `index`'s frequency (see `scaled_bin_freq`).
pub fn scale_frequency(index: usize, sample_rate: u32, frame_len: usize) -> (scaled: u16)
    requires
        sample_rate >= 1,
        frame_len >= 1,
    ensures
        scaled == scaled_bin_freq(index as int, sample_rate as int, frame_len as int),
{
    proof {
        assert(index as int * sample_rate as int <= 0xffff_ffff_ffff_ffff * 0xffff_ffff)
            by (nonlinear_arith)
            requires
                0 <= index as int <= 0xffff_ffff_ffff_ffff,
                0 <= sample_rate as int <= 0xffff_ffff,
        ;
        assert(0xffff_ffff_ffff_ffff * 0xffff_ffff * 0xffff < u128::MAX) by (nonlinear_arith);
        assert(index as int * sample_rate as int * 0xffff <= 0xffff_ffff_ffff_ffff * 0xffff_ffff
            * 0xffff) by (nonlinear_arith)
            requires
                0 <= index as int * sample_rate as int <= 0xffff_ffff_ffff_ffff * 0xffff_ffff,
        ;
    }
    let num: u128 = (index as u128) * (sample_rate as u128) * 0xffff;
    let q: u128 = num / (frame_len as u128);
    if q >= 0xffff {
        0xffff
    } else {
        q as u16
    }
}

/// Bin frequencies strictly increase with the bin index: for a positive
/// sample rate, a later bin always stands for a strictly higher frequency
/// (compared as exact rationals, by cross-multiplication).
pub proof fn lemma_bin_frequencies_increase(i: int, j: int, sample_rate: int)
    requires
        0 <= i < j,
        sample_rate >= 1,
    ensures
        i * sample_rate < j * sample_rate,
{
    assert(i * sample_rate < j * sample_rate) by (nonlinear_arith)
        requires 0 <= i < j && sample_rate >= 1;
}

} // verus!

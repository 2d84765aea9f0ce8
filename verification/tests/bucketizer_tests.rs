use pixelblaze_rs::bucketizer::{bucketize, to_audio_data};
use pixelblaze_rs::spectrum::analyze;

#[test]
fn always_exactly_32_buckets_even_for_tiny_spectra() {
    // 4 bins cannot fill 32 chunks: every bucket is zero, but there are
    // still exactly 32 of them.
    let spectrum = analyze(vec![7, 7, 7, 7], 48000, 8);
    let buckets = bucketize(&spectrum);
    assert_eq!(buckets.len(), 32);
    assert!(buckets.iter().all(|&b| b == 0));
}

#[test]
fn always_exactly_32_buckets_for_large_spectra() {
    let spectrum = analyze(vec![1; 2048], 48000, 4096);
    assert_eq!(bucketize(&spectrum).len(), 32);
}

#[test]
fn uniform_full_scale_saturates_every_bucket() {
    // 48 kHz over 2048 samples: 1024 bins, 427 below 10 kHz, 13 per chunk.
    // Every bin at full scale sums past 1.0 in every chunk, so every bucket
    // clamps to 65535 — and so does the scaled average energy.
    let spectrum = analyze(vec![0xffff; 1024], 48000, 2048);
    let audio = to_audio_data(&spectrum);
    assert!(audio.freq_buckets.iter().all(|&b| b == 0xffff));
    assert_eq!(audio.energy_avg, 0xffff);
    assert_eq!(audio.max_freq_magnitude, 0xffff);
}

#[test]
fn all_zero_spectrum_scales_to_zero() {
    let spectrum = analyze(vec![0; 1024], 48000, 2048);
    let audio = to_audio_data(&spectrum);
    assert!(audio.freq_buckets.iter().all(|&b| b == 0));
    assert_eq!(audio.energy_avg, 0);
    assert_eq!(audio.max_freq_magnitude, 0);
    assert_eq!(audio.max_freq, 0);
}

#[test]
fn bucket_values_are_chunk_sums() {
    // 64 bins at 20 kHz over a 128-sample frame: the audible limit is
    // ceil(10000 * 128 / 20000) = 64, so all bins count and each of the 32
    // chunks holds two. With bin i carrying magnitude i, bucket j sums
    // 2j + (2j + 1) = 4j + 1.
    let mags: Vec<u32> = (0u32..64).collect();
    let spectrum = analyze(mags, 20_000, 128);
    let buckets = bucketize(&spectrum);
    assert_eq!(buckets.len(), 32);
    for (j, &b) in buckets.iter().enumerate() {
        assert_eq!(b as u32, 4 * j as u32 + 1);
    }
}

#[test]
fn oversized_chunk_sum_clamps() {
    // One bin far beyond full scale: its chunk clamps to 65535 and no
    // value wraps.
    let mut mags = vec![0u32; 64];
    mags[0] = 1_000_000;
    let spectrum = analyze(mags, 20_000, 128);
    let buckets = bucketize(&spectrum);
    assert_eq!(buckets[0], 0xffff);
    assert!(buckets[1..].iter().all(|&b| b == 0));
}

#[test]
fn remainder_bins_are_dropped() {
    // 20 kHz over 132 samples: 66 bins, audible limit ceil(1320000/20000)
    // = 66, chunk size 66 / 32 = 2: the trailing two bins fall off. Put
    // weight only there and every bucket stays zero.
    let mut mags = vec![0u32; 66];
    mags[64] = 500;
    mags[65] = 500;
    let spectrum = analyze(mags, 20_000, 132);
    let buckets = bucketize(&spectrum);
    assert_eq!(buckets.len(), 32);
    assert!(buckets.iter().all(|&b| b == 0));
}

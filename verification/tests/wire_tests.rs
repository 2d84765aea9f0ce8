use pixelblaze_rs::bucketizer::to_audio_data;
use pixelblaze_rs::protocol::decode_reading;
use pixelblaze_rs::sensor::{AudioData, SensorClient};
use pixelblaze_rs::spectrum::analyze;

fn sample_audio() -> AudioData {
    let mut freq_buckets = [0u16; 32];
    for (k, b) in freq_buckets.iter_mut().enumerate() {
        *b = 1000 + 7 * k as u16;
    }
    AudioData { freq_buckets, energy_avg: 4321, max_freq_magnitude: 65535, max_freq: 12345 }
}

#[test]
fn frame_is_104_bytes_with_fixed_header() {
    let client = SensorClient::new(89);
    let frame = client.encode_frame(&sample_audio(), &[0; 3], 0, &[0; 5], 0xdead_beef);
    assert_eq!(frame.len(), 104);
    // Packet type 50, little-endian.
    assert_eq!(&frame[0..4], &[50, 0, 0, 0]);
    // Sender identity 89, little-endian.
    assert_eq!(&frame[4..8], &[89, 0, 0, 0]);
    // Timestamp, little-endian.
    assert_eq!(&frame[8..12], &[0xef, 0xbe, 0xad, 0xde]);
    // Board tag, then three padding bytes this encoder zeroes.
    assert_eq!(frame[12], 1);
    assert_eq!(&frame[13..16], &[0, 0, 0]);
}

#[test]
fn bucket_bytes_sit_at_their_offsets() {
    let client = SensorClient::new(1);
    let audio = sample_audio();
    let frame = client.encode_frame(&audio, &[0; 3], 0, &[0; 5], 0);
    for k in 0..32 {
        let lo = frame[16 + 2 * k] as u16;
        let hi = frame[16 + 2 * k + 1] as u16;
        assert_eq!(lo + (hi << 8), audio.freq_buckets[k]);
    }
    assert_eq!(frame[80] as u16 + ((frame[81] as u16) << 8), 4321);
    assert_eq!(frame[82], 0xff);
    assert_eq!(frame[83], 0xff);
    assert_eq!(frame[84] as u16 + ((frame[85] as u16) << 8), 12345);
}

#[test]
fn decoding_recovers_the_encoded_reading() {
    let client = SensorClient::new(0x0102_0304);
    let audio = sample_audio();
    let accel: [i16; 3] = [-1, 2, -32768];
    let analog: [u16; 5] = [11, 22, 33, 44, 55];
    let frame = client.encode_frame(&audio, &accel, 777, &analog, 123_456_789);
    let reading = decode_reading(&frame).expect("a 104-byte frame decodes");
    assert_eq!(reading.frame_type, 50);
    assert_eq!(reading.sender_id, 0x0102_0304);
    assert_eq!(reading.ts_millis, 123_456_789);
    assert_eq!(reading.board_tag, 1);
    assert_eq!(reading.audio.freq_buckets, audio.freq_buckets);
    assert_eq!(reading.audio.energy_avg, audio.energy_avg);
    assert_eq!(reading.audio.max_freq_magnitude, audio.max_freq_magnitude);
    assert_eq!(reading.audio.max_freq, audio.max_freq);
    assert_eq!(reading.accel, accel);
    assert_eq!(reading.light, 777);
    assert_eq!(reading.analog, analog);
}

#[test]
fn decoding_rejects_every_other_length() {
    assert!(decode_reading(&vec![0u8; 103]).is_none());
    assert!(decode_reading(&vec![0u8; 105]).is_none());
    assert!(decode_reading(&Vec::new()).is_none());
    assert!(decode_reading(&vec![0u8; 104]).is_some());
}

#[test]
fn zero_frame_yields_all_zero_sensor_bytes() {
    // Frame size 1024 at 48 kHz, pure silence: the transform of an all-zero
    // frame is 512 all-zero bins. Every bucket is zero, the average is
    // zero, and the dominant bin ties at index 0, so its frequency scales
    // to zero too. The encoded frame is 104 bytes with the bucket region
    // all zero.
    let spectrum = analyze(vec![0u32; 512], 48000, 1024);
    let audio = to_audio_data(&spectrum);
    assert!(audio.freq_buckets.iter().all(|&b| b == 0));
    assert_eq!(audio.energy_avg, 0);
    assert_eq!(audio.max_freq_magnitude, 0);
    assert_eq!(audio.max_freq, 0);
    let client = SensorClient::new(89);
    let frame = client.encode_frame(&audio, &[0; 3], 0, &[0; 5], 4242);
    assert_eq!(frame.len(), 104);
    assert!(frame[16..80].iter().all(|&b| b == 0));
}

//! The wire format: one sensor reading is encoded as a fixed 104-byte
//! little-endian frame — a 16-byte header (packet type, sender id, timestamp,
//! board tag, three padding bytes) followed by 44 little-endian 16-bit data
//! words (32 frequency buckets, three scalar summaries, three accelerometer
//! axes, a light value, five analog channels). Encoding is pure; a decoder
//! is provided so the layout is checked both ways.

use vstd::prelude::*;

use crate::sensor::AudioData;

verus! {

/// Total size in bytes of one encoded frame: 16 header bytes plus 88 data bytes.
pub const FRAME_BYTES: usize = 104;

/// The constant packet-type tag identifying a sensor-data frame.
pub const SENSOR_FRAME_TYPE: u32 = 50;

/// Wire tag at byte 12 naming the expansion-board layout the data follows.
pub const BOARD_TAG: u8 = 1;

/// The unsigned 16-bit value stored little-endian at byte offset `off`.
pub open spec fn word_at(frame: Seq<u8>, off: int) -> int
    recommends
        0 <= off,
        off + 2 <= frame.len(),
{
    frame[off] + 0x100 * frame[off + 1]
}

/// The unsigned 32-bit value stored little-endian at byte offset `off`.
pub open spec fn dword_at(frame: Seq<u8>, off: int) -> int
    recommends
        0 <= off,
        off + 4 <= frame.len(),
{
    frame[off] + 0x100 * frame[off + 1] + 0x1_0000 * frame[off + 2] + 0x100_0000 * frame[off + 3]
}

/// Data word `k` of a frame: the 16-bit value at byte offset `16 + 2 * k`.
pub open spec fn data_word(frame: Seq<u8>, k: int) -> int
    recommends
        0 <= k < 44,
        frame.len() == 104,
{
    word_at(frame, 16 + 2 * k)
}

/// The two's-complement unsigned image of a signed 16-bit value.
pub open spec fn unsigned16(v: i16) -> int {
    if v >= 0 {
        v as int
    } else {
        v + 0x1_0000
    }
}

/// Data word `k` of a reading, in wire order: words 0 to 31 are the
/// frequency buckets (low to high); 32, 33 and 34 the scaled average energy,
/// dominant magnitude and dominant frequency; 35 to 37 the accelerometer
/// axes as unsigned images; 38 the light value; 39 to 43 the analog
/// channels.
pub open spec fn reading_word(
    audio: AudioData,
    accel: [i16; 3],
    light: u16,
    analog: [u16; 5],
    k: int,
) -> int
    recommends
        0 <= k < 44,
{
    if 0 <= k < 32 {
        audio.freq_buckets@[k] as int
    } else if k == 32 {
        audio.energy_avg as int
    } else if k == 33 {
        audio.max_freq_magnitude as int
    } else if k == 34 {
        audio.max_freq as int
    } else if 35 <= k < 38 {
        unsigned16(accel@[k - 35])
    } else if k == 38 {
        light as int
    } else {
        analog@[k - 39] as int
    }
}

/// What it means for `frame` to be the wire encoding of a reading. The three
/// padding bytes at offsets 13 to 15 are left unconstrained: the receiver
/// ignores them, and this encoder happens to write zeros there.
pub open spec fn encodes(
    frame: Seq<u8>,
    frame_type: u32,
    sender_id: u32,
    ts_millis: u32,
    audio: AudioData,
    accel: [i16; 3],
    light: u16,
    analog: [u16; 5],
) -> bool {
    &&& frame.len() == 104
    &&& dword_at(frame, 0) == frame_type
    &&& dword_at(frame, 4) == sender_id
    &&& dword_at(frame, 8) == ts_millis
    &&& frame[12] == BOARD_TAG
    &&& forall|k: int|
        0 <= k < 44 ==> data_word(frame, k) == reading_word(audio, accel, light, analog, k)
}

/// Every field a frame carries, recovered by the decoder.
pub struct DecodedReading {
    pub frame_type: u32,
    pub sender_id: u32,
    pub ts_millis: u32,
    pub board_tag: u8,
    pub audio: AudioData,
    pub accel: [i16; 3],
    pub light: u16,
    pub analog: [u16; 5],
}

/// What it means for `reading` to be the decoding of `frame`: every field
/// equals the value stored at its fixed offset.
pub open spec fn decodes_to(frame: Seq<u8>, reading: DecodedReading) -> bool {
    &&& frame.len() == 104
    &&& reading.frame_type == dword_at(frame, 0)
    &&& reading.sender_id == dword_at(frame, 4)
    &&& reading.ts_millis == dword_at(frame, 8)
    &&& reading.board_tag == frame[12]
    &&& forall|k: int|
        0 <= k < 44 ==> reading_word(reading.audio, reading.accel, reading.light, reading.analog, k)
            == data_word(frame, k)
}

/// A 16-bit value is exactly its low byte plus 256 times its high byte.
proof fn lemma_u16_le_parts(v: u16)
    ensures
        v & 0xff < 0x100,
        v >> 8 < 0x100,
        (v & 0xff) + 0x100 * (v >> 8) == v,
{
    assert(v & 0xff < 0x100) by (bit_vector);
    assert(v >> 8 < 0x100) by (bit_vector);
    assert((v & 0xff) + 0x100 * (v >> 8) == v) by (bit_vector);
}

/// A 32-bit value is exactly the little-endian sum of its four bytes.
proof fn lemma_u32_le_parts(v: u32)
    ensures
        v & 0xff < 0x100,
        (v >> 8) & 0xff < 0x100,
        (v >> 16) & 0xff < 0x100,
        v >> 24 < 0x100,
        (v & 0xff) + 0x100 * ((v >> 8) & 0xff) + 0x1_0000 * ((v >> 16) & 0xff) + 0x100_0000 * (v
            >> 24) == v,
{
    assert(v & 0xff < 0x100) by (bit_vector);
    assert((v >> 8) & 0xff < 0x100) by (bit_vector);
    assert((v >> 16) & 0xff < 0x100) by (bit_vector);
    assert(v >> 24 < 0x100) by (bit_vector);
    assert((v & 0xff) + 0x100 * ((v >> 8) & 0xff) + 0x1_0000 * ((v >> 16) & 0xff) + 0x100_0000 * (
    v >> 24) == v) by (bit_vector);
}

/// Appends a 16-bit value in little-endian order.
fn push_u16_le(out: &mut Vec<u8>, v: u16)
    ensures
        final(out)@.len() == old(out)@.len() + 2,
        forall|i: int| 0 <= i < old(out)@.len() ==> final(out)@[i] == old(out)@[i],
        word_at(final(out)@, old(out)@.len() as int) == v,
{
    proof {
        lemma_u16_le_parts(v);
    }
    let lo: u8 = (v & 0xff) as u8;
    let hi: u8 = (v >> 8) as u8;
    out.push(lo);
    out.push(hi);
}

/// Appends a 32-bit value in little-endian order.
fn push_u32_le(out: &mut Vec<u8>, v: u32)
    ensures
        final(out)@.len() == old(out)@.len() + 4,
        forall|i: int| 0 <= i < old(out)@.len() ==> final(out)@[i] == old(out)@[i],
        dword_at(final(out)@, old(out)@.len() as int) == v,
{
    proof {
        lemma_u32_le_parts(v);
    }
    let b0: u8 = (v & 0xff) as u8;
    let b1: u8 = ((v >> 8) & 0xff) as u8;
    let b2: u8 = ((v >> 16) & 0xff) as u8;
    let b3: u8 = (v >> 24) as u8;
    out.push(b0);
    out.push(b1);
    out.push(b2);
    out.push(b3);
}

/// The unsigned wire image of a signed accelerometer value.
fn to_unsigned16(v: i16) -> (u: u16)
    ensures
        u == unsigned16(v),
{
    if v >= 0 {
        v as u16
    } else {
        ((v as i32) + 0x1_0000) as u16
    }
}

/// Computes data word `k` of a reading.
fn compute_reading_word(
    audio: &AudioData,
    accel: &[i16; 3],
    light: u16,
    analog: &[u16; 5],
    k: usize,
) -> (w: u16)
    requires
        k < 44,
    ensures
        w == reading_word(*audio, *accel, light, *analog, k as int),
{
    if k < 32 {
        audio.freq_buckets[k]
    } else if k == 32 {
        audio.energy_avg
    } else if k == 33 {
        audio.max_freq_magnitude
    } else if k == 34 {
        audio.max_freq
    } else if k < 38 {
        to_unsigned16(accel[k - 35])
    } else if k == 38 {
        light
    } else {
        analog[k - 39]
    }
}

/// Encodes one reading as the fixed 104-byte frame described at the top of
/// this module. Pure and deterministic; the padding bytes are written as
/// zeros.
#[verifier::loop_isolation(false)]
pub fn encode_reading(
    frame_type: u32,
    sender_id: u32,
    ts_millis: u32,
    audio: &AudioData,
    accel: &[i16; 3],
    light: u16,
    analog: &[u16; 5],
) -> (frame: Vec<u8>)
    ensures
        frame@.len() == 104,
        encodes(frame@, frame_type, sender_id, ts_millis, *audio, *accel, light, *analog),
        frame@[13] == 0 && frame@[14] == 0 && frame@[15] == 0,
{
    let mut frame: Vec<u8> = Vec::new();
    push_u32_le(&mut frame, frame_type);
    push_u32_le(&mut frame, sender_id);
    push_u32_le(&mut frame, ts_millis);
    frame.push(BOARD_TAG);
    frame.push(0u8);
    frame.push(0u8);
    frame.push(0u8);
    let ghost header = frame@;
    proof {
        assert(header.len() == 16);
        assert(dword_at(header, 0) == frame_type);
        assert(dword_at(header, 4) == sender_id);
        assert(dword_at(header, 8) == ts_millis);
        assert(header[12] == BOARD_TAG);
        assert(header[13] == 0 && header[14] == 0 && header[15] == 0);
    }
    let mut i: usize = 0;
    while i < 44
        invariant
            i <= 44,
            frame@.len() == 16 + 2 * i,
            header.len() == 16,
            forall|b: int| 0 <= b < 16 ==> frame@[b] == header[b],
            forall|j: int|
                0 <= j < i ==> data_word(frame@, j) == reading_word(
                    *audio,
                    *accel,
                    light,
                    *analog,
                    j,
                ),
        decreases 44 - i,
    {
        let ghost prev = frame@;
        let w = compute_reading_word(audio, accel, light, analog, i);
        push_u16_le(&mut frame, w);
        proof {
            assert forall|j: int|
                0 <= j < i + 1 implies data_word(frame@, j) == reading_word(
                *audio,
                *accel,
                light,
                *analog,
                j,
            ) by {
                if j < i as int {
                    assert(data_word(prev, j) == reading_word(*audio, *accel, light, *analog, j));
                    assert(frame@[16 + 2 * j] == prev[16 + 2 * j]);
                    assert(frame@[16 + 2 * j + 1] == prev[16 + 2 * j + 1]);
                }
            }
        }
        i += 1;
    }
    frame
}

/// Reads the 16-bit value stored little-endian at byte offset `off`.
fn read_u16_le(frame: &Vec<u8>, off: usize) -> (v: u16)
    requires
        off + 2 <= frame.len(),
    ensures
        v == word_at(frame@, off as int),
{
    (frame[off] as u16) + (frame[off + 1] as u16) * 0x100
}

/// Reads the 32-bit value stored little-endian at byte offset `off`.
fn read_u32_le(frame: &Vec<u8>, off: usize) -> (v: u32)
    requires
        off + 4 <= frame.len(),
    ensures
        v == dword_at(frame@, off as int),
{
    (frame[off] as u32) + (frame[off + 1] as u32) * 0x100 + (frame[off + 2] as u32) * 0x1_0000 + (
    frame[off + 3] as u32) * 0x100_0000
}

/// The signed value whose unsigned wire image is `w`.
fn from_unsigned16(w: u16) -> (v: i16)
    ensures
        unsigned16(v) == w,
{
    if w >= 0x8000 {
        ((w as i32) - 0x1_0000) as i16
    } else {
        w as i16
    }
}

/// Decodes a frame. Succeeds exactly when the frame has the fixed length of
/// 104 bytes; every recovered field then equals the value stored at its
/// offset.
pub fn decode_reading(frame: &Vec<u8>) -> (reading: Option<DecodedReading>)
    ensures
        reading is Some <==> frame@.len() == 104,
        reading is Some ==> decodes_to(frame@, reading->Some_0),
{
    if frame.len() != 104 {
        return None;
    }
    let frame_type = read_u32_le(frame, 0);
    let sender_id = read_u32_le(frame, 4);
    let ts_millis = read_u32_le(frame, 8);
    let board_tag = frame[12];
    let mut freq_buckets = [0u16; 32];
    let mut k: usize = 0;
    while k < 32
        invariant
            k <= 32,
            frame@.len() == 104,
            forall|j: int| 0 <= j < k ==> freq_buckets@[j] == data_word(frame@, j),
        decreases 32 - k,
    {
        freq_buckets[k] = read_u16_le(frame, 16 + 2 * k);
        k += 1;
    }
    let energy_avg = read_u16_le(frame, 80);
    let max_freq_magnitude = read_u16_le(frame, 82);
    let max_freq = read_u16_le(frame, 84);
    let accel: [i16; 3] = [
        from_unsigned16(read_u16_le(frame, 86)),
        from_unsigned16(read_u16_le(frame, 88)),
        from_unsigned16(read_u16_le(frame, 90)),
    ];
    let light = read_u16_le(frame, 92);
    let analog: [u16; 5] = [
        read_u16_le(frame, 94),
        read_u16_le(frame, 96),
        read_u16_le(frame, 98),
        read_u16_le(frame, 100),
        read_u16_le(frame, 102),
    ];
    let reading = DecodedReading {
        frame_type,
        sender_id,
        ts_millis,
        board_tag,
        audio: AudioData { freq_buckets, energy_avg, max_freq_magnitude, max_freq },
        accel,
        light,
        analog,
    };
    proof {
        assert forall|j: int|
            0 <= j < 44 implies reading_word(
            reading.audio,
            reading.accel,
            reading.light,
            reading.analog,
            j,
        ) == data_word(frame@, j) by {
            if j < 32 {
                assert(freq_buckets@[j] == data_word(frame@, j));
            }
        }
    }
    Some(reading)
}

/// Round trip: any frame that encodes a reading decodes back to exactly that
/// reading — every integer field, the sender identity and the packet-type
/// tag are recovered without loss.
pub proof fn lemma_encode_decode_round_trip(
    frame: Seq<u8>,
    frame_type: u32,
    sender_id: u32,
    ts_millis: u32,
    audio: AudioData,
    accel: [i16; 3],
    light: u16,
    analog: [u16; 5],
    reading: DecodedReading,
)
    requires
        encodes(frame, frame_type, sender_id, ts_millis, audio, accel, light, analog),
        decodes_to(frame, reading),
    ensures
        reading.frame_type == frame_type,
        reading.sender_id == sender_id,
        reading.ts_millis == ts_millis,
        reading.board_tag == BOARD_TAG,
        reading.audio.freq_buckets@ == audio.freq_buckets@,
        reading.audio.energy_avg == audio.energy_avg,
        reading.audio.max_freq_magnitude == audio.max_freq_magnitude,
        reading.audio.max_freq == audio.max_freq,
        reading.accel@ == accel@,
        reading.light == light,
        reading.analog@ == analog@,
{
    assert forall|k: int| 0 <= k < 32 implies reading.audio.freq_buckets@[k]
        == audio.freq_buckets@[k] by {
        assert(data_word(frame, k) == reading_word(audio, accel, light, analog, k));
        assert(reading_word(reading.audio, reading.accel, reading.light, reading.analog, k)
            == data_word(frame, k));
    }
    assert(reading.audio.freq_buckets@ =~= audio.freq_buckets@);
    assert(data_word(frame, 32) == reading_word(audio, accel, light, analog, 32));
    assert(reading_word(reading.audio, reading.accel, reading.light, reading.analog, 32)
        == data_word(frame, 32));
    assert(data_word(frame, 33) == reading_word(audio, accel, light, analog, 33));
    assert(reading_word(reading.audio, reading.accel, reading.light, reading.analog, 33)
        == data_word(frame, 33));
    assert(data_word(frame, 34) == reading_word(audio, accel, light, analog, 34));
    assert(reading_word(reading.audio, reading.accel, reading.light, reading.analog, 34)
        == data_word(frame, 34));
    assert forall|k: int| 0 <= k < 3 implies reading.accel@[k] == accel@[k] by {
        assert(data_word(frame, 35 + k) == reading_word(audio, accel, light, analog, 35 + k));
        assert(reading_word(reading.audio, reading.accel, reading.light, reading.analog, 35 + k)
            == data_word(frame, 35 + k));
        assert(unsigned16(reading.accel@[k]) == unsigned16(accel@[k]));
    }
    assert(reading.accel@ =~= accel@);
    assert(data_word(frame, 38) == reading_word(audio, accel, light, analog, 38));
    assert(reading_word(reading.audio, reading.accel, reading.light, reading.analog, 38)
        == data_word(frame, 38));
    assert forall|k: int| 0 <= k < 5 implies reading.analog@[k] == analog@[k] by {
        assert(data_word(frame, 39 + k) == reading_word(audio, accel, light, analog, 39 + k));
        assert(reading_word(reading.audio, reading.accel, reading.light, reading.analog, 39 + k)
            == data_word(frame, 39 + k));
    }
    assert(reading.analog@ =~= analog@);
}

} // verus!

//! Audio frames as samples and as bytes.
//!
//! Devices trade in bytes, the codec and the voice gate in 16-bit samples.
//! Samples are interleaved and little-endian; each conversion reads or
//! writes every byte explicitly.

use vstd::prelude::*;

verus! {

/// Samples per second and channel.
pub const SAMPLE_RATE: u32 = 48000;

/// Channels in a frame, interleaved.
pub const CHANNELS: usize = 2;

/// Samples per channel in one frame: 20 ms at the sample rate.
pub const FRAME_SIZE: usize = 960;

/// Samples in one frame, all channels together.
pub const FRAME_SAMPLES: usize = 1920;

/// Bytes in one frame of samples.
pub const BUF_SIZE: usize = 3840;

/// The largest datagram: the kind byte and one frame.
pub const MSG_SIZE: usize = 3841;

/// The sample that two bytes, low byte first, stand for.
pub open spec fn sample_le(lo: u8, hi: u8) -> i16 {
    let raw = lo as int + 256 * (hi as int);
    if raw < 0x8000 {
        raw as i16
    } else {
        (raw - 0x1_0000) as i16
    }
}

/// The low byte of a sample in two's complement.
pub open spec fn low_byte(sample: i16) -> u8 {
    ((sample as int + 0x1_0000) % 256) as u8
}

/// The high byte of a sample in two's complement.
pub open spec fn high_byte(sample: i16) -> u8 {
    (((sample as int + 0x1_0000) / 256) % 256) as u8
}

/// The samples that `data` holds. A last odd byte holds none.
pub open spec fn samples(data: Seq<u8>) -> Seq<i16> {
    Seq::new((data.len() / 2) as nat, |i: int| sample_le(data[2 * i], data[2 * i + 1]))
}

/// The bytes that hold `pcm`.
pub open spec fn bytes(pcm: Seq<i16>) -> Seq<u8> {
    Seq::new(
        2 * pcm.len(),
        |i: int|
            if i % 2 == 0 {
                low_byte(pcm[i / 2])
            } else {
                high_byte(pcm[i / 2])
            },
    )
}

/// The one frame that a capture buffer holds at its start.
pub open spec fn frame(data: Seq<u8>) -> Seq<i16> {
    samples(data).take(FRAME_SAMPLES as int)
}

/// Reads `data` as samples.
pub fn samples_from_bytes(data: &[u8]) -> (pcm: Vec<i16>)
    ensures
        pcm@ == samples(data@),
{
    let count = data.len() / 2;
    let mut pcm: Vec<i16> = Vec::new();
    let mut i: usize = 0;
    while i < count
        invariant
            count == data.len() / 2,
            i <= count,
            pcm@.len() == i,
            forall|j: int| 0 <= j < i ==> pcm@[j] == sample_le(data@[2 * j], data@[2 * j + 1]),
        decreases count - i,
    {
        let lo = data[2 * i];
        let hi = data[2 * i + 1];
        let raw: i32 = lo as i32 + 256 * (hi as i32);
        let sample: i16 = if raw < 0x8000 {
            raw as i16
        } else {
            (raw - 0x1_0000) as i16
        };
        pcm.push(sample);
        i += 1;
    }
    assert(pcm@ =~= samples(data@));
    pcm
}

/// Writes `pcm` as bytes.
pub fn bytes_from_samples(pcm: &[i16]) -> (data: Vec<u8>)
    ensures
        data@ == bytes(pcm@),
{
    let mut data: Vec<u8> = Vec::new();
    let mut i: usize = 0;
    while i < pcm.len()
        invariant
            i <= pcm.len(),
            data@.len() == 2 * i,
            forall|j: int|
                0 <= j < 2 * i ==> data@[j] == if j % 2 == 0 {
                    low_byte(pcm@[j / 2])
                } else {
                    high_byte(pcm@[j / 2])
                },
        decreases pcm.len() - i,
    {
        let raw: i32 = pcm[i] as i32 + 0x1_0000;
        data.push((raw % 256) as u8);
        data.push(((raw / 256) % 256) as u8);
        i += 1;
    }
    assert(data@ =~= bytes(pcm@));
    data
}

/// Samples written as bytes and read back are the same samples.
pub proof fn lemma_samples_round_trip(pcm: Seq<i16>)
    ensures
        samples(bytes(pcm)) == pcm,
{
    assert forall|i: int| 0 <= i < pcm.len() implies sample_le(
        bytes(pcm)[2 * i],
        bytes(pcm)[2 * i + 1],
    ) == pcm[i] by {
        assert((2 * i) % 2 == 0 && (2 * i) / 2 == i);
        assert((2 * i + 1) % 2 == 1 && (2 * i + 1) / 2 == i);
    }
    assert(samples(bytes(pcm)) =~= pcm);
}

} // verus!

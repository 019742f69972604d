//! The computable parts of the 32-bit float WAV capture: the 44-byte header, the data size that
//! the header carries, when the drain loop patches the header, and the completion report. Files,
//! threads and the sample ring stay with the caller.

use crate::events::{push_u16, push_u32};
use vstd::bytes::{
    lemma_auto_spec_u16_to_from_le_bytes, lemma_auto_spec_u32_to_from_le_bytes, spec_u16_to_le_bytes,
    spec_u32_to_le_bytes,
};
use vstd::prelude::*;

verus! {

/// Fixed header length: RIFF, a 16-byte fmt chunk without extension, the data chunk head.
pub const WAV_HEADER_LEN: usize = 44;

/// `wFormatTag` of IEEE float samples.
pub const WAVE_FORMAT_IEEE_FLOAT: u16 = 3;

/// Bits of one sample.
pub const BITS_PER_SAMPLE: u16 = 32;

/// Samples between two header patches while recording (about one second of 48 kHz stereo).
pub const HEADER_SYNC_INTERVAL_SAMPLES: u64 = 96000;

/// Channel count written to the header: at least one.
pub open spec fn header_channels(channels: u16) -> u16 {
    if channels == 0 {
        1
    } else {
        channels
    }
}

/// Four ASCII bytes of a chunk tag.
pub open spec fn chunk_tag(a: char, b: char, c: char, d: char) -> Seq<u8> {
    seq![a as u8, b as u8, c as u8, d as u8]
}

/// The header of a capture at `sample_rate` with `channels` whose data chunk holds `data_bytes`.
pub open spec fn wav_header(sample_rate: u32, channels: u16, data_bytes: u32) -> Seq<u8> {
    let ch = header_channels(channels);
    let riff_size: u32 = if data_bytes + 36 > u32::MAX {
        u32::MAX
    } else {
        (data_bytes + 36) as u32
    };
    chunk_tag('R', 'I', 'F', 'F') + spec_u32_to_le_bytes(riff_size) + chunk_tag('W', 'A', 'V', 'E') + chunk_tag(
        'f',
        'm',
        't',
        ' ',
    ) + spec_u32_to_le_bytes(16) + spec_u16_to_le_bytes(WAVE_FORMAT_IEEE_FLOAT) + spec_u16_to_le_bytes(ch)
        + spec_u32_to_le_bytes(sample_rate) + spec_u32_to_le_bytes((sample_rate * ch * 4) as u32)
        + spec_u16_to_le_bytes((ch * 4) as u16) + spec_u16_to_le_bytes(BITS_PER_SAMPLE) + chunk_tag('d', 'a', 't', 'a')
        + spec_u32_to_le_bytes(data_bytes)
}

fn push_tag(v: &mut Vec<u8>, a: u8, b: u8, c: u8, d: u8)
    ensures
        final(v)@ == old(v)@ + seq![a, b, c, d],
{
    v.push(a);
    v.push(b);
    v.push(c);
    v.push(d);
    proof {
        assert(final(v)@ =~= old(v)@ + seq![a, b, c, d]);
    }
}

/// Build the 44-byte header. The byte rate and the block align must fit their fields.
pub fn build_header(sample_rate: u32, channels: u16, data_bytes: u32) -> (r: [u8; 44])
    requires
        sample_rate * header_channels(channels) * 4 <= u32::MAX,
        header_channels(channels) * 4 <= u16::MAX,
    ensures
        r@ == wav_header(sample_rate, channels, data_bytes),
{
    let channels: u16 = if channels == 0 {
        1
    } else {
        channels
    };
    let byte_rate: u32 = sample_rate * (channels as u32) * ((BITS_PER_SAMPLE as u32) / 8);
    let block_align: u16 = channels * (BITS_PER_SAMPLE / 8);

    let mut v: Vec<u8> = Vec::new();
    push_tag(&mut v, 'R' as u8, 'I' as u8, 'F' as u8, 'F' as u8);
    push_u32(&mut v, data_bytes.saturating_add(36));
    push_tag(&mut v, 'W' as u8, 'A' as u8, 'V' as u8, 'E' as u8);
    push_tag(&mut v, 'f' as u8, 'm' as u8, 't' as u8, ' ' as u8);
    push_u32(&mut v, 16);
    push_u16(&mut v, WAVE_FORMAT_IEEE_FLOAT);
    push_u16(&mut v, channels);
    push_u32(&mut v, sample_rate);
    push_u32(&mut v, byte_rate);
    push_u16(&mut v, block_align);
    push_u16(&mut v, BITS_PER_SAMPLE);
    push_tag(&mut v, 'd' as u8, 'a' as u8, 't' as u8, 'a' as u8);
    push_u32(&mut v, data_bytes);
    proof {
        lemma_auto_spec_u16_to_from_le_bytes();
        lemma_auto_spec_u32_to_from_le_bytes();
        assert(v@ =~= wav_header(sample_rate, if channels == 0 { 1u16 } else { channels }, data_bytes));
    }

    let mut header = [0u8; 44];
    let mut i: usize = 0;
    while i < WAV_HEADER_LEN
        invariant
            0 <= i <= WAV_HEADER_LEN,
            v@.len() == WAV_HEADER_LEN,
            header@.len() == WAV_HEADER_LEN,
            forall|j: int| 0 <= j < i ==> header@[j] == v@[j],
        decreases WAV_HEADER_LEN - i,
    {
        header.set(i, v[i]);
        i += 1;
    }
    proof {
        assert(header@ =~= v@);
    }
    header
}

/// Bytes of the data chunk after `samples_written` samples: four per sample, clamped to the
/// largest size a classic RIFF field can carry.
pub fn data_bytes_for(samples_written: u64) -> (r: u32)
    ensures
        r == if samples_written * 4 <= u32::MAX {
            samples_written * 4
        } else {
            u32::MAX as int
        },
{
    match samples_written.checked_mul(4) {
        Some(bytes) => {
            if bytes <= u32::MAX as u64 {
                bytes as u32
            } else {
                u32::MAX
            }
        },
        None => u32::MAX,
    }
}

/// Whether the drain loop patches the header now: a full interval has been written since the
/// last patch.
pub fn header_sync_due(samples_written: u64, last_header_sync: u64) -> (r: bool)
    requires
        last_header_sync <= samples_written,
    ensures
        r == (samples_written - last_header_sync >= HEADER_SYNC_INTERVAL_SAMPLES),
{
    samples_written - last_header_sync >= HEADER_SYNC_INTERVAL_SAMPLES
}

/// Completion report of a capture. `dropped_samples > 0` means the recording is corrupt.
#[derive(Debug, Clone, Copy, PartialEq, Eq)]
pub struct CaptureReport {
    pub frames_written: u64,
    pub dropped_samples: u64,
}

/// The report after `samples_written` interleaved samples of `channels` and `dropped_samples`
/// samples the producer could not enqueue.
pub fn capture_report(samples_written: u64, channels: u16, dropped_samples: u64) -> (r: CaptureReport)
    ensures
        r.frames_written == samples_written / (header_channels(channels) as u64),
        r.dropped_samples == dropped_samples,
{
    let channels: u64 = if channels == 0 {
        1
    } else {
        channels as u64
    };
    CaptureReport { frames_written: samples_written / channels, dropped_samples }
}

} // verus!

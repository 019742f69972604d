use orbit_audio::wav::{
    build_header, capture_report, data_bytes_for, header_sync_due, CaptureReport,
    HEADER_SYNC_INTERVAL_SAMPLES, WAVE_FORMAT_IEEE_FLOAT, WAV_HEADER_LEN,
};

fn read_le_u32(buf: &[u8], offset: usize) -> u32 {
    u32::from_le_bytes(buf[offset..offset + 4].try_into().unwrap())
}

fn read_le_u16(buf: &[u8], offset: usize) -> u16 {
    u16::from_le_bytes(buf[offset..offset + 2].try_into().unwrap())
}

#[test]
fn riff_header_fields_describe_an_ieee_float_capture() {
    let samples: Vec<f32> = vec![0.0, 1.0, -1.0, 0.5, -0.5, 2.0, -3.25, 123.456];
    let data_bytes = data_bytes_for(samples.len() as u64);
    let buf = build_header(48_000, 2, data_bytes);
    assert_eq!(buf.len(), WAV_HEADER_LEN);

    assert_eq!(&buf[0..4], b"RIFF");
    assert_eq!(&buf[8..12], b"WAVE");
    assert_eq!(&buf[12..16], b"fmt ");
    assert_eq!(&buf[36..40], b"data");

    assert_eq!(read_le_u32(&buf, 4), 36 + data_bytes, "RIFF chunk size");
    assert_eq!(read_le_u32(&buf, 16), 16, "fmt chunk size");
    assert_eq!(read_le_u16(&buf, 20), WAVE_FORMAT_IEEE_FLOAT, "audioFormat == IEEE_FLOAT");
    assert_eq!(read_le_u16(&buf, 22), 2, "numChannels");
    assert_eq!(read_le_u32(&buf, 24), 48_000, "sampleRate");
    assert_eq!(read_le_u32(&buf, 28), 48_000 * 2 * 4, "byteRate");
    assert_eq!(read_le_u16(&buf, 32), 8, "blockAlign");
    assert_eq!(read_le_u16(&buf, 34), 32, "bitsPerSample");
    assert_eq!(read_le_u32(&buf, 40), data_bytes, "data chunk size");
    assert_eq!(data_bytes, 32);
}

#[test]
fn header_treats_zero_channels_as_mono_and_saturates_the_riff_size() {
    let buf = build_header(44_100, 0, u32::MAX);
    assert_eq!(read_le_u16(&buf, 22), 1);
    assert_eq!(read_le_u16(&buf, 32), 4);
    assert_eq!(read_le_u32(&buf, 28), 44_100 * 4);
    assert_eq!(read_le_u32(&buf, 4), u32::MAX);
    assert_eq!(read_le_u32(&buf, 40), u32::MAX);
}

#[test]
fn data_bytes_clamp_at_the_riff_limit() {
    assert_eq!(data_bytes_for(0), 0);
    assert_eq!(data_bytes_for(10), 40);
    assert_eq!(data_bytes_for(u32::MAX as u64 / 4), (u32::MAX / 4) * 4);
    assert_eq!(data_bytes_for(u32::MAX as u64), u32::MAX);
    assert_eq!(data_bytes_for(u64::MAX), u32::MAX);
}

#[test]
fn header_sync_happens_once_per_interval() {
    assert!(!header_sync_due(0, 0));
    assert!(!header_sync_due(HEADER_SYNC_INTERVAL_SAMPLES - 1, 0));
    assert!(header_sync_due(HEADER_SYNC_INTERVAL_SAMPLES, 0));
    assert!(!header_sync_due(HEADER_SYNC_INTERVAL_SAMPLES + 5, HEADER_SYNC_INTERVAL_SAMPLES));
}

#[test]
fn capture_report_counts_frames_per_channel() {
    assert_eq!(capture_report(10, 2, 0), CaptureReport { frames_written: 5, dropped_samples: 0 });
    assert_eq!(capture_report(7, 0, 3), CaptureReport { frames_written: 7, dropped_samples: 3 });
    assert_eq!(capture_report(9, 4, 1).frames_written, 2);
}


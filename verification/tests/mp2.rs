use dabradio::mp2::{frame_step, Mp2DecodeOutput, Mp2Header, Mp2Sync, SyncStep};

/// MPEG-1 Layer II, no CRC, 128 kbit/s, 48 kHz, stereo: 384-byte frames.
const HEADER_128K_48K: [u8; 4] = [0xFF, 0xFD, 0x84, 0x00];

#[test]
fn preserves_split_syncword() {
    let mut sync = Mp2Sync::new();
    sync.push(&[1, 2, 3, 0xFF]);
    assert_eq!(sync.next_frame(), None);
    assert_eq!(sync.buffered(), &[0xFF]);
    assert_eq!(sync.sync_bytes_skipped(), 3);
}

#[test]
fn skips_bytes_before_sync_and_waits_for_complete_header() {
    let mut sync = Mp2Sync::new();
    sync.push(&[7, 8, 0xFF, 0xFD]);
    assert_eq!(sync.next_frame(), None);
    assert_eq!(&sync.buffered()[..2], &[0xFF, 0xFD]);
    assert_eq!(sync.sync_bytes_skipped(), 2);
}

#[test]
fn converts_24khz_mono_to_48khz_stereo() {
    let out = Mp2DecodeOutput { pcm: vec![0.0f32, 1.0], sample_rate: 24_000, channels: 1 };
    assert_eq!(out.into_stereo_48k().unwrap(), vec![0.0, 0.0, 0.0, 0.0, 1.0, 1.0, 1.0, 1.0]);
}

#[test]
fn stereo_48k_passes_through_and_drops_partial_frame() {
    let out = Mp2DecodeOutput { pcm: vec![1i16, 2, 3, 4, 5], sample_rate: 48_000, channels: 2 };
    assert_eq!(out.into_stereo_48k().unwrap(), vec![1, 2, 3, 4]);
    let out = Mp2DecodeOutput { pcm: vec![1i16, 2], sample_rate: 24_000, channels: 2 };
    assert_eq!(out.into_stereo_48k().unwrap(), vec![1, 2, 1, 2]);
}

#[test]
fn unsupported_formats_are_rejected() {
    let out = Mp2DecodeOutput { pcm: vec![1i16, 2], sample_rate: 44_100, channels: 2 };
    assert_eq!(out.into_stereo_48k(), None);
    let out = Mp2DecodeOutput { pcm: vec![1i16, 2, 3], sample_rate: 48_000, channels: 3 };
    assert_eq!(out.into_stereo_48k(), None);
    let out: Mp2DecodeOutput<i16> = Mp2DecodeOutput { pcm: vec![], sample_rate: 0, channels: 0 };
    assert_eq!(out.into_stereo_48k(), Some(vec![]));
}

#[test]
fn frame_size_from_header_fields() {
    let h = Mp2Header { bit_rate: 128_000, sample_rate: 48_000, padding: false };
    assert_eq!(h.frame_size_bytes(), 384);
    let h = Mp2Header { bit_rate: 128_000, sample_rate: 44_100, padding: true };
    assert_eq!(h.frame_size_bytes(), 418);
}

#[test]
fn complete_frame_is_announced_and_consumed() {
    let mut stream = vec![0x12, 0x34];
    let mut frame = HEADER_128K_48K.to_vec();
    frame.resize(384, 0);
    stream.extend_from_slice(&frame);
    stream.extend_from_slice(&HEADER_128K_48K[..2]);
    let mut sync = Mp2Sync::new();
    sync.push(&stream[..100]);
    // Header parsed, frame not yet complete.
    assert_eq!(sync.next_frame(), None);
    assert_eq!(sync.sync_bytes_skipped(), 2);
    sync.push(&stream[100..]);
    assert_eq!(sync.next_frame(), Some(384));
    assert_eq!(&sync.buffered()[..4], &HEADER_128K_48K);
    assert_eq!(sync.sample_rate(), 0);
    assert_eq!(sync.channels(), 0);
    sync.frame_decoded(384, 48_000, 2);
    assert_eq!(sync.frames_decoded(), 1);
    assert_eq!(sync.sample_rate(), 48_000);
    assert_eq!(sync.channels(), 2);
    assert_eq!(sync.buffered(), &[0xFF, 0xFD]);
    assert_eq!(sync.next_frame(), None);
}

#[test]
fn bad_header_is_skipped_one_byte_at_a_time() {
    // Layer I header (layer bits '11') after a syncword: not a Layer II frame.
    let mut sync = Mp2Sync::new();
    sync.push(&[0xFF, 0xFF, 0x84, 0x00, 0x00]);
    assert_eq!(sync.next_frame(), None);
    assert_eq!(sync.sync_bytes_skipped(), 5);
    assert!(sync.buffered().is_empty());
}

#[test]
fn failed_frame_advances_one_byte() {
    let mut frame = HEADER_128K_48K.to_vec();
    frame.resize(400, 0);
    let mut sync = Mp2Sync::new();
    sync.push(&frame);
    assert_eq!(sync.next_frame(), Some(384));
    sync.frame_failed();
    assert_eq!(sync.decode_errors(), 1);
    assert_eq!(sync.buffered().len(), 399);
    assert_eq!(sync.next_frame(), None);
    assert_eq!(sync.sync_bytes_skipped(), 399);
}

#[test]
fn new_synchronizer_starts_empty() {
    let sync = Mp2Sync::new();
    assert!(sync.buffered().is_empty());
    assert_eq!(sync.frames_decoded(), 0);
    assert_eq!(sync.decode_errors(), 0);
    assert_eq!(sync.sync_bytes_skipped(), 0);
    assert_eq!(sync.sample_rate(), 0);
    assert_eq!(sync.channels(), 0);
}

#[test]
fn frame_step_decisions() {
    let h = Mp2Header { bit_rate: 128_000, sample_rate: 48_000, padding: false };
    assert_eq!(frame_step(None, 1000), SyncStep::SkipByte);
    assert_eq!(frame_step(Some(h), 383), SyncStep::Wait);
    assert_eq!(frame_step(Some(h), 384), SyncStep::Frame(384));
    let h = Mp2Header { bit_rate: 8_000, sample_rate: 16_000, padding: true };
    assert_eq!(frame_step(Some(h), 100), SyncStep::Frame(73));
}

#[test]
fn split_stream_gives_same_frames() {
    let mut stream = vec![0x00, 0xFF];
    let mut frame = HEADER_128K_48K.to_vec();
    frame.resize(384, 0);
    stream.extend_from_slice(&frame);
    // Whole stream at once.
    let mut whole = Mp2Sync::new();
    whole.push(&stream);
    assert_eq!(whole.next_frame(), Some(384));
    // Cut just after the 0xFF that precedes the syncword.
    let mut split = Mp2Sync::new();
    split.push(&stream[..2]);
    assert_eq!(split.next_frame(), None);
    assert_eq!(split.buffered(), &[0xFF]);
    split.push(&stream[2..]);
    assert_eq!(split.next_frame(), Some(384));
    assert_eq!(split.sync_bytes_skipped(), whole.sync_bytes_skipped());
    assert_eq!(split.buffered(), whole.buffered());
}

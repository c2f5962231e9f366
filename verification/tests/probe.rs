use thmp5::audio_probe::{
    id3v2_end_offset, is_tag_problem, retry_playback, retry_waveform, wave_mp3_data_range,
    FileSegment, ProbeAttempt, ProbeError, SeekOutOfBounds, SeekTarget,
};

fn tag(size: u8) -> Vec<u8> {
    let mut t = vec![b'I', b'D', b'3', 4, 0, 0, 0, 0, 0, size];
    t.extend(vec![0xEE; size as usize]);
    t
}

fn chunk(name: &[u8; 4], data: &[u8]) -> Vec<u8> {
    let mut c = name.to_vec();
    c.extend((data.len() as u32).to_le_bytes());
    c.extend(data);
    if data.len() % 2 == 1 {
        c.push(0);
    }
    c
}

fn wave(chunks: &[Vec<u8>]) -> Vec<u8> {
    let mut w = b"RIFF\0\0\0\0WAVE".to_vec();
    for c in chunks {
        w.extend(c);
    }
    w
}

#[test]
fn the_end_of_a_tag_is_found() {
    assert_eq!(id3v2_end_offset(&tag(5)), Some(15));
    assert_eq!(id3v2_end_offset(b"ID3\x04\x00\x00\x00\x00\x01\x00"), Some(138));
    assert_eq!(id3v2_end_offset(b"ID3\x04"), None);
    assert_eq!(id3v2_end_offset(b"RIFF......"), None);
}

#[test]
fn mp3_inside_wave_is_found() {
    let format = chunk(b"fmt ", &[0x55, 0x00, 0, 0]);
    let data = chunk(b"data", b"mp3!!");
    let file = wave(&[format.clone(), data.clone()]);
    assert_eq!(wave_mp3_data_range(&file), Ok(Some((32, 5))));
    // The order does not matter, and other chunks are passed over.
    let file = wave(&[chunk(b"LIST", b"odd"), data.clone(), chunk(b"fmt ", &[0x50, 0x00])]);
    assert_eq!(wave_mp3_data_range(&file), Ok(Some((32, 5))));
    // Tags in front move it.
    let mut tagged = tag(3);
    tagged.extend(tag(4));
    tagged.extend(wave(&[format, data.clone()]));
    assert_eq!(wave_mp3_data_range(&tagged), Ok(Some((59, 5))));
    // Plain samples are no MP3, and neither is a file without a format.
    let pcm = wave(&[chunk(b"fmt ", &[1, 0]), data.clone()]);
    assert_eq!(wave_mp3_data_range(&pcm), Ok(None));
    assert_eq!(wave_mp3_data_range(&wave(&[data])), Ok(None));
    assert_eq!(wave_mp3_data_range(b"fLaC"), Ok(None));
    assert_eq!(wave_mp3_data_range(&tag(9)[..12]), Ok(None));
}

#[test]
fn a_cut_format_chunk_is_an_error() {
    let mut file = wave(&[]);
    file.extend(b"fmt \x10\x00\x00\x00\x55");
    assert_eq!(wave_mp3_data_range(&file), Err(ProbeError::UnexpectedEnd));
}

#[test]
fn a_segment_is_read_inside_its_bounds() {
    let mut s = FileSegment::new(100, 10);
    assert_eq!(s.read_len(4), 4);
    s.advance(4);
    assert_eq!(s.read_len(50), 6);
    assert_eq!(s.seek(SeekTarget::End(-1)), Ok(109));
    assert_eq!(s.pos, 9);
    assert_eq!(s.seek(SeekTarget::Current(1)), Ok(110));
    assert_eq!(s.read_len(50), 0);
    assert_eq!(s.seek(SeekTarget::Current(1)), Err(SeekOutOfBounds));
    assert_eq!(s.seek(SeekTarget::End(-11)), Err(SeekOutOfBounds));
    assert_eq!(s.pos, 10);
    assert_eq!(s.seek(SeekTarget::Start(0)), Ok(100));
    assert_eq!(s.seek(SeekTarget::Start(11)), Err(SeekOutOfBounds));
}

#[test]
fn files_are_tried_again() {
    assert!(is_tag_problem("probe failed: id3v2: bad flags"));
    assert!(is_tag_problem("malformed stream"));
    assert!(!is_tag_problem("unsupported"));
    let range = Some((40, 9));
    let after_tag = Some(ProbeAttempt::AfterTag(15));
    let payload = Some(ProbeAttempt::Payload(40, 9));
    assert_eq!(retry_playback("id3v2", Some(15), range), after_tag);
    assert_eq!(retry_playback("id3v2", None, range), payload);
    assert_eq!(retry_playback("other", Some(15), range), payload);
    assert_eq!(retry_playback("other", Some(15), None), None);
    assert_eq!(retry_waveform(ProbeAttempt::Whole, "id3v2", Some(15), range), after_tag);
    assert_eq!(retry_waveform(ProbeAttempt::AfterTag(15), "id3v2", Some(15), range), payload);
    assert_eq!(retry_waveform(ProbeAttempt::Payload(40, 9), "id3v2", Some(15), range), None);
}

use thmp5::library::scanner::raw_tags::{build_raw_tags_json, raw_tags};
use thmp5::models::{TagProperty, TrackMetadata};
use thmp5::storage::memory::rows::{find_mbid, read_tags};

fn pairs(v: &[(&str, &str)]) -> Vec<(String, String)> {
    v.iter().map(|(a, b)| (a.to_string(), b.to_string())).collect()
}

fn frame(id: &[u8; 4], content: &[u8]) -> Vec<u8> {
    let mut f = id.to_vec();
    f.extend_from_slice(&[0, 0, 0, content.len() as u8, 0, 0]);
    f.extend_from_slice(content);
    f
}

fn file(frames: &[Vec<u8>]) -> Vec<u8> {
    let body: Vec<u8> = frames.concat();
    let size = body.len();
    let mut data = b"ID3\x04\x00\x00".to_vec();
    data.extend_from_slice(&[0, 0, (size / 128) as u8, (size % 128) as u8]);
    data.extend_from_slice(&body);
    data.extend_from_slice(&[0xFF, 0xFB, 0x90, 0x00]);
    data
}

#[test]
fn texts_are_stored_key_by_key() {
    let data = file(&[
        frame(b"TIT2", b"\x03One"),
        frame(b"TPE1", b"\x03Artist"),
        frame(b"TIT2", b"\x03Two"),
        frame(b"TIT2", b"\x03One"),
    ]);
    assert_eq!(
        raw_tags(&data, &TrackMetadata::default(), &[]),
        pairs(&[("TIT2", "One"), ("TIT2", "Two"), ("TPE1", "Artist")])
    );
}

#[test]
fn identifiers_are_stored_with_their_owner() {
    let data = file(&[
        frame(b"UFID", b"http://musicbrainz.org\x00b6e3"),
        frame(b"TIT2", b"\x03Title"),
        frame(b"UFID", b"no zero byte"),
        frame(b"UFID", b"other\x00"),
    ]);
    let tags = raw_tags(&data, &TrackMetadata::default(), &[]);
    assert_eq!(
        tags,
        pairs(&[
            ("TIT2", "Title"),
            ("UFID:http://musicbrainz.org", "b6e3"),
            ("UFID:other", ""),
        ])
    );
    assert_eq!(find_mbid(&tags), Some("b6e3".to_string()));
}

#[test]
fn a_file_without_a_tag_stores_what_was_told() {
    let mut meta = TrackMetadata::default();
    meta.title = Some("Told".into());
    let extra = vec![TagProperty { key: "TXXX:mood".into(), value: "calm".into() }];
    assert_eq!(
        raw_tags(b"fLaC", &meta, &extra),
        pairs(&[("TIT2", "Told"), ("TXXX:mood", "calm")])
    );
}

#[test]
fn stored_tags_read_back() {
    let data = file(&[frame(b"TIT2", b"\x03A \"quoted\" title")]);
    let json = build_raw_tags_json(&data, &TrackMetadata::default(), &[]);
    assert_eq!(json, "[[\"TIT2\",\"A \\\"quoted\\\" title\"]]");
    assert_eq!(read_tags(&Some(json)), pairs(&[("TIT2", "A \"quoted\" title")]));
}

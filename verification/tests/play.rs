use thmp5::play::{
    choose_by_tags, choose_source, title_and_artist, title_and_artist_of, unavailable, Alternative,
    LoudnessMeasure, PlayChoice, PlaySource, TaggedAlternative,
};

const MBID: &str = "UFID:http://musicbrainz.org";

fn tags(v: &[(&str, &str)]) -> Vec<(String, String)> {
    v.iter().map(|(a, b)| (a.to_string(), b.to_string())).collect()
}

fn other(there: bool, mbid: &str) -> TaggedAlternative {
    TaggedAlternative { tags: tags(&[(MBID, mbid)]), exists_on_disk: there }
}

#[test]
fn the_file_itself_comes_first() {
    let choice = choose_by_tags(true, true, &tags(&[]), &vec![true], &vec![]);
    assert_eq!(choice, PlayChoice::Own);
}

#[test]
fn a_missing_file_is_replaced_by_the_same_audio() {
    let choice = choose_by_tags(false, true, &tags(&[]), &vec![false, true], &vec![]);
    assert_eq!(choice, PlayChoice::SameFingerprint(1));
    // Without a fingerprint of its own nothing is the same audio.
    let choice = choose_by_tags(false, false, &tags(&[]), &vec![true], &vec![]);
    assert_eq!(choice, PlayChoice::Unavailable);
}

#[test]
fn the_same_recording_stands_in_at_last() {
    let own = tags(&[("TIT2", "x"), (MBID, "m")]);
    let others = vec![other(true, "n"), other(false, "m"), other(true, "m")];
    assert_eq!(
        choose_by_tags(false, true, &own, &vec![false], &others),
        PlayChoice::SameMbid(2)
    );
    assert_eq!(
        choose_by_tags(false, true, &tags(&[]), &vec![], &others),
        PlayChoice::Unavailable
    );
}

#[test]
fn stored_tags_are_read() {
    let json = |m: &str| Some(format!("[[\"{MBID}\",\"{m}\"],[\"TIT2\",\"T\"],[\"TPE1\",\"A\"]]"));
    let source = PlaySource {
        source_id: "s".into(),
        file_path: "/s.mp3".into(),
        raw_tags_json: json("m"),
        fingerprint: None,
        exists_on_disk: false,
    };
    let alternative = |m: &str| Alternative {
        source_id: "a".into(),
        file_path: "/a.mp3".into(),
        raw_tags_json: json(m),
        exists_on_disk: true,
    };
    assert_eq!(
        choose_source(&source, &vec![], &vec![alternative("n"), alternative("m")]),
        PlayChoice::SameMbid(1)
    );
    assert_eq!(
        title_and_artist(&source.raw_tags_json),
        (Some("T".to_string()), Some("A".to_string()))
    );
    assert_eq!(title_and_artist(&Some("no json".into())), (None, None));
    assert_eq!(title_and_artist(&None), (None, None));
    assert_eq!(
        title_and_artist_of(&tags(&[("TPE1", "A")])),
        (None, Some("A".to_string()))
    );
    assert_eq!(
        unavailable("/s.mp3"),
        "File not found and no working alternative source exists: /s.mp3"
    );
}

#[test]
fn a_stored_gain_comes_before_a_measured_loudness() {
    assert_eq!(LoudnessMeasure::of_track(true, true).label(), "ReplayGain");
    assert_eq!(LoudnessMeasure::of_track(false, true).label(), "LUFS");
    assert_eq!(LoudnessMeasure::of_track(false, false).label(), "None");
}

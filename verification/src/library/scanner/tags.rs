//! What the tags of a file are made into.
use vstd::prelude::*;
use crate::digest;
use crate::digest::base64_encode;
use crate::models::{MetadataReadResult, SourceTagInfo, TagProperty, TrackMetadata};
use crate::storage::memory::lists::clone_opt;
use crate::text;
use crate::text::{
    chars_between, chars_of, contains_part, decimal_string, ends_with, same_text,
    string_from_chars, lower_text, trimmed,
};

verus! {

// ── Audio files ──────────────────────────────────────────────────────────────

/// Whether an extension, in lower case, is that of an audio file.
pub open spec fn audio_extension(e: Seq<char>) -> bool {
    ||| e == "mp3"@
    ||| e == "ogg"@
    ||| e == "flac"@
    ||| e == "wav"@
    ||| e == "m4a"@
    ||| e == "aac"@
    ||| e == "opus"@
    ||| e == "wma"@
    ||| e == "ape"@
}

/// Whether a file with an extension is an audio file.
pub fn is_audio_file(extension: Option<&str>) -> (r: bool)
    ensures
        r == (extension matches Some(e) && audio_extension(text::lowercase(e@))),
{
    match extension {
        None => false,
        Some(e) => {
            let e = lower_text(e);
            same_text(&e, "mp3") || same_text(&e, "ogg") || same_text(&e, "flac") || same_text(
                &e,
                "wav",
            ) || same_text(&e, "m4a") || same_text(&e, "aac") || same_text(&e, "opus")
                || same_text(&e, "wma") || same_text(&e, "ape")
        },
    }
}

// ── Tags by name ─────────────────────────────────────────────────────────────

/// A tag: frame, field and value.
pub type Info = (Seq<char>, Seq<char>, Seq<char>);

/// What tags say.
pub open spec fn infos(v: Seq<SourceTagInfo>) -> Seq<Info> {
    v.map_values(|t: SourceTagInfo| (t.frame_id@, t.field_name@, t.value@))
}

/// The tag for a value, if there is one.
pub open spec fn maybe(frame: Seq<char>, field: Seq<char>, value: Option<Seq<char>>) -> Seq<Info> {
    match value {
        Some(v) => seq![(frame, field, v)],
        None => Seq::empty(),
    }
}

/// The text of a number, if there is one.
pub open spec fn number_text(n: Option<u32>) -> Option<Seq<char>> {
    match n {
        Some(n) => Some(text::decimal(n as nat)),
        None => None,
    }
}

fn push_info(tags: &mut Vec<SourceTagInfo>, frame: &str, field: &str, value: &Option<String>)
    ensures
        infos(final(tags)@) == infos(old(tags)@) + maybe(frame@, field@, text::opt_text(*value)),
{
    match value {
        Some(v) => {
            tags.push(
                SourceTagInfo {
                    frame_id: frame.to_owned(),
                    field_name: field.to_owned(),
                    value: v.clone(),
                },
            );
            assert(infos(tags@) =~= infos(old(tags)@) + seq![(frame@, field@, v@)]);
        },
        None => {
            assert(infos(tags@) =~= infos(old(tags)@) + Seq::<Info>::empty());
        },
    }
}

fn push_number(tags: &mut Vec<SourceTagInfo>, frame: &str, field: &str, value: Option<u32>)
    ensures
        infos(final(tags)@) == infos(old(tags)@) + maybe(frame@, field@, number_text(value)),
{
    let t = match value {
        Some(n) => Some(decimal_string(n as u64)),
        None => None,
    };
    push_info(tags, frame, field, &t);
}

/// What the tag reader says of a file.
#[derive(Debug)]
pub struct TagFields {
    pub title: Option<String>,
    pub artist: Option<String>,
    pub album: Option<String>,
    pub genre: Option<String>,
    pub comment: Option<String>,
    pub year: Option<u32>,
    pub track: Option<u32>,
    pub track_total: Option<u32>,
    pub disk: Option<u32>,
    /// The further fields that are set, as name and value, in the order of
    /// `extended_fields`.
    pub extended: Vec<(String, String)>,
    /// All items of the tag, as the description of their key and their text.
    pub items: Vec<(String, Option<String>)>,
}

/// The names of the further fields, in order.
pub fn extended_fields() -> (r: Vec<&'static str>)
    ensures
        r@.len() == 20,
        r@[0]@ == "album_artist"@,
        r@[1]@ == "bpm"@,
        r@[2]@ == "composer"@,
        r@[3]@ == "conductor"@,
        r@[4]@ == "publisher"@,
        r@[5]@ == "lyricist"@,
        r@[6]@ == "encoder_settings"@,
        r@[7]@ == "musicbrainz_track_id"@,
        r@[8]@ == "musicbrainz_release_id"@,
        r@[9]@ == "musicbrainz_artist_id"@,
        r@[10]@ == "musicbrainz_release_group_id"@,
        r@[11]@ == "replaygain_track_gain"@,
        r@[12]@ == "replaygain_track_peak"@,
        r@[13]@ == "replaygain_album_gain"@,
        r@[14]@ == "replaygain_album_peak"@,
        r@[15]@ == "initial_key"@,
        r@[16]@ == "language"@,
        r@[17]@ == "original_artist"@,
        r@[18]@ == "copyright_url"@,
        r@[19]@ == "original_release_date"@,
{
    vec![
        "album_artist",
        "bpm",
        "composer",
        "conductor",
        "publisher",
        "lyricist",
        "encoder_settings",
        "musicbrainz_track_id",
        "musicbrainz_release_id",
        "musicbrainz_artist_id",
        "musicbrainz_release_group_id",
        "replaygain_track_gain",
        "replaygain_track_peak",
        "replaygain_album_gain",
        "replaygain_album_peak",
        "initial_key",
        "language",
        "original_artist",
        "copyright_url",
        "original_release_date",
    ]
}

/// The tags of the common fields.
pub open spec fn common_tags(f: TagFields) -> Seq<Info> {
    maybe("TIT2"@, "title"@, text::opt_text(f.title)) + maybe(
        "TPE1"@,
        "artist"@,
        text::opt_text(f.artist),
    ) + maybe("TALB"@, "album"@, text::opt_text(f.album)) + maybe(
        "TCON"@,
        "genre"@,
        text::opt_text(f.genre),
    ) + maybe("COMM"@, "comment"@, text::opt_text(f.comment)) + maybe(
        "TYER"@,
        "year"@,
        number_text(f.year),
    ) + maybe("TRCK"@, "track_number"@, number_text(f.track)) + maybe(
        "TRCK"@,
        "track_total"@,
        number_text(f.track_total),
    ) + maybe("TPOS"@, "disc_number"@, number_text(f.disk))
}

/// Whether an item is one that a user defined.
pub open spec fn user_item(key: Seq<char>) -> bool {
    text::has_part(key, "TXXX"@) || text::has_part(key, "UserText"@)
}

/// The tag of an item that a user defined.
pub open spec fn item_tag(item: (String, Option<String>)) -> Option<Info> {
    if user_item(item.0@) && item.1 is Some {
        Some((item.0@, "user_text"@, item.1.unwrap()@))
    } else {
        None
    }
}

/// All tags of a file: the common fields, the further fields, and what a user
/// defined.
pub open spec fn all_tags(f: TagFields) -> Seq<Info> {
    common_tags(f) + f.extended@.map_values(|e: (String, String)| (e.0@, e.0@, e.1@))
        + f.items@.filter_map(|i: (String, Option<String>)| item_tag(i))
}

/// Lists all tags of a file.
pub fn list_tag_fields(f: &TagFields) -> (r: Vec<SourceTagInfo>)
    ensures
        infos(r@) == all_tags(*f),
{
    let mut r: Vec<SourceTagInfo> = Vec::new();
    assert(infos(r@) =~= Seq::empty());
    push_info(&mut r, "TIT2", "title", &f.title);
    push_info(&mut r, "TPE1", "artist", &f.artist);
    push_info(&mut r, "TALB", "album", &f.album);
    push_info(&mut r, "TCON", "genre", &f.genre);
    push_info(&mut r, "COMM", "comment", &f.comment);
    push_number(&mut r, "TYER", "year", f.year);
    push_number(&mut r, "TRCK", "track_number", f.track);
    push_number(&mut r, "TRCK", "track_total", f.track_total);
    push_number(&mut r, "TPOS", "disc_number", f.disk);
    let ghost common = common_tags(*f);
    assert(infos(r@) =~= common);
    let ghost more = f.extended@.map_values(|e: (String, String)| (e.0@, e.0@, e.1@));
    let mut i: usize = 0;
    assert(common + more.take(0) =~= common);
    while i < f.extended.len()
        invariant
            i <= f.extended@.len(),
            more == f.extended@.map_values(|e: (String, String)| (e.0@, e.0@, e.1@)),
            infos(r@) == common + more.take(i as int),
        decreases f.extended@.len() - i,
    {
        let ghost before = infos(r@);
        r.push(
            SourceTagInfo {
                frame_id: f.extended[i].0.clone(),
                field_name: f.extended[i].0.clone(),
                value: f.extended[i].1.clone(),
            },
        );
        proof {
            assert(infos(r@) =~= before.push(more[i as int]));
            assert(common + more.take(i + 1) =~= (common + more.take(i as int)).push(
                more[i as int],
            ));
        }
        i = i + 1;
    }
    assert(more.take(more.len() as int) =~= more);
    let ghost base = infos(r@);
    let ghost g = |i: (String, Option<String>)| item_tag(i);
    let mut j: usize = 0;
    proof {
        assert(f.items@.take(0) =~= Seq::empty());
        assert(base + f.items@.take(0).filter_map(g) =~= base);
    }
    while j < f.items.len()
        invariant
            j <= f.items@.len(),
            g == (|i: (String, Option<String>)| item_tag(i)),
            infos(r@) == base + f.items@.take(j as int).filter_map(g),
        decreases f.items@.len() - j,
    {
        let ghost before = infos(r@);
        let ghost found = f.items@.take(j as int).filter_map(g);
        proof {
            f.items@.lemma_filter_map_take_succ(g, j as int);
        }
        let key = &f.items[j].0;
        if contains_part(key, "TXXX") || contains_part(key, "UserText") {
            if let Some(v) = &f.items[j].1 {
                r.push(
                    SourceTagInfo {
                        frame_id: key.clone(),
                        field_name: "user_text".to_owned(),
                        value: v.clone(),
                    },
                );
                proof {
                    let t = (key@, "user_text"@, v@);
                    assert(infos(r@) =~= before.push(t));
                    assert(base + (found + seq![t]) =~= (base + found).push(t));
                }
            }
        }
        assert(infos(r@) =~= base + f.items@.take(j + 1).filter_map(g));
        j = j + 1;
    }
    assert(f.items@.take(f.items@.len() as int) =~= f.items@);
    r
}

/// Whether a property repeats what the common fields say.
pub open spec fn repeats_field(key: Seq<char>) -> bool {
    ||| key == "TITLE"@
    ||| key == "ARTIST"@
    ||| key == "ALBUM"@
    ||| key == "GENRE"@
    ||| key == "COMMENT"@
    ||| key == "DATE"@
    ||| key == "YEAR"@
    ||| key == "TRACKNUMBER"@
    ||| key == "TRACKTOTAL"@
    ||| key == "DISCNUMBER"@
    ||| key == "ALBUMARTIST"@
    ||| key == "ALBUM ARTIST"@
    ||| key == "BPM"@
}

fn does_repeat(key: &str) -> (r: bool)
    ensures
        r == repeats_field(key@),
{
    same_text(key, "TITLE") || same_text(key, "ARTIST") || same_text(key, "ALBUM") || same_text(
        key,
        "GENRE",
    ) || same_text(key, "COMMENT") || same_text(key, "DATE") || same_text(key, "YEAR")
        || same_text(key, "TRACKNUMBER") || same_text(key, "TRACKTOTAL") || same_text(
        key,
        "DISCNUMBER",
    ) || same_text(key, "ALBUMARTIST") || same_text(key, "ALBUM ARTIST") || same_text(key, "BPM")
}

/// The tags of metadata.
pub open spec fn metadata_tags(m: TrackMetadata) -> Seq<Info> {
    maybe("TIT2"@, "title"@, text::opt_text(m.title)) + maybe(
        "TPE1"@,
        "artist"@,
        text::opt_text(m.artist),
    ) + maybe("TPE2"@, "album_artist"@, text::opt_text(m.album_artist)) + maybe(
        "TALB"@,
        "album"@,
        text::opt_text(m.album),
    ) + maybe("TCON"@, "genre"@, text::opt_text(m.genre)) + maybe(
        "COMM"@,
        "comment"@,
        text::opt_text(m.comment),
    ) + maybe("TYER"@, "year"@, number_text(m.year)) + maybe(
        "TRCK"@,
        "track_number"@,
        number_text(m.track_number),
    ) + maybe("TRCK"@, "track_total"@, number_text(m.track_total)) + maybe(
        "TPOS"@,
        "disc_number"@,
        number_text(m.disc_number),
    )
}

/// The tag of a property that does not repeat a common field.
pub open spec fn property_tag(p: TagProperty) -> Option<Info> {
    if repeats_field(p.key@) {
        None
    } else {
        Some((p.key@, "tag"@, p.value@))
    }
}

/// Lists the tags of metadata and of further properties.
pub fn metadata_to_tag_infos(meta: &TrackMetadata, extra_props: &[TagProperty]) -> (r: Vec<
    SourceTagInfo,
>)
    ensures
        infos(r@) == metadata_tags(*meta) + extra_props@.filter_map(
            |p: TagProperty| property_tag(p),
        ),
{
    let mut r: Vec<SourceTagInfo> = Vec::new();
    assert(infos(r@) =~= Seq::empty());
    push_info(&mut r, "TIT2", "title", &meta.title);
    push_info(&mut r, "TPE1", "artist", &meta.artist);
    push_info(&mut r, "TPE2", "album_artist", &meta.album_artist);
    push_info(&mut r, "TALB", "album", &meta.album);
    push_info(&mut r, "TCON", "genre", &meta.genre);
    push_info(&mut r, "COMM", "comment", &meta.comment);
    push_number(&mut r, "TYER", "year", meta.year);
    push_number(&mut r, "TRCK", "track_number", meta.track_number);
    push_number(&mut r, "TRCK", "track_total", meta.track_total);
    push_number(&mut r, "TPOS", "disc_number", meta.disc_number);
    let ghost base = metadata_tags(*meta);
    assert(infos(r@) =~= base);
    let ghost g = |p: TagProperty| property_tag(p);
    let mut j: usize = 0;
    proof {
        assert(extra_props@.take(0) =~= Seq::empty());
        assert(base + extra_props@.take(0).filter_map(g) =~= base);
    }
    while j < extra_props.len()
        invariant
            j <= extra_props@.len(),
            g == (|p: TagProperty| property_tag(p)),
            infos(r@) == base + extra_props@.take(j as int).filter_map(g),
        decreases extra_props@.len() - j,
    {
        let ghost before = infos(r@);
        let ghost found = extra_props@.take(j as int).filter_map(g);
        proof {
            extra_props@.lemma_filter_map_take_succ(g, j as int);
        }
        let p = &extra_props[j];
        if !does_repeat(&p.key) {
            r.push(
                SourceTagInfo {
                    frame_id: p.key.clone(),
                    field_name: "tag".to_owned(),
                    value: p.value.clone(),
                },
            );
            proof {
                let t = (p.key@, "tag"@, p.value@);
                assert(infos(r@) =~= before.push(t));
                assert(base + (found + seq![t]) =~= (base + found).push(t));
            }
        }
        assert(infos(r@) =~= base + extra_props@.take(j + 1).filter_map(g));
        j = j + 1;
    }
    assert(extra_props@.take(extra_props@.len() as int) =~= extra_props@);
    r
}

// ── Metadata ─────────────────────────────────────────────────────────────────

/// What is known of a file beside its tags.
#[derive(Debug)]
pub struct FileFacts {
    pub extension: Option<String>,
    /// The file name without its extension.
    pub stem: Option<String>,
    pub duration_ms: u64,
}

/// The numbers with a fraction that the tags hold, as bit patterns.
#[derive(Debug)]
pub struct Fractions {
    pub bpm_bits: Option<u64>,
    pub replay_gain_track_db_bits: Option<u64>,
    pub replay_gain_track_peak_bits: Option<u64>,
    pub replay_gain_album_db_bits: Option<u64>,
    pub replay_gain_album_peak_bits: Option<u64>,
}

/// A text without a suffix, however often it stands at the end.
pub open spec fn without_suffix(s: Seq<char>, suffix: Seq<char>) -> Seq<char>
    decreases s.len(),
{
    if suffix.len() > 0 && suffix.is_suffix_of(s) {
        without_suffix(s.take(s.len() - suffix.len()), suffix)
    } else {
        s
    }
}

/// The number in the text of a gain: without blanks and without the unit.
pub open spec fn gain_number(s: Seq<char>) -> Seq<char> {
    text::trim(without_suffix(text::trim(s), "dB"@))
}

/// The number in the text of a gain.
pub fn gain_text(s: &str) -> (r: String)
    ensures
        r@ == gain_number(s@),
{
    let mut rest = trimmed(s);
    let ghost whole = rest@;
    proof {
        reveal_strlit("dB");
    }
    while ends_with(&rest, "dB")
        invariant
            "dB"@.len() == 2,
            without_suffix(rest@, "dB"@) == without_suffix(whole, "dB"@),
        decreases rest@.len(),
    {
        let cs = chars_of(&rest);
        let n: usize = cs.len() - 2;
        let front = chars_between(&cs, 0, n);
        assert(front@ =~= rest@.take(rest@.len() - 2));
        rest = string_from_chars(&front);
    }
    trimmed(&rest)
}

/// The text of the first of some fields with a name.
pub open spec fn field_value(fields: Seq<(String, String)>, name: Seq<char>) -> Option<Seq<char>> {
    crate::storage::memory::tag_value(text::pairs(fields), name)
}

/// Whether metadata tells what the tags of a file say; without tags it holds what is
/// known of the file.
pub open spec fn tells_metadata(
    m: TrackMetadata,
    f: Option<TagFields>,
    n: Fractions,
    facts: FileFacts,
) -> bool {
    &&& m.duration_ms == facts.duration_ms
    &&& m.format@ == text::lowercase(
        match facts.extension {
            Some(e) => e@,
            None => "unknown"@,
        },
    )
    &&& m.artists is None
    &&& m.recording_mbid is None
    &&& match f {
        Some(f) => {
            &&& m.title == if f.title is Some {
                f.title
            } else {
                facts.stem
            }
            &&& m.artist == f.artist
            &&& m.album == f.album
            &&& m.year == f.year
            &&& m.track_number == f.track
            &&& m.track_total == f.track_total
            &&& m.disc_number == f.disk
            &&& text::opt_text(m.album_artist) == field_value(f.extended@, "album_artist"@)
            &&& m.genre == f.genre
            &&& m.comment == f.comment
            &&& m.bpm_bits == n.bpm_bits
            &&& m.replay_gain_track_db_bits == n.replay_gain_track_db_bits
            &&& m.replay_gain_track_peak_bits == n.replay_gain_track_peak_bits
            &&& m.replay_gain_album_db_bits == n.replay_gain_album_db_bits
            &&& m.replay_gain_album_peak_bits == n.replay_gain_album_peak_bits
        },
        None => {
            &&& m.title == facts.stem
            &&& m.artist is None
            &&& m.album is None
            &&& m.year is None
            &&& m.track_number is None
            &&& m.track_total is None
            &&& m.disc_number is None
            &&& m.album_artist is None
            &&& m.genre is None
            &&& m.comment is None
            &&& m.bpm_bits is None
            &&& m.replay_gain_track_db_bits is None
            &&& m.replay_gain_track_peak_bits is None
            &&& m.replay_gain_album_db_bits is None
            &&& m.replay_gain_album_peak_bits is None
        },
    }
}

/// Makes metadata of what the tags of a file say. The title of a file without one is
/// its name.
pub fn metadata_from_fields(
    fields: &Option<TagFields>,
    numbers: &Fractions,
    facts: &FileFacts,
) -> (m: TrackMetadata)
    ensures
        tells_metadata(m, *fields, *numbers, *facts),
{
    let mut m = TrackMetadata::default();
    m.duration_ms = facts.duration_ms;
    m.format = match &facts.extension {
        Some(e) => lower_text(e),
        None => lower_text("unknown"),
    };
    if let Some(f) = fields {
        m.title = clone_opt(&f.title);
        m.artist = clone_opt(&f.artist);
        m.album = clone_opt(&f.album);
        m.year = f.year;
        m.track_number = f.track;
        m.track_total = f.track_total;
        m.disc_number = f.disk;
        m.album_artist = match crate::storage::memory::tag_first(&f.extended, "album_artist") {
            Some(v) => Some(v.clone()),
            None => None,
        };
        m.genre = clone_opt(&f.genre);
        m.comment = clone_opt(&f.comment);
        m.bpm_bits = numbers.bpm_bits;
        m.replay_gain_track_db_bits = numbers.replay_gain_track_db_bits;
        m.replay_gain_track_peak_bits = numbers.replay_gain_track_peak_bits;
        m.replay_gain_album_db_bits = numbers.replay_gain_album_db_bits;
        m.replay_gain_album_peak_bits = numbers.replay_gain_album_peak_bits;
    }
    if m.title.is_none() {
        m.title = clone_opt(&facts.stem);
    }
    m
}

/// The warning that the fallback reader was used.
pub fn fallback_warning(primary_error: &str, warning: Option<&str>) -> (r: String)
    ensures
        r@ == "Metadata fallback via TagLib helper after Lofty failure: "@ + primary_error@
            + match warning {
            Some(w) => if w@.len() > 0 {
                ". "@ + w@
            } else {
                Seq::empty()
            },
            None => Seq::empty(),
        },
{
    let mut r = "Metadata fallback via TagLib helper after Lofty failure: ".to_owned();
    r.append(primary_error);
    let ghost front = r@;
    if let Some(w) = warning {
        if !w.is_empty() {
            r.append(". ");
            r.append(w);
            assert(r@ =~= front + (". "@ + w@));
            return r;
        }
    }
    assert(r@ =~= front + Seq::<char>::empty());
    r
}

/// Chooses between the two readers of a file's tags: what the first gave, without a
/// warning, or else what the fallback reader gave, or else the error of the first.
pub fn settle_metadata(
    primary: Result<TrackMetadata, String>,
    helped: Option<MetadataReadResult>,
) -> (r: Result<MetadataReadResult, String>)
    ensures
        match (primary, helped) {
            (Ok(meta), _) => r matches Ok(read) && read.meta == meta && read.warning is None
                && read.all_tags@.len() == 0 && read.duplicate_frames@.len() == 0,
            (Err(_), Some(read)) => r == Ok::<MetadataReadResult, String>(read),
            (Err(e), None) => r == Err::<MetadataReadResult, String>(e),
        },
{
    match primary {
        Ok(meta) => Ok(
            MetadataReadResult {
                meta,
                warning: None,
                all_tags: Vec::new(),
                duplicate_frames: Vec::new(),
            },
        ),
        Err(e) => match helped {
            Some(read) => Ok(read),
            None => Err(e),
        },
    }
}

/// Chooses between the two readers where all tags of a file are listed: what the
/// first listed, or else the tags that the fallback reader gave, or else the error
/// of the first.
pub fn settle_tag_list(
    primary: Result<Vec<SourceTagInfo>, String>,
    helped: Option<MetadataReadResult>,
) -> (r: Result<Vec<SourceTagInfo>, String>)
    ensures
        match (primary, helped) {
            (Ok(_), _) => r == primary,
            (Err(_), Some(read)) => r matches Ok(tags) && infos(tags@) == metadata_tags(read.meta)
                + read.all_tags@.filter_map(|p: TagProperty| property_tag(p)),
            (Err(_), None) => r == primary,
        },
{
    match primary {
        Ok(tags) => Ok(tags),
        Err(e) => match helped {
            Some(read) => Ok(metadata_to_tag_infos(&read.meta, &read.all_tags)),
            None => Err(e),
        },
    }
}

/// Why a run of the fallback reader failed.
pub fn helper_failure(shown_helper: &str, stderr: &str, status: &str) -> (r: String)
    ensures
        r@ == shown_helper@ + ": "@ + if text::trim(stderr@).len() == 0 {
            "exit status "@ + status@
        } else {
            text::trim(stderr@)
        },
{
    let mut r = shown_helper.to_owned();
    r.append(": ");
    let ghost front = r@;
    let reason = trimmed(stderr);
    if reason.as_str().is_empty() {
        r.append("exit status ");
        r.append(status);
        assert(r@ =~= front + ("exit status "@ + status@));
    } else {
        r.append(&reason);
    }
    r
}

// ── Cover art ────────────────────────────────────────────────────────────────

/// A picture of a tag.
#[derive(Debug)]
pub struct Picture {
    pub is_front: bool,
    pub mime: Option<String>,
    pub data: Vec<u8>,
}

/// The place of the picture that is shown: the first of the front, or the first.
pub open spec fn shown_picture(pictures: Seq<Picture>) -> int {
    let k = text::first_at(pictures.map_values(|p: Picture| p.is_front), true);
    if k < pictures.len() {
        k
    } else {
        0
    }
}

/// A picture as a data URL.
pub open spec fn data_url(p: Picture) -> Seq<char> {
    "data:"@ + (match p.mime {
        Some(m) => m@,
        None => "image/jpeg"@,
    }) + ";base64,"@ + digest::base64_text(p.data@)
}

/// The picture of a tag as a data URL; `None` when there is none.
pub fn cover_art_url(pictures: &Vec<Picture>) -> (r: Option<String>)
    ensures
        match r {
            Some(url) => pictures@.len() > 0 && url@ == data_url(
                pictures@[shown_picture(pictures@)],
            ),
            None => pictures@.len() == 0,
        },
{
    if pictures.len() == 0 {
        return None;
    }
    let ghost fronts = pictures@.map_values(|p: Picture| p.is_front);
    let mut k: usize = 0;
    while k < pictures.len() && !pictures[k].is_front
        invariant
            k <= pictures@.len(),
            fronts == pictures@.map_values(|p: Picture| p.is_front),
            forall|i: int| 0 <= i < k ==> fronts[i] != true,
        decreases pictures@.len() - k,
    {
        k = k + 1;
    }
    proof {
        text::lemma_first_at_is(fronts, true, k as int);
    }
    if k >= pictures.len() {
        k = 0;
    }
    let p = &pictures[k];
    let mut url = "data:".to_owned();
    match &p.mime {
        Some(m) => url.append(m),
        None => url.append("image/jpeg"),
    }
    url.append(";base64,");
    url.append(&base64_encode(&p.data));
    Some(url)
}

} // verus!

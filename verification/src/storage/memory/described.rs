//! What the tags of a source say of its recording: names, artists, the release
//! group and positions.
use vstd::prelude::*;
use crate::text;
use crate::text::{
    chars_between, chars_of, contains_text, split_chars, string_from_chars, trim_chars,
};
use super::{
    derive_sort_name, name_hash, parse_before_slash, parse_trck, tag_first, MemArtist,
};

verus! {

/// Tags as pairs of key and value.
pub type Tags = Seq<(Seq<char>, Seq<char>)>;

/// An artist: identifier, name and sort name.
pub type Credit = (Seq<char>, Seq<char>, Seq<char>);

impl View for MemArtist {
    type V = (Seq<char>, Seq<char>, Seq<char>);

    open spec fn view(&self) -> (Seq<char>, Seq<char>, Seq<char>) {
        (self.id@, self.name@, self.sort_name@)
    }
}

// ── Meaning ──────────────────────────────────────────────────────────────────

/// The title of a recording.
pub open spec fn title_of(t: Tags) -> Seq<char> {
    match super::tag_value(t, "TIT2"@) {
        Some(v) => v,
        None => "(Unknown)"@,
    }
}

/// A text with the blanks around it dropped, if anything is left.
pub open spec fn clean_part(s: Seq<char>) -> Option<Seq<char>> {
    if text::trim(s).len() == 0 {
        None
    } else {
        Some(text::trim(s))
    }
}

/// The further artists that a list separated by semicolons names.
pub open spec fn listed_names(t: Tags) -> Seq<Seq<char>> {
    match super::tag_value(t, "TXXX:ARTISTS"@) {
        Some(v) => text::split(v, ';').filter_map(|s: Seq<char>| clean_part(s)),
        None => Seq::empty(),
    }
}

/// The lead artist.
pub open spec fn lead_names(t: Tags) -> Seq<Seq<char>> {
    match super::tag_value(t, "TPE1"@) {
        Some(v) => seq![v],
        None => Seq::empty(),
    }
}

/// All artists of a recording, the lead artist first, each once.
pub open spec fn names_of(t: Tags) -> Seq<Seq<char>> {
    text::distinct(lead_names(t) + listed_names(t))
}

/// The identifier of an artist known by name: that of the tags, or one made from
/// the name.
pub open spec fn id_of_name(t: Tags, name: Seq<char>) -> Seq<char> {
    match super::tag_value(t, "TXXX:MusicBrainz Artist Id"@) {
        Some(v) => v,
        None => super::hashed_name("artist"@, name),
    }
}

/// The artist at a place among those of a recording.
pub open spec fn credit_at(t: Tags, i: int) -> Credit {
    let name = names_of(t)[i];
    if i == 0 {
        (
            id_of_name(t, name),
            name,
            match super::tag_value(t, "TSOP"@) {
                Some(v) => v,
                None => super::sort_name_of(name),
            },
        )
    } else {
        (super::hashed_name("artist"@, name), name, super::sort_name_of(name))
    }
}

/// The artists of a recording.
pub open spec fn credits_of(t: Tags) -> Seq<Credit> {
    Seq::new(names_of(t).len(), |i: int| credit_at(t, i))
}

/// The identifiers of the artists of a recording.
pub open spec fn ids_of(t: Tags) -> Seq<Seq<char>> {
    credits_of(t).map_values(|c: Credit| c.0)
}

/// The artist of the album: the album artist, or the lead artist.
pub open spec fn album_artist(t: Tags) -> Option<Seq<char>> {
    match super::tag_value(t, "TPE2"@) {
        Some(v) => Some(v),
        None => super::tag_value(t, "TPE1"@),
    }
}

/// The release group of a recording that names its album and an artist.
pub open spec fn group_of(t: Tags) -> Option<Seq<char>> {
    match (super::tag_value(t, "TALB"@), album_artist(t)) {
        (Some(album), Some(artist)) => Some(
            match super::tag_value(t, "TXXX:MusicBrainz Release Group Id"@) {
                Some(v) => v,
                None => super::hashed_name("rg"@, album + "|"@ + artist),
            },
        ),
        _ => None,
    }
}

/// The identifier of the artist of the album.
pub open spec fn album_artist_id(t: Tags) -> Option<Seq<char>> {
    match album_artist(t) {
        Some(name) => Some(id_of_name(t, name)),
        None => None,
    }
}

/// The first four characters of the recording date, or of the year.
pub open spec fn year_of(t: Tags) -> Option<Seq<char>> {
    let date = match super::tag_value(t, "TDRC"@) {
        Some(v) => Some(v),
        None => super::tag_value(t, "TYER"@),
    };
    match date {
        Some(v) => Some(
            if v.len() <= 4 {
                v
            } else {
                v.take(4)
            },
        ),
        None => None,
    }
}

/// The position of the track.
pub open spec fn track_of(t: Tags) -> Option<i64> {
    match super::tag_value(t, "TRCK"@) {
        Some(v) => super::slash_number(v, 0),
        None => None,
    }
}

/// The position of the disc.
pub open spec fn disc_of(t: Tags) -> Option<i64> {
    match super::tag_value(t, "TPOS"@) {
        Some(v) => super::before_slash(v),
        None => None,
    }
}

// ── Executable ───────────────────────────────────────────────────────────────

/// A copy of the value of the first tag under `key`.
pub(crate) fn tag_copy(tags: &[(String, String)], key: &str) -> (r: Option<String>)
    ensures
        text::opt_text(r) == super::tag_value(text::pairs(tags@), key@),
{
    match tag_first(tags, key) {
        Some(v) => Some(v.clone()),
        None => None,
    }
}

/// The title of a recording.
pub(crate) fn title(tags: &[(String, String)]) -> (r: String)
    ensures
        r@ == title_of(text::pairs(tags@)),
{
    match tag_first(tags, "TIT2") {
        Some(v) => v.clone(),
        None => "(Unknown)".to_owned(),
    }
}

/// All artists of a recording.
pub(crate) fn artist_names(tags: &[(String, String)]) -> (r: Vec<String>)
    ensures
        text::texts(r@) == names_of(text::pairs(tags@)),
{
    let ghost t = text::pairs(tags@);
    let mut r: Vec<String> = Vec::new();
    let ghost lead = lead_names(t);
    match tag_first(tags, "TPE1") {
        Some(v) => {
            r.push(v.clone());
            proof {
                assert(Seq::<Seq<char>>::empty().push(v@) =~= lead);
                text::lemma_distinct_push(Seq::<Seq<char>>::empty(), v@);
                assert(text::texts(r@) =~= text::distinct(lead));
            }
        },
        None => {
            assert(text::texts(r@) =~= text::distinct(lead));
        },
    }
    match tag_first(tags, "TXXX:ARTISTS") {
        Some(extra) => {
            let cs = chars_of(extra);
            let parts = split_chars(&cs, ';');
            let ghost all = text::split(extra@, ';');
            let ghost f = |s: Seq<char>| clean_part(s);
            let mut i: usize = 0;
            proof {
                assert(all.take(0) =~= Seq::empty());
                assert(lead + all.take(0).filter_map(f) =~= lead);
                assert(text::pieces(parts@).len() == parts@.len());
            }
            while i < parts.len()
                invariant
                    i <= parts@.len(),
                    parts@.len() == all.len(),
                    text::pieces(parts@) == all,
                    f == (|s: Seq<char>| clean_part(s)),
                    text::texts(r@) == text::distinct(lead + all.take(i as int).filter_map(f)),
                decreases parts@.len() - i,
            {
                let ghost found = lead + all.take(i as int).filter_map(f);
                proof {
                    all.lemma_filter_map_take_succ(f, i as int);
                    assert(text::pieces(parts@)[i as int] == parts@[i as int]@);
                }
                let name = trim_chars(&parts[i]);
                if name.len() > 0 {
                    let s = string_from_chars(&name);
                    proof {
                        assert(lead + all.take(i + 1).filter_map(f) =~= found.push(s@));
                        text::lemma_distinct_push(found, s@);
                        text::lemma_distinct(found);
                    }
                    if !contains_text(&r, &s) {
                        let ghost before = text::texts(r@);
                        r.push(s);
                        assert(text::texts(r@) =~= before.push(s@));
                    }
                } else {
                    assert(lead + all.take(i + 1).filter_map(f) =~= found);
                }
                i = i + 1;
            }
            assert(all.take(all.len() as int) =~= all);
        },
        None => {
            assert(lead + Seq::<Seq<char>>::empty() =~= lead);
        },
    }
    r
}

/// The identifier of an artist known by name.
pub(crate) fn name_id(tags: &[(String, String)], name: &str) -> (r: String)
    ensures
        r@ == id_of_name(text::pairs(tags@), name@),
{
    match tag_first(tags, "TXXX:MusicBrainz Artist Id") {
        Some(v) => v.clone(),
        None => name_hash("artist", name),
    }
}

/// The artists of a recording.
pub(crate) fn credits(tags: &[(String, String)], names: &Vec<String>) -> (r: Vec<MemArtist>)
    requires
        text::texts(names@) == names_of(text::pairs(tags@)),
    ensures
        r@.map_values(|a: MemArtist| a@) == credits_of(text::pairs(tags@)),
{
    let ghost t = text::pairs(tags@);
    let mut r: Vec<MemArtist> = Vec::new();
    let mut i: usize = 0;
    while i < names.len()
        invariant
            i <= names@.len(),
            r@.len() == i,
            t == text::pairs(tags@),
            text::texts(names@) == names_of(t),
            forall|k: int| 0 <= k < i ==> (#[trigger] r@[k])@ == credit_at(t, k),
        decreases names@.len() - i,
    {
        assert(text::texts(names@)[i as int] == names@[i as int]@);
        let name = &names[i];
        let artist = if i == 0 {
            MemArtist {
                id: name_id(tags, name),
                name: name.clone(),
                sort_name: match tag_first(tags, "TSOP") {
                    Some(v) => v.clone(),
                    None => derive_sort_name(name),
                },
            }
        } else {
            MemArtist {
                id: name_hash("artist", name),
                name: name.clone(),
                sort_name: derive_sort_name(name),
            }
        };
        r.push(artist);
        i = i + 1;
    }
    assert(text::texts(names@).len() == names@.len());
    assert(r@.map_values(|a: MemArtist| a@) =~= credits_of(t));
    r
}

/// The identifiers of artists.
pub(crate) fn credit_ids(artists: &Vec<MemArtist>) -> (r: Vec<String>)
    ensures
        text::texts(r@) == artists@.map_values(|a: MemArtist| a@).map_values(|c: Credit| c.0),
{
    let mut r: Vec<String> = Vec::new();
    let mut i: usize = 0;
    while i < artists.len()
        invariant
            i <= artists@.len(),
            r@.len() == i,
            forall|k: int| 0 <= k < i ==> (#[trigger] r@[k])@ == artists@[k].id@,
        decreases artists@.len() - i,
    {
        r.push(artists[i].id.clone());
        i = i + 1;
    }
    assert(text::texts(r@) =~= artists@.map_values(|a: MemArtist| a@).map_values(|c: Credit| c.0));
    r
}

/// The artist of the album.
pub(crate) fn album_artist_name(tags: &[(String, String)]) -> (r: Option<String>)
    ensures
        text::opt_text(r) == album_artist(text::pairs(tags@)),
{
    match tag_copy(tags, "TPE2") {
        Some(v) => Some(v),
        None => tag_copy(tags, "TPE1"),
    }
}

/// The release group of a recording.
pub(crate) fn group_id(tags: &[(String, String)]) -> (r: Option<String>)
    ensures
        text::opt_text(r) == group_of(text::pairs(tags@)),
{
    match tag_first(tags, "TALB") {
        None => None,
        Some(album) => match album_artist_name(tags) {
            None => None,
            Some(artist) => match tag_first(tags, "TXXX:MusicBrainz Release Group Id") {
                Some(v) => Some(v.clone()),
                None => {
                    let mut key = album.clone();
                    key.append("|");
                    key.append(&artist);
                    Some(name_hash("rg", &key))
                },
            },
        },
    }
}

/// The identifier of the artist of the album.
pub(crate) fn group_artist_id(tags: &[(String, String)]) -> (r: Option<String>)
    ensures
        text::opt_text(r) == album_artist_id(text::pairs(tags@)),
{
    match album_artist_name(tags) {
        Some(name) => Some(name_id(tags, &name)),
        None => None,
    }
}

/// The first four characters of the recording date, or of the year.
pub(crate) fn release_year(tags: &[(String, String)]) -> (r: Option<String>)
    ensures
        text::opt_text(r) == year_of(text::pairs(tags@)),
{
    let date = match tag_first(tags, "TDRC") {
        Some(v) => Some(v),
        None => tag_first(tags, "TYER"),
    };
    match date {
        Some(v) => {
            let cs = chars_of(v);
            if cs.len() <= 4 {
                Some(v.clone())
            } else {
                let front = chars_between(&cs, 0, 4);
                assert(front@ =~= v@.take(4));
                Some(string_from_chars(&front))
            }
        },
        None => None,
    }
}

/// The position of the track.
pub(crate) fn track_position(tags: &[(String, String)]) -> (r: Option<i64>)
    ensures
        r == track_of(text::pairs(tags@)),
{
    match tag_first(tags, "TRCK") {
        Some(v) => parse_trck(v).0,
        None => None,
    }
}

/// The position of the disc.
pub(crate) fn disc_position(tags: &[(String, String)]) -> (r: Option<i64>)
    ensures
        r == disc_of(text::pairs(tags@)),
{
    match tag_first(tags, "TPOS") {
        Some(v) => parse_before_slash(v),
        None => None,
    }
}

} // verus!

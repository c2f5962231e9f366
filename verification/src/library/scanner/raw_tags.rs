//! The tags of a file as they are stored.
//!
//! Of a file with an ID3 tag these are all its texts, and the identifiers that
//! others gave it; of another file what its tag reader told of it.
use vstd::prelude::*;
use vstd::utf8::*;
use crate::library::import;
use crate::library::import::tags_to_json;
use crate::library::tag_writer::{latin1_chars, model, parse_all_text_frames};
use crate::models::{TagProperty, TrackMetadata};
use crate::storage::memory::{described, rows};
use crate::text;
use crate::text::{same_text, string_from_chars};
use super::frames;
use super::frames::{list_frames, utf8_strict};
use super::tags;
use super::tags::metadata_to_tag_infos;

verus! {

// ── Identifiers ──────────────────────────────────────────────────────────────

/// The place of the first zero byte, or the number of bytes.
pub open spec fn zero_at(bytes: Seq<u8>) -> int
    decreases bytes.len(),
{
    if bytes.len() == 0 || bytes[0] == 0 {
        0
    } else {
        1 + zero_at(bytes.skip(1))
    }
}

/// The identifier that the content of a frame holds: the name of its owner, a zero
/// byte, and the identifier itself.
pub open spec fn owned_id(content: Seq<u8>) -> Option<(Seq<char>, Seq<char>)> {
    let at = zero_at(content);
    if 0 <= at < content.len() {
        Some(
            (
                "UFID:"@ + model::latin1(content.take(at)),
                model::latin1(content.skip(at + 1)),
            ),
        )
    } else {
        None
    }
}

/// The identifier that a frame gives, if it is a frame for that.
pub open spec fn frame_id_tag(f: frames::RawFrame) -> Option<(Seq<char>, Seq<char>)> {
    if decode_utf8(f.0) == "UFID"@ {
        owned_id(f.1)
    } else {
        None
    }
}

/// The identifiers that the frames of a file give it.
pub open spec fn id_tags(data: Seq<u8>) -> Seq<(Seq<char>, Seq<char>)> {
    frames::tag_content(data).filter_map(|f: frames::RawFrame| frame_id_tag(f))
}

fn find_zero(bytes: &[u8]) -> (at: usize)
    ensures
        at == zero_at(bytes@),
        at <= bytes@.len(),
{
    let mut at: usize = 0;
    assert(bytes@.skip(0) =~= bytes@);
    while at < bytes.len() && bytes[at] != 0
        invariant
            at <= bytes@.len(),
            zero_at(bytes@) == at + zero_at(bytes@.skip(at as int)),
        decreases bytes@.len() - at,
    {
        assert(bytes@.skip(at as int).skip(1) =~= bytes@.skip(at + 1));
        at = at + 1;
    }
    at
}

fn read_owned_id(content: &[u8]) -> (r: Option<(String, String)>)
    ensures
        match r {
            Some(tag) => owned_id(content@) == Some((tag.0@, tag.1@)),
            None => owned_id(content@) is None,
        },
{
    let at: usize = find_zero(content);
    if at == content.len() {
        return None;
    }
    let owner = vstd::slice::slice_subrange(content, 0, at);
    let id = vstd::slice::slice_subrange(content, at + 1, content.len());
    assert(owner@ =~= content@.take(at as int));
    assert(id@ =~= content@.skip(at + 1));
    let mut key = "UFID:".to_owned();
    key.append(&string_from_chars(&latin1_chars(owner)));
    Some((key, string_from_chars(&latin1_chars(id))))
}

/// Reads the identifiers that the frames of a file give it.
fn read_id_tags(data: &[u8]) -> (r: Vec<(String, String)>)
    ensures
        text::pairs(r@) == id_tags(data@),
{
    let slices = list_frames(data);
    let ghost all = frames::tag_content(data@);
    let ghost f = |f: frames::RawFrame| frame_id_tag(f);
    let mut r: Vec<(String, String)> = Vec::new();
    let mut i: usize = 0;
    proof {
        frames::lemma_listed_ids_valid(data@);
        assert(all.take(0) =~= Seq::empty());
        assert(text::pairs(r@) =~= all.take(0).filter_map(f));
    }
    while i < slices.len()
        invariant
            i <= slices@.len(),
            all == frames::slices_of(data@, slices@),
            f == (|f: frames::RawFrame| frame_id_tag(f)),
            forall|k: int| 0 <= k < slices@.len() ==> (#[trigger] slices@[k]).within(data@),
            forall|k: int| 0 <= k < all.len() ==> valid_utf8((#[trigger] all[k]).0),
            text::pairs(r@) == all.take(i as int).filter_map(f),
        decreases slices@.len() - i,
    {
        let ghost before = text::pairs(r@);
        let s = slices[i];
        assert(s.within(data@));
        let id = vstd::slice::slice_subrange(data, s.id_start, s.id_end);
        let content = vstd::slice::slice_subrange(data, s.start, s.end);
        proof {
            all.lemma_filter_map_take_succ(f, i as int);
            assert(all[i as int] == (id@, content@));
        }
        if let Some(name) = utf8_strict(id) {
            if same_text(&name, "UFID") {
                if let Some(tag) = read_owned_id(content) {
                    r.push(tag);
                    assert(text::pairs(r@) =~= before.push((tag.0@, tag.1@)));
                }
            }
        }
        assert(text::pairs(r@) =~= all.take(i + 1).filter_map(f));
        i = i + 1;
    }
    assert(all.take(all.len() as int) =~= all);
    r
}

// ── Texts ────────────────────────────────────────────────────────────────────

/// The tags that a group of frames gives: one for each value.
pub open spec fn group_tags(g: (Seq<char>, Seq<Seq<char>>)) -> Seq<(Seq<char>, Seq<char>)> {
    g.1.map_values(|v: Seq<char>| (g.0, v))
}

/// The texts of a file, key by key.
pub open spec fn text_tags(data: Seq<u8>) -> Seq<(Seq<char>, Seq<char>)> {
    model::grouped(model::file_texts(data)).map_values(
        |g: (Seq<char>, Seq<Seq<char>>)| group_tags(g),
    ).flatten()
}

/// Adds the tags that a group of frames gives.
fn push_group(out: &mut Vec<(String, String)>, key: &String, values: &Vec<String>)
    ensures
        text::pairs(final(out)@) == text::pairs(old(out)@) + group_tags(
            (key@, text::texts(values@)),
        ),
{
    let ghost first = text::pairs(out@);
    let ghost all = group_tags((key@, text::texts(values@)));
    let mut i: usize = 0;
    assert(first + all.take(0) =~= first);
    while i < values.len()
        invariant
            i <= values@.len(),
            all == group_tags((key@, text::texts(values@))),
            text::pairs(out@) == first + all.take(i as int),
        decreases values@.len() - i,
    {
        let ghost before = text::pairs(out@);
        let tag = (key.clone(), values[i].clone());
        out.push(tag);
        proof {
            assert(text::pairs(out@) =~= before.push((tag.0@, tag.1@)));
            assert(all[i as int] == (key@, values@[i as int]@));
            assert(first + all.take(i + 1) =~= (first + all.take(i as int)).push(all[i as int]));
        }
        i = i + 1;
    }
    assert(all.take(all.len() as int) =~= all);
}

/// The tags of a file as they are stored.
pub open spec fn stored_tags(
    data: Seq<u8>,
    meta: TrackMetadata,
    extra: Seq<TagProperty>,
) -> Seq<(Seq<char>, Seq<char>)> {
    if model::tag_starts(data, 0) {
        text_tags(data) + id_tags(data)
    } else {
        (tags::metadata_tags(meta) + extra.filter_map(
            |p: TagProperty| tags::property_tag(p),
        )).map_values(|t: tags::Info| (t.0, t.2))
    }
}

/// The tags of a file to be stored: `data` is the file, `meta` and `extra` is what
/// was told of it.
pub fn raw_tags(data: &[u8], meta: &TrackMetadata, extra: &[TagProperty]) -> (r: Vec<
    (String, String),
>)
    ensures
        text::pairs(r@) == stored_tags(data@, *meta, extra@),
{
    let mut r: Vec<(String, String)> = Vec::new();
    assert(text::pairs(r@) =~= Seq::empty());
    match parse_all_text_frames(data) {
        Some((groups, _)) => {
            let ghost rows = model::grouped(model::file_texts(data@)).map_values(
                |g: (Seq<char>, Seq<Seq<char>>)| group_tags(g),
            );
            let mut i: usize = 0;
            proof {
                assert(rows.take(0) =~= Seq::empty());
                assert(rows.take(0).flatten() =~= Seq::empty());
            }
            while i < groups.len()
                invariant
                    i <= groups@.len(),
                    rows == model::grouped(model::file_texts(data@)).map_values(
                        |g: (Seq<char>, Seq<Seq<char>>)| group_tags(g),
                    ),
                    model::group_views(groups@) == model::grouped(model::file_texts(data@)),
                    text::pairs(r@) == rows.take(i as int).flatten(),
                decreases groups@.len() - i,
            {
                push_group(&mut r, &groups[i].0, &groups[i].1);
                proof {
                    assert(model::group_views(groups@)[i as int] == (
                        groups@[i as int].0@,
                        text::texts(groups@[i as int].1@),
                    ));
                    assert(rows.take(i + 1) =~= rows.take(i as int).push(rows[i as int]));
                    rows.take(i as int).lemma_flatten_push(rows[i as int]);
                }
                i = i + 1;
            }
            assert(rows.take(rows.len() as int) =~= rows);
            let ghost texts = text::pairs(r@);
            let mut ids = read_id_tags(data);
            let ghost given = text::pairs(ids@);
            r.append(&mut ids);
            assert(text::pairs(r@) =~= texts + given);
        },
        None => {
            let found = metadata_to_tag_infos(meta, extra);
            let ghost all = tags::infos(found@);
            let mut i: usize = 0;
            assert(text::pairs(r@) =~= all.take(0).map_values(|t: tags::Info| (t.0, t.2)));
            while i < found.len()
                invariant
                    i <= found@.len(),
                    all == tags::infos(found@),
                    text::pairs(r@) == all.take(i as int).map_values(|t: tags::Info| (t.0, t.2)),
                decreases found@.len() - i,
            {
                let ghost before = text::pairs(r@);
                let tag = (found[i].frame_id.clone(), found[i].value.clone());
                r.push(tag);
                proof {
                    assert(text::pairs(r@) =~= before.push((tag.0@, tag.1@)));
                    assert(text::pairs(r@) =~= all.take(i + 1).map_values(
                        |t: tags::Info| (t.0, t.2),
                    ));
                }
                i = i + 1;
            }
            assert(all.take(all.len() as int) =~= all);
        },
    }
    r
}

/// The text that is stored for the tags of a file. It reads back as those tags.
pub fn build_raw_tags_json(data: &[u8], meta: &TrackMetadata, extra: &[TagProperty]) -> (r: String)
    ensures
        r@ == import::json_of_tags(stored_tags(data@, *meta, extra@)),
        rows::tags_in_json(r@) == Some(stored_tags(data@, *meta, extra@)),
{
    let tags = raw_tags(data, meta, extra);
    tags_to_json(&tags)
}

// ── Laws ─────────────────────────────────────────────────────────────────────

proof fn lemma_mbid_of_tail(tags: described::Tags, i: int)
    requires
        0 <= i < tags.len(),
        tags[i].0 == "UFID:http://musicbrainz.org"@,
        tags[i].1.len() > 0,
    ensures
        rows::mbid_of(tags) is Some,
    decreases i,
{
    if i > 0 && !(tags[0].0 == "UFID:http://musicbrainz.org"@ && tags[0].1.len() > 0) {
        assert(tags.skip(1)[i - 1] == tags[i]);
        lemma_mbid_of_tail(tags.skip(1), i - 1);
    }
}

/// Whether a frame gives an identifier of MusicBrainz.
pub open spec fn gives_mbid(f: frames::RawFrame) -> bool {
    match frame_id_tag(f) {
        Some((key, id)) => key == "UFID:http://musicbrainz.org"@ && id.len() > 0,
        None => false,
    }
}

/// The identifier that MusicBrainz gave a file is never lost: the stored tags of a
/// file with such a frame give one.
pub proof fn law_musicbrainz_id_is_kept(
    data: Seq<u8>,
    meta: TrackMetadata,
    extra: Seq<TagProperty>,
    i: int,
)
    requires
        model::tag_starts(data, 0),
        0 <= i < frames::tag_content(data).len(),
        gives_mbid(frames::tag_content(data)[i]),
    ensures
        rows::mbid_of(stored_tags(data, meta, extra)) is Some,
{
    let all = frames::tag_content(data);
    let f = |f: frames::RawFrame| frame_id_tag(f);
    text::lemma_filter_map_keeps(all, f, i);
    let ids = id_tags(data);
    let tag = frame_id_tag(all[i])->0;
    assert(ids.contains(tag));
    let k = choose|k: int| 0 <= k < ids.len() && ids[k] == tag;
    let whole = stored_tags(data, meta, extra);
    assert(whole[text_tags(data).len() + k] == ids[k]);
    lemma_mbid_of_tail(whole, text_tags(data).len() + k);
}

} // verus!

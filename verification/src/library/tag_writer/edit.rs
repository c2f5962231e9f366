//! Rewriting the tags of a file.
//!
//! Every edit reads all consecutive tags, changes the list of text frames, and
//! writes one tag in their place. What a caller writes to disk can be read back
//! and checked against the edit.
use vstd::prelude::*;
use vstd::utf8::*;
use crate::calendar;
use crate::calendar::timestamp;
use crate::digest;
use crate::digest::sha256;
use crate::library::scanner;
use crate::library::scanner::frame_id_to_field_name;
use crate::text;
use crate::text::{same_bytes, same_text};
use super::model;
use super::serialize;
use super::{
    find_audio_offset, frame_id_at, frames_in, is_text_frame, iter_tags, parse_all_text_frames,
    parse_text_frames, split_frame_key, TagError, TagSpan,
};

verus! {

// ── Preserved frames ─────────────────────────────────────────────────────────

/// The frames of one tag that are not text frames, as raw bytes.
pub fn collect_preserved_frames_in(data: &[u8], tag: &TagSpan) -> (preserved: Vec<Vec<u8>>)
    requires
        tag.body_start >= 10,
        tag.describes(data@, tag.body_start - 10),
    ensures
        model::byte_rows(preserved@) == model::opaque_frames(
            model::tag_frames(data@, tag.body_start - 10),
        ),
        forall|i: int| 0 <= i < preserved@.len() ==> (#[trigger] preserved@[i])@.len() >= 10,
{
    let spans = frames_in(data, tag);
    let ghost rows = super::span_rows(data@, spans@);
    let ghost keep = |f: Seq<u8>| !model::is_text_key(model::frame_id(f));
    let mut preserved: Vec<Vec<u8>> = Vec::new();
    let mut i: usize = 0;
    proof {
        assert(rows.take(0) =~= Seq::empty());
        assert(Seq::<Seq<u8>>::empty().filter(keep) =~= Seq::empty()) by {
            Seq::<Seq<u8>>::empty().lemma_filter_len(keep);
        }
        assert(model::byte_rows(preserved@) =~= rows.take(0).filter(keep));
    }
    while i < spans.len()
        invariant
            i <= spans@.len(),
            rows == super::span_rows(data@, spans@),
            keep == (|f: Seq<u8>| !model::is_text_key(model::frame_id(f))),
            model::byte_rows(preserved@) == rows.take(i as int).filter(keep),
            forall|k: int|
                0 <= k < spans@.len() ==> (#[trigger] spans@[k]).start + 10 <= spans@[k].end
                    <= data@.len(),
            forall|k: int| 0 <= k < preserved@.len() ==> (#[trigger] preserved@[k])@.len() >= 10,
        decreases spans@.len() - i,
    {
        let span = spans[i];
        let ghost so_far = model::byte_rows(preserved@);
        proof {
            assert(rows.take(i + 1) =~= rows.take(i as int).push(rows[i as int]));
            rows.take(i as int).lemma_filter_push(rows[i as int], keep);
        }
        let id = frame_id_at(data, span.start, span.end);
        if !is_text_frame(&id) {
            let frame = vstd::slice::slice_to_vec(
                vstd::slice::slice_subrange(data, span.start, span.end),
            );
            assert(frame@ =~= rows[i as int]);
            preserved.push(frame);
            assert(model::byte_rows(preserved@) =~= so_far.push(rows[i as int]));
        }
        i = i + 1;
    }
    assert(rows.take(rows.len() as int) =~= rows);
    preserved
}

/// Moves a frame's size field from one encoding to the other and leaves the rest
/// of the frame as it is.
pub fn reencode_frame_size(frame: &[u8], from_synchsafe: bool, to_synchsafe: bool) -> (out: Vec<u8>)
    requires
        frame@.len() >= 8,
    ensures
        out@ == model::resized_frame(frame@, from_synchsafe, to_synchsafe),
{
    let field = vstd::slice::slice_subrange(frame, 4, 8);
    let size: u32 = if from_synchsafe {
        serialize::synchsafe_to_u32(field)
    } else {
        serialize::big_endian_to_u32(field)
    };
    let encoded = if to_synchsafe {
        serialize::u32_to_synchsafe(size)
    } else {
        serialize::u32_to_big_endian(size)
    };
    let mut out = vstd::slice::slice_to_vec(vstd::slice::slice_subrange(frame, 0, 4));
    serialize::append_bytes(&mut out, &encoded);
    serialize::append_bytes(&mut out, vstd::slice::slice_subrange(frame, 8, frame.len()));
    assert(out@ =~= model::resized_frame(frame@, from_synchsafe, to_synchsafe));
    out
}

/// Whether `rows` holds a row equal to `x`.
fn contains_row(rows: &Vec<Vec<u8>>, x: &[u8]) -> (r: bool)
    ensures
        r == model::byte_rows(rows@).contains(x@),
{
    let mut i: usize = 0;
    while i < rows.len()
        invariant
            i <= rows@.len(),
            forall|k: int| 0 <= k < i ==> rows@[k]@ != x@,
        decreases rows@.len() - i,
    {
        if same_bytes(&rows[i], x) {
            assert(model::byte_rows(rows@)[i as int] == x@);
            return true;
        }
        i = i + 1;
    }
    false
}

/// The non-text frames of all consecutive tags, each once, with their sizes in
/// the encoding of `target_version`.
pub fn collect_preserved_frames_all(data: &[u8], target_version: u8) -> (preserved: Vec<Vec<u8>>)
    ensures
        model::byte_rows(preserved@) == model::file_preserved(data@, target_version),
        forall|i: int| 0 <= i < preserved@.len() ==> (#[trigger] preserved@[i])@.len() >= 10,
{
    let target_synchsafe = target_version >= 4;
    let tags = iter_tags(data);
    let ghost offsets = model::tag_offsets(data@, 0);
    let ghost rows = offsets.map_values(|o: int| model::tag_preserved(data@, o, target_version));
    let ghost mut seen: Seq<Seq<u8>> = Seq::empty();
    let mut preserved: Vec<Vec<u8>> = Vec::new();
    let mut t: usize = 0;
    proof {
        assert(rows.take(0) =~= Seq::empty());
        assert(model::byte_rows(preserved@) =~= text::distinct(seen));
    }
    while t < tags.len()
        invariant
            t <= tags@.len(),
            target_synchsafe == (target_version >= 4),
            super::describe_all(tags@, data@, offsets),
            rows == offsets.map_values(|o: int| model::tag_preserved(data@, o, target_version)),
            seen == rows.take(t as int).flatten(),
            model::byte_rows(preserved@) == text::distinct(seen),
            forall|k: int| 0 <= k < preserved@.len() ==> (#[trigger] preserved@[k])@.len() >= 10,
        decreases tags@.len() - t,
    {
        let tag = tags[t];
        assert(tags@[t as int].describes(data@, offsets[t as int]));
        let frames = collect_preserved_frames_in(data, &tag);
        let ghost row = rows[t as int];
        let ghost start = seen;
        assert(row.len() == frames@.len()) by {
            assert(model::byte_rows(frames@).len() == row.len());
        }
        let mut i: usize = 0;
        assert(start + row.take(0) =~= start);
        while i < frames.len()
            invariant
                i <= frames@.len(),
                row.len() == frames@.len(),
                row == model::tag_preserved(data@, tag.body_start - 10, target_version),
                tag.describes(data@, tag.body_start - 10),
                target_synchsafe == (target_version >= 4),
                model::byte_rows(frames@) == model::opaque_frames(
                    model::tag_frames(data@, tag.body_start - 10),
                ),
                forall|k: int| 0 <= k < frames@.len() ==> (#[trigger] frames@[k])@.len() >= 10,
                seen == start + row.take(i as int),
                model::byte_rows(preserved@) == text::distinct(seen),
                forall|k: int|
                    0 <= k < preserved@.len() ==> (#[trigger] preserved@[k])@.len() >= 10,
            decreases frames@.len() - i,
        {
            assert(model::byte_rows(frames@)[i as int] == frames@[i as int]@);
            assert(frames@[i as int]@.len() >= 10);
            let frame = if tag.synchsafe == target_synchsafe {
                vstd::slice::slice_to_vec(frames[i].as_slice())
            } else {
                reencode_frame_size(&frames[i], tag.synchsafe, target_synchsafe)
            };
            proof {
                assert(frame@ =~= row[i as int]);
                assert(start + row.take(i + 1) =~= (start + row.take(i as int)).push(frame@));
                text::lemma_distinct_push(seen, frame@);
                text::lemma_distinct(seen);
                seen = seen.push(frame@);
            }
            if !contains_row(&preserved, &frame) {
                let ghost before = model::byte_rows(preserved@);
                preserved.push(frame);
                assert(model::byte_rows(preserved@) =~= before.push(frame@));
            }
            i = i + 1;
        }
        proof {
            assert(row.take(row.len() as int) =~= row);
            rows.take(t as int).lemma_flatten_push(row);
            assert(rows.take(t + 1) =~= rows.take(t as int).push(row));
        }
        t = t + 1;
    }
    assert(rows.take(rows.len() as int) =~= rows);
    preserved
}

// ── Rebuilding ───────────────────────────────────────────────────────────────

/// A file whose tags are replaced by one tag.
pub open spec fn rebuilt(
    data: Seq<u8>,
    frames: Seq<(Seq<char>, Seq<char>)>,
    version: u8,
    preserved: Seq<Seq<u8>>,
) -> Seq<u8> {
    model::tag_bytes(frames, preserved, version) + model::audio_of(data)
}

/// Replaces all tags of a file by one tag with the given frames.
pub fn rebuild_file(
    original_data: &[u8],
    frames: &[(String, String)],
    id3v2_version: u8,
    preserved: &[Vec<u8>],
) -> (r: Result<Vec<u8>, TagError>)
    ensures
        match r {
            Ok(out) => 2 <= id3v2_version <= 4 && out@ == rebuilt(
                original_data@,
                text::pairs(frames@),
                id3v2_version,
                model::byte_rows(preserved@),
            ),
            Err(e) => !(2 <= id3v2_version <= 4) && e == TagError::UnsupportedVersion(
                id3v2_version,
            ),
        },
{
    let audio_start: usize = find_audio_offset(original_data);
    let audio = vstd::slice::slice_subrange(original_data, audio_start, original_data.len());
    assert(audio@ =~= model::audio_of(original_data@));
    match serialize::serialize_tag(frames, preserved, id3v2_version) {
        Ok(tag) => {
            let mut out = tag;
            serialize::append_bytes(&mut out, audio);
            Ok(out)
        },
        Err(e) => Err(e),
    }
}

// ── Hashing ──────────────────────────────────────────────────────────────────

/// The SHA-256 of a file's audio: the bytes past all ID3v2 tags.
pub fn audio_hash(data: &[u8]) -> (hash: Vec<u8>)
    ensures
        hash@ == digest::sha256_of(model::audio_of(data@)),
        hash@.len() == 32,
{
    let audio_start: usize = find_audio_offset(data);
    let audio = vstd::slice::slice_subrange(data, audio_start, data.len());
    assert(audio@ =~= model::audio_of(data@));
    sha256(audio)
}

/// The SHA-256 of a whole file.
pub fn full_hash(data: &[u8]) -> (hash: Vec<u8>)
    ensures
        hash@ == digest::sha256_of(data@),
        hash@.len() == 32,
{
    sha256(data)
}

// ── Edits ────────────────────────────────────────────────────────────────────

/// A file with its tags rewritten, and what is needed to check it on disk.
#[derive(Debug, Clone)]
pub struct Rewrite {
    /// The new file.
    pub data: Vec<u8>,
    /// Number of frames in the new tag.
    pub frame_count: usize,
    /// SHA-256 of the audio before the edit.
    pub pre_audio_hash: Vec<u8>,
    /// SHA-256 of the whole file before the edit.
    pub pre_full_hash: Vec<u8>,
}

/// The frames of a file, each key once with its first value.
pub open spec fn collapsed(data: Seq<u8>) -> Seq<(Seq<char>, Seq<char>)> {
    model::grouped(model::file_texts(data)).map_values(
        |g: (Seq<char>, Seq<Seq<char>>)|
            (
                g.0,
                if g.1.len() > 0 {
                    g.1[0]
                } else {
                    Seq::empty()
                },
            ),
    )
}

/// The frames with the value of the first frame under `key` replaced, or with a
/// frame added at the end when there is none.
pub open spec fn upserted(
    frames: Seq<(Seq<char>, Seq<char>)>,
    key: Seq<char>,
    value: Seq<char>,
) -> Seq<(Seq<char>, Seq<char>)> {
    let i = text::first_at(model::keys_of(frames), key);
    if i < frames.len() {
        frames.update(i, (key, value))
    } else {
        frames.push((key, value))
    }
}

/// Whether a frame is under another key than `key`.
pub open spec fn under_other_key(key: Seq<char>) -> spec_fn((Seq<char>, Seq<char>)) -> bool {
    |f: (Seq<char>, Seq<char>)| f.0 != key
}

/// The frames without those under `key`.
pub open spec fn without_key(frames: Seq<(Seq<char>, Seq<char>)>, key: Seq<char>) -> Seq<
    (Seq<char>, Seq<char>),
> {
    frames.filter(under_other_key(key))
}

/// The value that the last of `decisions` for `key` chooses.
pub open spec fn decided(decisions: Seq<(Seq<char>, Seq<char>)>, key: Seq<char>) -> Option<
    Seq<char>,
>
    decreases decisions.len(),
{
    if decisions.len() == 0 {
        None
    } else if decisions.last().0 == key {
        Some(decisions.last().1)
    } else {
        decided(decisions.drop_last(), key)
    }
}

/// The frames of a file, each key once with the value decided for it or else its
/// first value.
pub open spec fn merged(data: Seq<u8>, decisions: Seq<(Seq<char>, Seq<char>)>) -> Seq<
    (Seq<char>, Seq<char>),
> {
    collapsed(data).map_values(
        |f: (Seq<char>, Seq<char>)|
            (
                f.0,
                match decided(decisions, f.0) {
                    Some(v) => v,
                    None => f.1,
                },
            ),
    )
}

/// The raw frames that an edit of a file keeps.
pub open spec fn raw_frames(data: Seq<u8>) -> Seq<Seq<u8>> {
    model::file_preserved(data, model::tag_version(data, 0))
}

/// Whether a raw frame has another identifier than `key`.
pub open spec fn named_otherwise(key: Seq<char>) -> spec_fn(Seq<u8>) -> bool {
    |f: Seq<u8>| model::frame_id(f) != key
}

/// The raw frames of a file without those whose identifier is `key`.
pub open spec fn raw_without(data: Seq<u8>, key: Seq<char>) -> Seq<Seq<u8>> {
    raw_frames(data).filter(named_otherwise(key))
}

/// A file rewritten to hold `frames` and the raw frames `raw`.
pub open spec fn rewritten(
    data: Seq<u8>,
    frames: Seq<(Seq<char>, Seq<char>)>,
    raw: Seq<Seq<u8>>,
) -> Seq<u8> {
    rebuilt(data, frames, model::tag_version(data, 0), raw)
}

/// Whether `w` rewrites `data` to hold `frames` and the raw frames `raw`.
pub open spec fn rewrites(
    w: Rewrite,
    data: Seq<u8>,
    frames: Seq<(Seq<char>, Seq<char>)>,
    raw: Seq<Seq<u8>>,
) -> bool {
    &&& w.data@ == rewritten(data, frames, raw)
    &&& w.frame_count == model::written_frames(frames, model::tag_version(data, 0)).len()
        + raw.len()
    &&& w.pre_audio_hash@ == digest::sha256_of(model::audio_of(data))
    &&& w.pre_full_hash@ == digest::sha256_of(data)
}

/// The frames of a file, each key once with its first value, and the version of
/// the first tag.
pub fn collapse_tags(data: &[u8]) -> (r: Result<(Vec<(String, String)>, u8), TagError>)
    ensures
        match r {
            Ok((frames, version)) => model::tag_starts(data@, 0) && version == model::tag_version(
                data@,
                0,
            ) && text::pairs(frames@) == collapsed(data@),
            Err(e) => !model::tag_starts(data@, 0) && e == TagError::NoTag,
        },
{
    match parse_all_text_frames(data) {
        None => Err(TagError::NoTag),
        Some((groups, version)) => {
            let ghost all = model::grouped(model::file_texts(data@));
            let mut frames: Vec<(String, String)> = Vec::new();
            let mut i: usize = 0;
            while i < groups.len()
                invariant
                    i <= groups@.len(),
                    model::group_views(groups@) == all,
                    all == model::grouped(model::file_texts(data@)),
                    text::pairs(frames@) == collapsed(data@).take(i as int),
                decreases groups@.len() - i,
            {
                let ghost so_far = text::pairs(frames@);
                assert(model::group_views(groups@)[i as int] == all[i as int]);
                assert(text::texts(groups@[i as int].1@) == all[i as int].1);
                let id = groups[i].0.clone();
                let value = if groups[i].1.len() > 0 {
                    groups[i].1[0].clone()
                } else {
                    String::new()
                };
                assert(collapsed(data@)[i as int] == (id@, value@));
                frames.push((id, value));
                assert(text::pairs(frames@) =~= so_far.push((id@, value@)));
                assert(collapsed(data@).take(i + 1) =~= collapsed(data@).take(i as int).push(
                    (id@, value@),
                ));
                i = i + 1;
            }
            assert(model::group_views(groups@).len() == all.len());
            assert(collapsed(data@).take(i as int) =~= collapsed(data@));
            Ok((frames, version))
        },
    }
}

/// The number of text frames among `frames`.
fn count_text_frames(frames: &Vec<(String, String)>, version: u8) -> (n: usize)
    ensures
        n == model::written_frames(text::pairs(frames@), version).len(),
{
    let ghost all = text::pairs(frames@);
    let ghost write = |f: (Seq<char>, Seq<char>)| model::written_frame(f, version);
    let mut n: usize = 0;
    let mut i: usize = 0;
    assert(all.take(0).filter_map(write).len() == 0) by {
        reveal(Seq::filter_map);
    }
    while i < frames.len()
        invariant
            n <= i <= frames@.len(),
            all == text::pairs(frames@),
            write == (|f: (Seq<char>, Seq<char>)| model::written_frame(f, version)),
            n == all.take(i as int).filter_map(write).len(),
        decreases frames@.len() - i,
    {
        proof {
            all.lemma_filter_map_take_succ(write, i as int);
            assert(all[i as int] == (frames@[i as int].0@, frames@[i as int].1@));
        }
        if is_text_frame(&frames[i].0) {
            n = n + 1;
        }
        i = i + 1;
    }
    assert(all.take(all.len() as int) =~= all);
    n
}

/// Rows that are not empty are no more than their bytes.
proof fn lemma_rows_within_bytes(rows: Seq<Seq<u8>>)
    requires
        forall|i: int| 0 <= i < rows.len() ==> (#[trigger] rows[i]).len() > 0,
    ensures
        rows.len() <= rows.flatten().len(),
    decreases rows.len(),
{
    if rows.len() > 0 {
        let rest = rows.drop_first();
        assert forall|i: int| 0 <= i < rest.len() implies (#[trigger] rest[i]).len() > 0 by {
            assert(rest[i] == rows[i + 1]);
        }
        lemma_rows_within_bytes(rest);
        assert(rows[0].len() > 0);
        assert(rows.flatten() == rows.first() + rest.flatten());
    }
}

proof fn lemma_written_frames_not_empty(frames: Seq<(Seq<char>, Seq<char>)>, version: u8)
    ensures
        forall|i: int|
            0 <= i < model::written_frames(frames, version).len() ==> (
            #[trigger] model::written_frames(frames, version)[i]).len() > 0,
{
    let write = |f: (Seq<char>, Seq<char>)| model::written_frame(f, version);
    let all = model::written_frames(frames, version);
    assert forall|i: int| 0 <= i < all.len() implies (#[trigger] all[i]).len() > 0 by {
        assert(all.contains(all[i]));
        text::lemma_filter_map_source(frames, write, all[i]);
    }
}

/// Rewrites a file to hold `frames` and the raw frames `raw`.
fn rewrite(data: &[u8], frames: &Vec<(String, String)>, raw: &Vec<Vec<u8>>, version: u8) -> (r:
    Result<Rewrite, TagError>)
    requires
        model::tag_starts(data@, 0),
        version == model::tag_version(data@, 0),
        forall|i: int| 0 <= i < raw@.len() ==> (#[trigger] raw@[i])@.len() > 0,
    ensures
        r is Ok,
        rewrites(r->Ok_0, data@, text::pairs(frames@), model::byte_rows(raw@)),
{
    let pre_audio_hash = audio_hash(data);
    let pre_full_hash = full_hash(data);
    let texts: usize = count_text_frames(frames, version);
    match rebuild_file(data, frames, version, raw) {
        Ok(new_data) => {
            proof {
                let written = model::written_frames(text::pairs(frames@), version);
                let rows = model::byte_rows(raw@);
                lemma_written_frames_not_empty(text::pairs(frames@), version);
                lemma_rows_within_bytes(written);
                assert forall|i: int| 0 <= i < rows.len() implies (#[trigger] rows[i]).len() > 0 by {
                    assert(raw@[i]@.len() > 0);
                }
                lemma_rows_within_bytes(rows);
                assert(new_data.len() == new_data@.len());
            }
            let frame_count: usize = texts + raw.len();
            Ok(Rewrite { data: new_data, frame_count, pre_audio_hash, pre_full_hash })
        },
        Err(e) => Err(e),
    }
}

/// Sets the value of the first frame under `frame_id`, or adds the frame when
/// there is none. All consecutive tags become one, and duplicate frames keep
/// their first value.
pub fn write_single_frame(data: &[u8], frame_id: &str, new_value: &str) -> (r: Result<
    Rewrite,
    TagError,
>)
    ensures
        match r {
            Ok(w) => model::tag_starts(data@, 0) && rewrites(
                w,
                data@,
                upserted(collapsed(data@), frame_id@, new_value@),
                raw_frames(data@),
            ),
            Err(e) => !model::tag_starts(data@, 0) && e == TagError::NoTag,
        },
{
    match collapse_tags(data) {
        Err(e) => Err(e),
        Ok((found_frames, version)) => {
            let mut frames = found_frames;
            let ghost all = collapsed(data@);
            let ghost keys = model::keys_of(all);
            let mut i: usize = 0;
            while i < frames.len() && !same_text(&frames[i].0, frame_id)
                invariant
                    i <= frames@.len(),
                    all == text::pairs(frames@),
                    keys == model::keys_of(all),
                    forall|k: int| 0 <= k < i ==> keys[k] != frame_id@,
                decreases frames@.len() - i,
            {
                assert(all[i as int] == (frames@[i as int].0@, frames@[i as int].1@));
                i = i + 1;
            }
            proof {
                if i < frames@.len() {
                    assert(all[i as int] == (frames@[i as int].0@, frames@[i as int].1@));
                }
                text::lemma_first_at_is(keys, frame_id@, i as int);
            }
            if i < frames.len() {
                frames.set(i, (frame_id.to_owned(), new_value.to_owned()));
            } else {
                frames.push((frame_id.to_owned(), new_value.to_owned()));
            }
            assert(text::pairs(frames@) =~= upserted(all, frame_id@, new_value@));
            let raw = collect_preserved_frames_all(data, version);
            rewrite(data, &frames, &raw, version)
        },
    }
}

/// The raw frames of a file without those whose identifier is `frame_id`.
fn other_raw_frames(data: &[u8], version: u8, frame_id: &str) -> (kept: Vec<Vec<u8>>)
    requires
        version == model::tag_version(data@, 0),
    ensures
        model::byte_rows(kept@) == raw_without(data@, frame_id@),
        forall|i: int| 0 <= i < kept@.len() ==> (#[trigger] kept@[i])@.len() >= 10,
{
    let raw = collect_preserved_frames_all(data, version);
    let ghost rows = model::byte_rows(raw@);
    let ghost keep = named_otherwise(frame_id@);
    let mut kept: Vec<Vec<u8>> = Vec::new();
    let mut i: usize = 0;
    proof {
        assert(rows.take(0) =~= Seq::empty());
        rows.take(0).lemma_filter_len(keep);
        assert(model::byte_rows(kept@) =~= rows.take(0).filter(keep));
    }
    while i < raw.len()
        invariant
            i <= raw@.len(),
            rows == model::byte_rows(raw@),
            keep == named_otherwise(frame_id@),
            model::byte_rows(kept@) == rows.take(i as int).filter(keep),
            forall|k: int| 0 <= k < raw@.len() ==> (#[trigger] raw@[k])@.len() >= 10,
            forall|k: int| 0 <= k < kept@.len() ==> (#[trigger] kept@[k])@.len() >= 10,
        decreases raw@.len() - i,
    {
        let ghost so_far = model::byte_rows(kept@);
        proof {
            assert(rows.take(i + 1) =~= rows.take(i as int).push(rows[i as int]));
            rows.take(i as int).lemma_filter_push(rows[i as int], keep);
            assert(raw@[i as int]@.len() >= 10);
        }
        if !has_id(&raw[i], frame_id) {
            kept.push(vstd::slice::slice_to_vec(raw[i].as_slice()));
            assert(model::byte_rows(kept@) =~= so_far.push(rows[i as int]));
        }
        i = i + 1;
    }
    assert(rows.take(rows.len() as int) =~= rows);
    kept
}

/// Whether a raw frame has the identifier `frame_id`.
fn has_id(frame: &Vec<u8>, frame_id: &str) -> (r: bool)
    requires
        frame@.len() >= 10,
    ensures
        r == (model::frame_id(frame@) == frame_id@),
{
    let id = frame_id_at(frame, 0, frame.len());
    assert(frame@.subrange(0, frame@.len() as int) =~= frame@);
    same_text(&id, frame_id)
}

/// Removes every frame under `frame_id`, be it a text frame or another. All
/// consecutive tags become one, and duplicate frames keep their first value.
pub fn delete_frame(data: &[u8], frame_id: &str) -> (r: Result<Rewrite, TagError>)
    ensures
        match r {
            Ok(w) => model::tag_starts(data@, 0) && rewrites(
                w,
                data@,
                without_key(collapsed(data@), frame_id@),
                raw_without(data@, frame_id@),
            ),
            Err(e) => !model::tag_starts(data@, 0) && e == TagError::NoTag,
        },
{
    match collapse_tags(data) {
        Err(e) => Err(e),
        Ok((frames, version)) => {
            let ghost all = collapsed(data@);
            let ghost keep = under_other_key(frame_id@);
            let mut kept: Vec<(String, String)> = Vec::new();
            let mut i: usize = 0;
            proof {
                assert(all.take(0) =~= Seq::empty());
                all.take(0).lemma_filter_len(keep);
                assert(text::pairs(kept@) =~= all.take(0).filter(keep));
            }
            while i < frames.len()
                invariant
                    i <= frames@.len(),
                    all == text::pairs(frames@),
                    keep == under_other_key(frame_id@),
                    text::pairs(kept@) == all.take(i as int).filter(keep),
                decreases frames@.len() - i,
            {
                let ghost so_far = text::pairs(kept@);
                proof {
                    assert(all.take(i + 1) =~= all.take(i as int).push(all[i as int]));
                    all.take(i as int).lemma_filter_push(all[i as int], keep);
                    assert(all[i as int] == (frames@[i as int].0@, frames@[i as int].1@));
                }
                if !same_text(&frames[i].0, frame_id) {
                    kept.push((frames[i].0.clone(), frames[i].1.clone()));
                    assert(text::pairs(kept@) =~= so_far.push(all[i as int]));
                }
                i = i + 1;
            }
            assert(all.take(all.len() as int) =~= all);
            let raw = other_raw_frames(data, version, frame_id);
            rewrite(data, &kept, &raw, version)
        },
    }
}

/// A frame whose value differs between the consecutive tags of a file.
#[derive(Debug, Clone)]
pub struct MergeConflict {
    /// Frame key: an identifier, or `base:description`.
    pub frame_id: String,
    /// Readable name of the frame.
    pub field_name: String,
    /// The distinct values, in file order.
    pub values: Vec<String>,
}

impl MergeConflict {
    /// Whether this is the conflict of a group of values.
    pub open spec fn reports(self, g: (Seq<char>, Seq<Seq<char>>)) -> bool {
        &&& self.frame_id@ == g.0
        &&& self.field_name@ == scanner::field_name(model::key_base(g.0))
        &&& text::texts(self.values@) == g.1
    }
}

/// The value chosen for one conflicting frame.
#[derive(Debug, Clone)]
pub struct MergeDecision {
    pub frame_id: String,
    pub value: String,
}

/// The frames of a file whose value differs between its tags.
pub open spec fn conflicts(data: Seq<u8>) -> Seq<(Seq<char>, Seq<Seq<char>>)> {
    model::grouped(model::file_texts(data)).filter(
        |g: (Seq<char>, Seq<Seq<char>>)| g.1.len() >= 2,
    )
}

/// The view of a list of decisions.
pub open spec fn decision_pairs(v: Seq<MergeDecision>) -> Seq<(Seq<char>, Seq<char>)> {
    Seq::new(v.len(), |i: int| (v[i].frame_id@, v[i].value@))
}

/// The frames that need a decision before the tags of a file can be merged: those
/// with two or more distinct values.
pub fn preview_merge(data: &[u8]) -> (r: Result<Vec<MergeConflict>, TagError>)
    ensures
        match r {
            Ok(found) => {
                &&& model::tag_starts(data@, 0)
                &&& found@.len() == conflicts(data@).len()
                &&& forall|i: int|
                    0 <= i < found@.len() ==> (#[trigger] found@[i]).reports(conflicts(data@)[i])
            },
            Err(e) => !model::tag_starts(data@, 0) && e == TagError::NoTag,
        },
{
    match parse_all_text_frames(data) {
        None => Err(TagError::NoTag),
        Some((groups, _version)) => {
            let ghost all = model::grouped(model::file_texts(data@));
            let ghost keep = |g: (Seq<char>, Seq<Seq<char>>)| g.1.len() >= 2;
            let mut found: Vec<MergeConflict> = Vec::new();
            let mut i: usize = 0;
            proof {
                assert(all.take(0) =~= Seq::empty());
                all.take(0).lemma_filter_len(keep);
            }
            while i < groups.len()
                invariant
                    i <= groups@.len(),
                    model::group_views(groups@) == all,
                    keep == (|g: (Seq<char>, Seq<Seq<char>>)| g.1.len() >= 2),
                    found@.len() == all.take(i as int).filter(keep).len(),
                    forall|k: int|
                        0 <= k < found@.len() ==> (#[trigger] found@[k]).reports(
                            all.take(i as int).filter(keep)[k],
                        ),
                decreases groups@.len() - i,
            {
                proof {
                    assert(all.take(i + 1) =~= all.take(i as int).push(all[i as int]));
                    all.take(i as int).lemma_filter_push(all[i as int], keep);
                    assert(model::group_views(groups@)[i as int] == all[i as int]);
                }
                let ghost before = all.take(i as int).filter(keep);
                if groups[i].1.len() >= 2 {
                    let base = split_frame_key(&groups[i].0).0;
                    let values = clone_texts(&groups[i].1);
                    let c = MergeConflict {
                        field_name: frame_id_to_field_name(base).to_owned(),
                        frame_id: groups[i].0.clone(),
                        values,
                    };
                    assert(c.reports(all[i as int]));
                    found.push(c);
                    assert forall|k: int| 0 <= k < found@.len() implies (#[trigger] found@[k])
                        .reports(all.take(i + 1).filter(keep)[k]) by {
                        if k < found@.len() - 1 {
                            assert(found@[k].reports(before[k]));
                        }
                    }
                }
                i = i + 1;
            }
            assert(model::group_views(groups@).len() == groups@.len());
            assert(all.take(all.len() as int) =~= all);
            Ok(found)
        },
    }
}

/// A copy of a list of strings.
pub(crate) fn clone_texts(v: &Vec<String>) -> (r: Vec<String>)
    ensures
        text::texts(r@) == text::texts(v@),
{
    let mut r: Vec<String> = Vec::new();
    let mut i: usize = 0;
    while i < v.len()
        invariant
            i <= v@.len(),
            r@.len() == i,
            forall|k: int| 0 <= k < i ==> (#[trigger] r@[k])@ == v@[k]@,
        decreases v@.len() - i,
    {
        r.push(v[i].clone());
        i = i + 1;
    }
    assert(text::texts(r@) =~= text::texts(v@));
    r
}

/// The value that the last decision for `key` chooses.
fn last_decision(decisions: &[MergeDecision], key: &str) -> (r: Option<String>)
    ensures
        text::opt_text(r) == decided(decision_pairs(decisions@), key@),
{
    let ghost all = decision_pairs(decisions@);
    let mut n: usize = decisions.len();
    assert(all.take(n as int) =~= all);
    while n > 0
        invariant
            n <= decisions@.len(),
            all == decision_pairs(decisions@),
            decided(all.take(n as int), key@) == decided(all, key@),
        decreases n,
    {
        assert(all.take(n as int).last() == all[n - 1]);
        assert(all.take(n as int).drop_last() =~= all.take(n - 1));
        if same_text(&decisions[n - 1].frame_id, key) {
            return Some(decisions[n - 1].value.clone());
        }
        n = n - 1;
    }
    None
}

/// Merges all consecutive tags into one. A frame with a decision takes the value
/// decided last for it, any other frame its first value.
pub fn apply_merge(data: &[u8], decisions: &[MergeDecision]) -> (r: Result<Rewrite, TagError>)
    ensures
        match r {
            Ok(w) => model::tag_starts(data@, 0) && rewrites(
                w,
                data@,
                merged(data@, decision_pairs(decisions@)),
                raw_frames(data@),
            ),
            Err(e) => !model::tag_starts(data@, 0) && e == TagError::NoTag,
        },
{
    match collapse_tags(data) {
        Err(e) => Err(e),
        Ok((frames, version)) => {
            let ghost all = collapsed(data@);
            let ghost goal = merged(data@, decision_pairs(decisions@));
            let mut chosen: Vec<(String, String)> = Vec::new();
            let mut i: usize = 0;
            while i < frames.len()
                invariant
                    i <= frames@.len(),
                    all == text::pairs(frames@),
                    all == collapsed(data@),
                    goal == merged(data@, decision_pairs(decisions@)),
                    text::pairs(chosen@) == goal.take(i as int),
                decreases frames@.len() - i,
            {
                let ghost so_far = text::pairs(chosen@);
                assert(all[i as int] == (frames@[i as int].0@, frames@[i as int].1@));
                let value = match last_decision(decisions, &frames[i].0) {
                    Some(v) => v,
                    None => frames[i].1.clone(),
                };
                assert(goal[i as int] == (frames@[i as int].0@, value@));
                chosen.push((frames[i].0.clone(), value));
                assert(text::pairs(chosen@) =~= so_far.push(goal[i as int]));
                assert(goal.take(i + 1) =~= goal.take(i as int).push(goal[i as int]));
                i = i + 1;
            }
            assert(all.len() == frames@.len());
            assert(goal.take(i as int) =~= goal);
            let raw = collect_preserved_frames_all(data, version);
            rewrite(data, &chosen, &raw, version)
        },
    }
}

// ── Checking what was written ────────────────────────────────────────────────

/// Result of a tag edit that was written and checked.
#[derive(Debug, Clone)]
pub struct TagWriteResult {
    /// Path of the backup file, which is never removed automatically.
    pub backup_path: String,
    /// SHA-256 of the audio before the edit.
    pub pre_audio_hash: Vec<u8>,
    /// SHA-256 of the audio after the edit.
    pub post_audio_hash: Vec<u8>,
    /// SHA-256 of the whole file before the edit.
    pub pre_full_hash: Vec<u8>,
    /// Number of frames in the rewritten tag.
    pub frame_count: usize,
}

/// Why a written file was rejected and has to be restored from its backup.
#[derive(Debug, Clone, Copy, PartialEq, Eq, Structural)]
pub enum VerifyError {
    /// The audio is not what it was before the edit.
    AudioChanged,
    /// The written file has no tag.
    Unreadable,
    /// The edited frame does not read back with its new value.
    EditMissing,
    /// The deleted frame is still there.
    StillPresent,
    /// The decision at this position does not read back.
    DecisionMissing(usize),
}

/// The reason to reject a written file whatever the edit was.
pub open spec fn common_fault(written: Seq<u8>, pre_audio_hash: Seq<u8>) -> Option<VerifyError> {
    if digest::sha256_of(model::audio_of(written)) != pre_audio_hash {
        Some(VerifyError::AudioChanged)
    } else if !model::tag_starts(written, 0) {
        Some(VerifyError::Unreadable)
    } else {
        None
    }
}

/// Whether a result reports the checked edit `w`.
pub open spec fn reports_edit(
    t: TagWriteResult,
    w: Rewrite,
    backup_path: Seq<char>,
    written: Seq<u8>,
) -> bool {
    &&& t.backup_path@ == backup_path
    &&& t.pre_audio_hash@ == w.pre_audio_hash@
    &&& t.post_audio_hash@ == digest::sha256_of(model::audio_of(written))
    &&& t.pre_full_hash@ == w.pre_full_hash@
    &&& t.frame_count == w.frame_count
}

/// Reads back a written file: its text frames and version, and the result to
/// report when the edit is found in them.
fn read_back(w: &Rewrite, backup_path: &str, written: &[u8]) -> (r: Result<
    (Vec<(String, String)>, u8, TagWriteResult),
    VerifyError,
>)
    ensures
        match r {
            Ok((frames, version, t)) => {
                &&& version == model::tag_version(written@, 0)
                &&& common_fault(written@, w.pre_audio_hash@) is None
                &&& text::pairs(frames@) == model::tag_texts(written@, 0)
                &&& reports_edit(t, *w, backup_path@, written@)
            },
            Err(e) => common_fault(written@, w.pre_audio_hash@) == Some(e),
        },
{
    let post_audio_hash = audio_hash(written);
    if !same_bytes(&post_audio_hash, &w.pre_audio_hash) {
        return Err(VerifyError::AudioChanged);
    }
    match parse_text_frames(written) {
        None => Err(VerifyError::Unreadable),
        Some((frames, version)) => {
            let pre_audio_hash = vstd::slice::slice_to_vec(w.pre_audio_hash.as_slice());
            let pre_full_hash = vstd::slice::slice_to_vec(w.pre_full_hash.as_slice());
            Ok(
                (
                    frames,
                    version,
                    TagWriteResult {
                        backup_path: backup_path.to_owned(),
                        pre_audio_hash,
                        post_audio_hash,
                        pre_full_hash,
                        frame_count: w.frame_count,
                    },
                ),
            )
        },
    }
}

/// Whether a frame with this key and value is among `frames`.
fn has_frame(frames: &Vec<(String, String)>, key: &str, value: &str) -> (r: bool)
    ensures
        r == text::pairs(frames@).contains((key@, value@)),
{
    let mut i: usize = 0;
    while i < frames.len()
        invariant
            i <= frames@.len(),
            forall|k: int| 0 <= k < i ==> text::pairs(frames@)[k] != (key@, value@),
        decreases frames@.len() - i,
    {
        if same_text(&frames[i].0, key) && same_text(&frames[i].1, value) {
            assert(text::pairs(frames@)[i as int] == (key@, value@));
            return true;
        }
        i = i + 1;
    }
    false
}

/// Checks a file written for [`write_single_frame`]: the audio is unchanged and
/// the frame reads back with its new value.
pub fn verify_write(w: &Rewrite, backup_path: &str, written: &[u8], frame_id: &str, value: &str)
    -> (r: Result<TagWriteResult, VerifyError>)
    ensures
        match common_fault(written@, w.pre_audio_hash@) {
            Some(e) => r == Err::<TagWriteResult, VerifyError>(e),
            None => if model::tag_texts(written@, 0).contains((frame_id@, value@)) {
                r is Ok && reports_edit(r->Ok_0, *w, backup_path@, written@)
            } else {
                r == Err::<TagWriteResult, VerifyError>(VerifyError::EditMissing)
            },
        },
{
    match read_back(w, backup_path, written) {
        Err(e) => Err(e),
        Ok((frames, _version, t)) => {
            if has_frame(&frames, frame_id, value) {
                Ok(t)
            } else {
                Err(VerifyError::EditMissing)
            }
        },
    }
}

/// Whether a file holds a frame under `key`, be it a text frame or another.
pub open spec fn still_present(data: Seq<u8>, key: Seq<char>) -> bool {
    ||| model::keys_of(model::tag_texts(data, 0)).contains(key)
    ||| exists|i: int|
        0 <= i < raw_frames(data).len() && model::frame_id(#[trigger] raw_frames(data)[i]) == key
}

/// Checks a file written for [`delete_frame`]: the audio is unchanged and no
/// frame has the deleted key.
pub fn verify_delete(w: &Rewrite, backup_path: &str, written: &[u8], frame_id: &str) -> (r: Result<
    TagWriteResult,
    VerifyError,
>)
    ensures
        match common_fault(written@, w.pre_audio_hash@) {
            Some(e) => r == Err::<TagWriteResult, VerifyError>(e),
            None => if still_present(written@, frame_id@) {
                r == Err::<TagWriteResult, VerifyError>(VerifyError::StillPresent)
            } else {
                r is Ok && reports_edit(r->Ok_0, *w, backup_path@, written@)
            },
        },
{
    match read_back(w, backup_path, written) {
        Err(e) => Err(e),
        Ok((frames, version, t)) => {
            let ghost keys = model::keys_of(model::tag_texts(written@, 0));
            let mut i: usize = 0;
            while i < frames.len()
                invariant
                    i <= frames@.len(),
                    keys == model::keys_of(text::pairs(frames@)),
                    keys == model::keys_of(model::tag_texts(written@, 0)),
                    common_fault(written@, w.pre_audio_hash@) is None,
                    forall|k: int| 0 <= k < i ==> keys[k] != frame_id@,
                decreases frames@.len() - i,
            {
                assert(text::pairs(frames@)[i as int].0 == frames@[i as int].0@);
                assert(keys[i as int] == frames@[i as int].0@);
                if same_text(&frames[i].0, frame_id) {
                    assert(keys.contains(frame_id@));
                    return Err(VerifyError::StillPresent);
                }
                i = i + 1;
            }
            assert(!keys.contains(frame_id@));
            let raw = collect_preserved_frames_all(written, version);
            let ghost rows = model::byte_rows(raw@);
            let mut j: usize = 0;
            while j < raw.len()
                invariant
                    j <= raw@.len(),
                    rows == model::byte_rows(raw@),
                    rows == raw_frames(written@),
                    common_fault(written@, w.pre_audio_hash@) is None,
                    forall|k: int| 0 <= k < raw@.len() ==> (#[trigger] raw@[k])@.len() >= 10,
                    forall|k: int|
                        0 <= k < j ==> model::frame_id(#[trigger] rows[k]) != frame_id@,
                decreases raw@.len() - j,
            {
                assert(rows[j as int] == raw@[j as int]@);
                assert(raw@[j as int]@.len() >= 10);
                if has_id(&raw[j], frame_id) {
                    return Err(VerifyError::StillPresent);
                }
                j = j + 1;
            }
            Ok(t)
        },
    }
}

/// Checks a file written for [`apply_merge`]: the audio is unchanged and every
/// decision reads back. The first one that does not is reported.
pub fn verify_merge(
    w: &Rewrite,
    backup_path: &str,
    written: &[u8],
    decisions: &[MergeDecision],
) -> (r: Result<TagWriteResult, VerifyError>)
    ensures
        match common_fault(written@, w.pre_audio_hash@) {
            Some(e) => r == Err::<TagWriteResult, VerifyError>(e),
            None => match r {
                Ok(t) => {
                    &&& reports_edit(t, *w, backup_path@, written@)
                    &&& forall|i: int|
                        0 <= i < decisions@.len() ==> model::tag_texts(written@, 0).contains(
                            #[trigger] decision_pairs(decisions@)[i],
                        )
                },
                Err(e) => {
                    &&& e is DecisionMissing
                    &&& e->0 < decisions@.len()
                    &&& !model::tag_texts(written@, 0).contains(
                        decision_pairs(decisions@)[e->0 as int],
                    )
                    &&& forall|i: int|
                        0 <= i < e->0 ==> model::tag_texts(written@, 0).contains(
                            #[trigger] decision_pairs(decisions@)[i],
                        )
                },
            },
        },
{
    match read_back(w, backup_path, written) {
        Err(e) => Err(e),
        Ok((frames, _version, t)) => {
            let ghost found = model::tag_texts(written@, 0);
            let mut i: usize = 0;
            while i < decisions.len()
                invariant
                    i <= decisions@.len(),
                    found == text::pairs(frames@),
                    found == model::tag_texts(written@, 0),
                    common_fault(written@, w.pre_audio_hash@) is None,
                    forall|k: int|
                        0 <= k < i ==> found.contains(#[trigger] decision_pairs(decisions@)[k]),
                decreases decisions@.len() - i,
            {
                if !has_frame(&frames, &decisions[i].frame_id, &decisions[i].value) {
                    return Err(VerifyError::DecisionMissing(i));
                }
                i = i + 1;
            }
            Ok(t)
        },
    }
}

/// The name of the backup of a file, made at a given time; without a clock the
/// time is `unknown`.
pub fn backup_name(file_name: &str, now_secs: Option<u64>) -> (name: String)
    ensures
        exists|t: Seq<char>| #[trigger]
            is_backup_time(t, now_secs) && name@ == file_name@ + "."@ + t + ".thmp5bak"@,
{
    let t = match now_secs {
        Some(secs) => timestamp(secs),
        None => "unknown".to_owned(),
    };
    let mut name = file_name.to_owned();
    name.append(".");
    name.append(&t);
    name.append(".thmp5bak");
    assert(is_backup_time(t@, now_secs));
    name
}

/// The time part of a backup's name.
pub open spec fn is_backup_time(t: Seq<char>, now_secs: Option<u64>) -> bool {
    match now_secs {
        Some(secs) => calendar::is_timestamp(t, secs as int),
        None => t == "unknown"@,
    }
}

} // verus!

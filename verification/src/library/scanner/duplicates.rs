//! Frames that occur more than once in a file.
//!
//! A tag reader may pick another of several values than the first. Where it does,
//! the file is ambiguous, and the difference is reported.
use vstd::prelude::*;
use crate::file_issues::Duplicate;
use crate::library::tag_writer::edit;
use crate::library::tag_writer::edit::collapse_tags;
use crate::models::{DuplicateFrameInfo, TrackMetadata};
use crate::storage::memory;
use crate::storage::memory::tag_first;
use crate::text;
use crate::text::same_text;
use super::frame_id_to_field_name;

verus! {

/// What is to be reported of a frame: the value that was picked, where it is not the
/// first that the file gives.
pub open spec fn difference(
    frames: Seq<(Seq<char>, Seq<char>)>,
    id: Seq<char>,
    picked: Option<Seq<char>>,
) -> Seq<Duplicate> {
    match (memory::tag_value(frames, id), picked) {
        (Some(first), Some(value)) => if first == value {
            Seq::empty()
        } else {
            seq![
                Duplicate {
                    frame_id: id,
                    field_name: super::field_name(id),
                    lofty_value: value,
                    corrected_value: first,
                },
            ]
        },
        _ => Seq::empty(),
    }
}

/// What is to be reported of a file, given what was picked of it: of the title, the
/// artist, the album artist and the album, in this order.
pub open spec fn differences(data: Seq<u8>, meta: TrackMetadata) -> Seq<Duplicate> {
    let frames = edit::collapsed(data);
    difference(frames, "TIT2"@, text::opt_text(meta.title)) + difference(
        frames,
        "TPE1"@,
        text::opt_text(meta.artist),
    ) + difference(frames, "TPE2"@, text::opt_text(meta.album_artist)) + difference(
        frames,
        "TALB"@,
        text::opt_text(meta.album),
    )
}

/// Duplicates as they are reported.
pub open spec fn told(v: Seq<DuplicateFrameInfo>) -> Seq<Duplicate> {
    v.map_values(|d: DuplicateFrameInfo| d@)
}

/// Adds what is to be reported of a frame.
fn push_difference(
    found: &mut Vec<DuplicateFrameInfo>,
    frames: &[(String, String)],
    id: &str,
    picked: &Option<String>,
)
    ensures
        told(final(found)@) == told(old(found)@) + difference(
            text::pairs(frames@),
            id@,
            text::opt_text(*picked),
        ),
{
    let ghost before = told(found@);
    assert(before + Seq::<Duplicate>::empty() =~= before);
    if let Some(first) = tag_first(frames, id) {
        if let Some(value) = picked {
            if !same_text(first, value) {
                let d = DuplicateFrameInfo {
                    frame_id: id.to_owned(),
                    field_name: frame_id_to_field_name(id).to_owned(),
                    lofty_value: value.clone(),
                    corrected_value: first.clone(),
                };
                found.push(d);
                assert(told(found@) =~= before + seq![d@]);
            }
        }
    }
}

/// The frames of a file whose first value is not the one that was picked.
pub fn duplicate_frames(data: &[u8], meta: &TrackMetadata) -> (r: Vec<DuplicateFrameInfo>)
    ensures
        told(r@) == differences(data@, *meta),
{
    let mut found: Vec<DuplicateFrameInfo> = Vec::new();
    assert(told(found@) =~= Seq::empty());
    let frames: Vec<(String, String)> = match collapse_tags(data) {
        Ok((frames, _)) => frames,
        Err(_) => Vec::new(),
    };
    proof {
        let offsets = crate::library::tag_writer::model::tag_offsets(data@, 0);
        if offsets.len() == 0 {
            crate::library::tag_writer::model::lemma_no_texts(data@);
        }
        assert(text::pairs(frames@) =~= edit::collapsed(data@));
    }
    push_difference(&mut found, frames.as_slice(), "TIT2", &meta.title);
    push_difference(&mut found, frames.as_slice(), "TPE1", &meta.artist);
    push_difference(&mut found, frames.as_slice(), "TPE2", &meta.album_artist);
    push_difference(&mut found, frames.as_slice(), "TALB", &meta.album);
    assert(told(found@) =~= differences(data@, *meta));
    found
}

/// A reader that picks the first value of every frame has nothing reported.
pub proof fn law_first_values_are_no_duplicates(data: Seq<u8>, meta: TrackMetadata)
    requires
        text::opt_text(meta.title) == memory::tag_value(edit::collapsed(data), "TIT2"@),
        text::opt_text(meta.artist) == memory::tag_value(edit::collapsed(data), "TPE1"@),
        text::opt_text(meta.album_artist) == memory::tag_value(edit::collapsed(data), "TPE2"@),
        text::opt_text(meta.album) == memory::tag_value(edit::collapsed(data), "TALB"@),
    ensures
        differences(data, meta) == Seq::<Duplicate>::empty(),
{
    assert(differences(data, meta) =~= Seq::<Duplicate>::empty());
}

} // verus!

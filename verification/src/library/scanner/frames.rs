//! A closer look at the frames of a tag that cannot be read.
use vstd::prelude::*;
use vstd::utf8::*;
use crate::file_issues;
use crate::file_issues::quote;
use crate::library::tag_writer::latin1_chars;
use crate::library::tag_writer::model;
use crate::library::tag_writer::serialize::{big_endian_to_u32, synchsafe_to_u32};
use crate::models::Id3FrameDebugInfo;
use crate::text;
use crate::text::{contains_part, decimal_string, same_text, starts_with, string_from_chars};
use super::frame_id_to_field_name;

verus! {

// ── Decoding ─────────────────────────────────────────────────────────────────

/// The name of a text encoding.
pub open spec fn encoding_name(byte: u8) -> Seq<char> {
    if byte == 0 {
        "ISO-8859-1 / Latin-1"@
    } else if byte == 1 {
        "UTF-16 with BOM"@
    } else if byte == 2 {
        "UTF-16BE without BOM"@
    } else if byte == 3 {
        "UTF-8"@
    } else {
        "unknown"@
    }
}

/// The name of a text encoding.
pub fn id3_text_encoding_name(byte: u8) -> (r: &'static str)
    ensures
        r@ == encoding_name(byte),
{
    if byte == 0 {
        "ISO-8859-1 / Latin-1"
    } else if byte == 1 {
        "UTF-16 with BOM"
    } else if byte == 2 {
        "UTF-16BE without BOM"
    } else if byte == 3 {
        "UTF-8"
    } else {
        "unknown"
    }
}

/// `str::from_utf8`: the text of bytes that are valid UTF-8.
#[verifier::external_body]
pub(crate) fn utf8_strict(bytes: &[u8]) -> (r: Option<String>)
    ensures
        match r {
            Some(s) => valid_utf8(bytes@) && s@ == decode_utf8(bytes@),
            None => !valid_utf8(bytes@),
        },
{
    std::str::from_utf8(bytes).ok().map(str::to_string)
}

/// The text of UTF-16 code units; `None` when a surrogate stands alone.
pub open spec fn utf16_text(units: Seq<u16>) -> Option<Seq<char>>
    decreases units.len(),
{
    if units.len() == 0 {
        Some(Seq::empty())
    } else if units[0] < 0xD800 || units[0] > 0xDFFF {
        match utf16_text(units.skip(1)) {
            Some(rest) => Some(seq![units[0] as char] + rest),
            None => None,
        }
    } else if units[0] <= 0xDBFF && units.len() > 1 && 0xDC00 <= units[1] <= 0xDFFF {
        match utf16_text(units.skip(2)) {
            Some(rest) => Some(seq![model::surrogate_pair(units[0], units[1])] + rest),
            None => None,
        }
    } else {
        None
    }
}

/// `String::from_utf16`: the text of UTF-16 code units in which every surrogate is
/// one of a pair.
#[verifier::external_body]
fn utf16_strict(units: &[u16]) -> (r: Option<String>)
    ensures
        text::opt_text(r) == utf16_text(units@),
{
    String::from_utf16(units).ok()
}

/// The text of bytes in UTF-16; `None` when their number is odd or a surrogate
/// stands alone.
pub open spec fn utf16_bytes_text(bytes: Seq<u8>, little_endian: bool) -> Option<Seq<char>> {
    if bytes.len() % 2 != 0 {
        None
    } else {
        utf16_text(model::units16(bytes, little_endian))
    }
}

/// The text of bytes in UTF-16 that begin with a byte order mark.
pub open spec fn utf16_marked_text(bytes: Seq<u8>) -> Option<Seq<char>> {
    if bytes.len() < 2 {
        None
    } else if bytes[0] == 0xFE && bytes[1] == 0xFF {
        utf16_bytes_text(bytes.skip(2), false)
    } else if bytes[0] == 0xFF && bytes[1] == 0xFE {
        utf16_bytes_text(bytes.skip(2), true)
    } else {
        None
    }
}

fn decode_utf16_bytes(bytes: &[u8], little_endian: bool) -> (r: Option<String>)
    ensures
        text::opt_text(r) == utf16_bytes_text(bytes@, little_endian),
{
    if bytes.len() % 2 != 0 {
        return None;
    }
    let ghost all = model::units16(bytes@, little_endian);
    let mut units: Vec<u16> = Vec::new();
    let mut i: usize = 0;
    while i < bytes.len() / 2
        invariant
            i <= bytes.len() / 2,
            all == model::units16(bytes@, little_endian),
            units@ == all.take(i as int),
        decreases bytes.len() / 2 - i,
    {
        let first: u16 = bytes[2 * i] as u16;
        let second: u16 = bytes[2 * i + 1] as u16;
        let unit: u16 = if little_endian {
            first + 256 * second
        } else {
            256 * first + second
        };
        assert(unit == all[i as int]);
        units.push(unit);
        assert(units@ =~= all.take(i + 1));
        i = i + 1;
    }
    assert(all.take(all.len() as int) =~= all);
    utf16_strict(&units)
}

/// The text of bytes in big-endian UTF-16.
pub fn decode_utf16be(bytes: &[u8]) -> (r: Option<String>)
    ensures
        text::opt_text(r) == utf16_bytes_text(bytes@, false),
{
    decode_utf16_bytes(bytes, false)
}

/// The text of bytes in little-endian UTF-16.
pub fn decode_utf16le(bytes: &[u8]) -> (r: Option<String>)
    ensures
        text::opt_text(r) == utf16_bytes_text(bytes@, true),
{
    decode_utf16_bytes(bytes, true)
}

/// The text of bytes in UTF-16 that begin with a byte order mark.
pub fn decode_utf16_with_bom(bytes: &[u8]) -> (r: Option<String>)
    ensures
        text::opt_text(r) == utf16_marked_text(bytes@),
{
    if bytes.len() < 2 {
        return None;
    }
    let rest = vstd::slice::slice_subrange(bytes, 2, bytes.len());
    assert(rest@ =~= bytes@.skip(2));
    if bytes[0] == 0xFE && bytes[1] == 0xFF {
        decode_utf16be(rest)
    } else if bytes[0] == 0xFF && bytes[1] == 0xFE {
        decode_utf16le(rest)
    } else {
        None
    }
}

// ── Hexadecimal ──────────────────────────────────────────────────────────────

/// The upper-case hexadecimal digit of a value below sixteen.
pub open spec fn upper_digit(n: int) -> char {
    if n < 10 {
        (48 + n) as char
    } else {
        (55 + n) as char
    }
}

/// Bytes as pairs of hexadecimal digits with blanks between them.
pub open spec fn hex_pairs(bytes: Seq<u8>) -> Seq<char>
    decreases bytes.len(),
{
    if bytes.len() == 0 {
        Seq::empty()
    } else {
        let front = hex_pairs(bytes.drop_last());
        let b = bytes.last() as int;
        (if bytes.len() == 1 {
            front
        } else {
            front.push(' ')
        }).push(upper_digit(b / 16)).push(upper_digit(b % 16))
    }
}

/// The first bytes, as many as are shown.
pub open spec fn shown(bytes: Seq<u8>, max_len: nat) -> Seq<u8> {
    if bytes.len() <= max_len {
        bytes
    } else {
        bytes.take(max_len as int)
    }
}

fn digit(n: u8) -> (c: char)
    requires
        n < 16,
    ensures
        c == upper_digit(n as int),
{
    if n < 10 {
        (48 + n) as char
    } else {
        (55 + n) as char
    }
}

/// The first bytes as pairs of hexadecimal digits.
pub fn hex_preview(bytes: &[u8], max_len: usize) -> (r: String)
    ensures
        r@ == hex_pairs(shown(bytes@, max_len as nat)),
{
    let n: usize = if bytes.len() <= max_len {
        bytes.len()
    } else {
        max_len
    };
    let ghost all = shown(bytes@, max_len as nat);
    assert(all =~= bytes@.take(n as int));
    let mut cs: Vec<char> = Vec::new();
    let mut i: usize = 0;
    assert(cs@ =~= hex_pairs(all.take(0)));
    while i < n
        invariant
            i <= n <= bytes@.len(),
            all == bytes@.take(n as int),
            cs@ == hex_pairs(all.take(i as int)),
        decreases n - i,
    {
        proof {
            assert(all.take(i + 1).drop_last() =~= all.take(i as int));
            assert(all.take(i + 1).last() == bytes@[i as int]);
        }
        if i > 0 {
            cs.push(' ');
        }
        cs.push(digit(bytes[i] / 16));
        cs.push(digit(bytes[i] % 16));
        i = i + 1;
    }
    assert(all.take(n as int) =~= all);
    string_from_chars(&cs)
}

// ── Frames ───────────────────────────────────────────────────────────────────

/// A frame: the bytes of its identifier, and its content.
pub type RawFrame = (Seq<u8>, Seq<u8>);

/// The length of the identifier of a frame.
pub open spec fn id_len(version: u8) -> int {
    if version == 2 {
        3
    } else {
        4
    }
}

/// The length of the header of a frame.
pub open spec fn header_len(version: u8) -> int {
    if version == 2 {
        6
    } else {
        10
    }
}

/// The size of the content of the frame that begins at an index.
pub open spec fn content_size(data: Seq<u8>, version: u8, pos: int) -> int {
    if version == 2 {
        data[pos + 3] * 65536 + data[pos + 4] * 256 + data[pos + 5]
    } else if version == 4 {
        model::synchsafe_value(data.subrange(pos + 4, pos + 8)) as int
    } else {
        model::big_endian_value(data.subrange(pos + 4, pos + 8)) as int
    }
}

/// Whether a frame begins at an index.
pub open spec fn begins_frame(data: Seq<u8>, version: u8, pos: int, end: int) -> bool {
    &&& pos + header_len(version) <= end
    &&& data[pos] != 0
    &&& valid_utf8(data.subrange(pos, pos + id_len(version)))
}

/// The frames that have content, from an index on. A frame that does not fit is cut
/// off at the end.
pub open spec fn frames_from(data: Seq<u8>, version: u8, pos: int, end: int) -> Seq<RawFrame>
    decreases end - pos,
{
    if !begins_frame(data, version, pos, end) {
        Seq::empty()
    } else {
        let start = pos + header_len(version);
        let size = content_size(data, version, pos);
        if size <= 0 {
            frames_from(data, version, start, end)
        } else if start + size < end {
            seq![
                (data.subrange(pos, pos + id_len(version)), data.subrange(start, start + size)),
            ] + frames_from(data, version, start + size, end)
        } else {
            seq![(data.subrange(pos, pos + id_len(version)), data.subrange(start, end))]
        }
    }
}

/// Whether data begins with a tag.
pub open spec fn begins_tag(data: Seq<u8>) -> bool {
    data.len() >= 10 && data[0] == 'I' as u8 && data[1] == 'D' as u8 && data[2] == '3' as u8
}

/// Where the tag at the beginning of data ends.
pub open spec fn tag_end(data: Seq<u8>) -> int {
    let end = 10 + model::synchsafe_value(data.subrange(6, 10));
    if end < data.len() {
        end
    } else {
        data.len() as int
    }
}

/// Where the frames of the tag at the beginning of data begin.
pub open spec fn frames_start(data: Seq<u8>) -> int {
    if data[3] >= 3 && data[5] & 0x40 != 0 && 14 <= tag_end(data) {
        10 + if data[3] == 4 {
            model::synchsafe_value(data.subrange(10, 14)) as int
        } else {
            model::big_endian_value(data.subrange(10, 14)) as int
        }
    } else {
        10
    }
}

/// The frames of the tag at the beginning of data.
pub open spec fn tag_content(data: Seq<u8>) -> Seq<RawFrame> {
    if begins_tag(data) {
        frames_from(data, data[3], frames_start(data), tag_end(data))
    } else {
        Seq::empty()
    }
}

/// A frame of a tag: where its identifier and its content stand.
#[derive(Debug, Clone, Copy)]
pub struct FrameSlice {
    pub id_start: usize,
    pub id_end: usize,
    pub start: usize,
    pub end: usize,
}

impl FrameSlice {
    /// Whether the frame lies within data.
    pub open spec fn within(self, data: Seq<u8>) -> bool {
        &&& self.id_start <= self.id_end <= data.len()
        &&& self.start <= self.end <= data.len()
    }

    /// The frame.
    pub open spec fn of(self, data: Seq<u8>) -> RawFrame {
        (
            data.subrange(self.id_start as int, self.id_end as int),
            data.subrange(self.start as int, self.end as int),
        )
    }
}

/// The frames at some places.
pub open spec fn slices_of(data: Seq<u8>, v: Seq<FrameSlice>) -> Seq<RawFrame> {
    v.map_values(|s: FrameSlice| s.of(data))
}

fn read_content_size(data: &[u8], version: u8, pos: usize) -> (r: u32)
    requires
        pos + header_len(version) <= data@.len(),
    ensures
        r == content_size(data@, version, pos as int),
{
    let n: usize = data.len();
    assert(pos + header_len(version) <= n);
    if version == 2 {
        (data[pos + 3] as u32) * 65536 + (data[pos + 4] as u32) * 256 + data[pos + 5] as u32
    } else {
        let field = vstd::slice::slice_subrange(data, pos + 4, pos + 8);
        if version == 4 {
            synchsafe_to_u32(field)
        } else {
            big_endian_to_u32(field)
        }
    }
}

/// Whether a size reaches past the end.
fn reaches(size: u32, room: usize) -> (r: bool)
    ensures
        r == (size >= room),
{
    size as u64 >= room as u64
}

/// The frames of the tag at the beginning of data.
pub fn list_frames(data: &[u8]) -> (r: Vec<FrameSlice>)
    ensures
        slices_of(data@, r@) == tag_content(data@),
        forall|i: int| 0 <= i < r@.len() ==> (#[trigger] r@[i]).within(data@),
{
    let mut r: Vec<FrameSlice> = Vec::new();
    assert(slices_of(data@, r@) =~= Seq::<RawFrame>::empty());
    if data.len() < 10 || data[0] != 73 || data[1] != 68 || data[2] != 51 {
        return r;
    }
    let version: u8 = data[3];
    let tag_size: u32 = synchsafe_to_u32(vstd::slice::slice_subrange(data, 6, 10));
    let end: usize = if reaches(tag_size, data.len() - 10) {
        data.len()
    } else {
        10 + tag_size as usize
    };
    assert(end == tag_end(data@));
    let mut pos: usize = 10;
    if version >= 3 && (data[5] & 0x40) != 0 && end >= 14 {
        let field = vstd::slice::slice_subrange(data, 10, 14);
        let extra: u32 = if version == 4 {
            synchsafe_to_u32(field)
        } else {
            big_endian_to_u32(field)
        };
        if reaches(extra, end - 10) {
            assert(!begins_frame(data@, version, frames_start(data@), end as int));
            return r;
        }
        pos = 10 + extra as usize;
    }
    let header: usize = if version == 2 {
        6
    } else {
        10
    };
    let ids: usize = if version == 2 {
        3
    } else {
        4
    };
    let ghost whole = tag_content(data@);
    assert(slices_of(data@, r@) + frames_from(data@, version, pos as int, end as int) =~= whole);
    loop
        invariant_except_break
            pos <= end,
            slices_of(data@, r@) + frames_from(data@, version, pos as int, end as int) == whole,
        invariant
            end <= data@.len(),
            header == header_len(version),
            ids == id_len(version),
            forall|i: int| 0 <= i < r@.len() ==> (#[trigger] r@[i]).within(data@),
        ensures
            slices_of(data@, r@) == whole,
        decreases end - pos,
    {
        if end - pos < header || data[pos] == 0 {
            assert(slices_of(data@, r@) + Seq::<RawFrame>::empty() =~= slices_of(data@, r@));
            break;
        }
        let id = vstd::slice::slice_subrange(data, pos, pos + ids);
        if utf8_strict(id).is_none() {
            assert(slices_of(data@, r@) + Seq::<RawFrame>::empty() =~= slices_of(data@, r@));
            break;
        }
        let size: u32 = read_content_size(data, version, pos);
        let start: usize = pos + header;
        if size == 0 {
            pos = start;
        } else if reaches(size, end - start) {
            let ghost before = slices_of(data@, r@);
            let slice = FrameSlice { id_start: pos, id_end: pos + ids, start, end };
            r.push(slice);
            proof {
                assert(slices_of(data@, r@) =~= before.push(slice.of(data@)));
                assert(before + seq![slice.of(data@)] =~= before.push(slice.of(data@)));
            }
            break;
        } else {
            let ghost before = slices_of(data@, r@);
            let slice = FrameSlice {
                id_start: pos,
                id_end: pos + ids,
                start,
                end: start + size as usize,
            };
            r.push(slice);
            proof {
                assert(slices_of(data@, r@) =~= before.push(slice.of(data@)));
                let rest = frames_from(data@, version, start + size, end as int);
                assert(before + (seq![slice.of(data@)] + rest) =~= before.push(slice.of(data@))
                    + rest);
            }
            pos = start + size as usize;
        }
    }
    r
}

// ── Problems ─────────────────────────────────────────────────────────────────

/// Why a text could not be decoded.
#[derive(Debug, Clone, Copy, PartialEq, Eq, Structural)]
pub enum TagDecodeErrorKind {
    Utf16OddLength,
    InvalidUtf8,
}

/// Whether a frame holds text.
pub open spec fn holds_text(id: Seq<char>) -> bool {
    (id.len() > 0 && id[0] == 'T') || id == "COMM"@ || id == "COM"@
}

/// Whether a frame is one that cannot be decoded in some way.
pub open spec fn is_problem(f: RawFrame, kind: TagDecodeErrorKind) -> bool {
    &&& holds_text(decode_utf8(f.0))
    &&& f.1.len() > 1
    &&& match kind {
        TagDecodeErrorKind::Utf16OddLength => f.1[0] == 1 && (f.1.len() - 1) % 2 != 0,
        TagDecodeErrorKind::InvalidUtf8 => f.1[0] == 3 && !valid_utf8(f.1.skip(1)),
    }
}

/// The place of the first frame that cannot be decoded in some way, or the number of
/// frames.
pub open spec fn problem_at(frames: Seq<RawFrame>, kind: TagDecodeErrorKind) -> int
    decreases frames.len(),
{
    if frames.len() == 0 || is_problem(frames[0], kind) {
        0
    } else {
        1 + problem_at(frames.skip(1), kind)
    }
}

/// The place of the first frame with an identifier, or the number of frames.
pub open spec fn frame_at(frames: Seq<RawFrame>, id: Seq<char>) -> int
    decreases frames.len(),
{
    if frames.len() == 0 || decode_utf8(frames[0].0) == id {
        0
    } else {
        1 + frame_at(frames.skip(1), id)
    }
}

proof fn lemma_ids_valid(data: Seq<u8>, version: u8, pos: int, end: int)
    requires
        0 <= pos,
        end <= data.len(),
    ensures
        forall|i: int|
            0 <= i < frames_from(data, version, pos, end).len() ==> valid_utf8(
                (#[trigger] frames_from(data, version, pos, end)[i]).0,
            ),
    decreases end - pos,
{
    if begins_frame(data, version, pos, end) {
        let start = pos + header_len(version);
        let size = content_size(data, version, pos);
        let all = frames_from(data, version, pos, end);
        if size <= 0 {
            lemma_ids_valid(data, version, start, end);
        } else if start + size < end {
            let rest = frames_from(data, version, start + size, end);
            lemma_ids_valid(data, version, start + size, end);
            assert forall|i: int| 0 <= i < all.len() implies valid_utf8((#[trigger] all[i]).0) by {
                if i > 0 {
                    assert(all[i] == rest[i - 1]);
                }
            }
        }
    }
}

fn id_text(data: &[u8], f: &FrameSlice) -> (r: String)
    requires
        f.within(data@),
        valid_utf8(f.of(data@).0),
    ensures
        r@ == decode_utf8(f.of(data@).0),
{
    let id = vstd::slice::slice_subrange(data, f.id_start, f.id_end);
    match utf8_strict(id) {
        Some(s) => s,
        None => String::new(),
    }
}

/// The identifiers of all frames are text.
pub proof fn lemma_listed_ids_valid(data: Seq<u8>)
    ensures
        forall|i: int|
            0 <= i < tag_content(data).len() ==> valid_utf8((#[trigger] tag_content(data)[i]).0),
{
    if begins_tag(data) {
        lemma_ids_valid(data, data[3], frames_start(data), tag_end(data));
    }
}

/// The identifier of the first frame that cannot be decoded in some way.
pub fn find_problematic_id3_frame(data: &[u8], kind: TagDecodeErrorKind) -> (r: Option<String>)
    ensures
        text::opt_text(r) == problem_id(data@, kind),
{
    let frames = list_frames(data);
    let ghost all = tag_content(data@);
    let mut i: usize = 0;
    proof {
        lemma_listed_ids_valid(data@);
        assert(all.skip(0) =~= all);
        assert(slices_of(data@, frames@).len() == frames@.len());
    }
    while i < frames.len()
        invariant
            i <= frames@.len(),
            frames@.len() == all.len(),
            all == tag_content(data@),
            slices_of(data@, frames@) == all,
            forall|k: int| 0 <= k < frames@.len() ==> (#[trigger] frames@[k]).within(data@),
            forall|k: int| 0 <= k < all.len() ==> valid_utf8((#[trigger] all[k]).0),
            i + problem_at(all.skip(i as int), kind) == problem_at(all, kind),
        decreases frames@.len() - i,
    {
        let f = &frames[i];
        proof {
            assert(slices_of(data@, frames@)[i as int] == f.of(data@));
            assert(all.skip(i as int)[0] == all[i as int]);
            assert(all.skip(i as int).skip(1) =~= all.skip(i + 1));
        }
        let id = id_text(data, f);
        let content = vstd::slice::slice_subrange(data, f.start, f.end);
        let textual = starts_with(&id, "T") || same_text(&id, "COMM") || same_text(&id, "COM");
        proof {
            reveal_strlit("T");
            assert("T"@ =~= seq!['T']);
            assert("T"@.is_prefix_of(id@) == (id@.len() > 0 && id@[0] == 'T')) by {
                if id@.len() > 0 && id@[0] == 'T' {
                    assert(id@.subrange(0, 1) =~= "T"@);
                }
                if "T"@.is_prefix_of(id@) {
                    assert(id@.subrange(0, 1)[0] == "T"@[0]);
                }
            }
        }
        if textual && content.len() > 1 {
            let rest = vstd::slice::slice_subrange(content, 1, content.len());
            assert(rest@ =~= f.of(data@).1.skip(1));
            let bad = match kind {
                TagDecodeErrorKind::Utf16OddLength => content[0] == 1 && rest.len() % 2 != 0,
                TagDecodeErrorKind::InvalidUtf8 => content[0] == 3 && utf8_strict(rest).is_none(),
            };
            if bad {
                return Some(id);
            }
        }
        i = i + 1;
    }
    None
}

/// The identifier of the first frame that cannot be decoded in some way.
pub open spec fn problem_id(data: Seq<u8>, kind: TagDecodeErrorKind) -> Option<Seq<char>> {
    let frames = tag_content(data);
    let k = problem_at(frames, kind);
    if k < frames.len() {
        Some(decode_utf8(frames[k].0))
    } else {
        None
    }
}

/// The place of the first frame with an identifier.
pub fn find_id3_text_frame(data: &[u8], target: &str) -> (r: Option<FrameSlice>)
    ensures
        match r {
            Some(f) => {
                &&& f.within(data@)
                &&& frame_at(tag_content(data@), target@) < tag_content(data@).len()
                &&& f.of(data@) == tag_content(data@)[frame_at(tag_content(data@), target@)]
            },
            None => frame_at(tag_content(data@), target@) >= tag_content(data@).len(),
        },
{
    let frames = list_frames(data);
    let ghost all = tag_content(data@);
    let mut i: usize = 0;
    proof {
        lemma_listed_ids_valid(data@);
        assert(all.skip(0) =~= all);
        assert(slices_of(data@, frames@).len() == frames@.len());
    }
    while i < frames.len()
        invariant
            i <= frames@.len(),
            frames@.len() == all.len(),
            all == tag_content(data@),
            slices_of(data@, frames@) == all,
            forall|k: int| 0 <= k < frames@.len() ==> (#[trigger] frames@[k]).within(data@),
            forall|k: int| 0 <= k < all.len() ==> valid_utf8((#[trigger] all[k]).0),
            i + frame_at(all.skip(i as int), target@) == frame_at(all, target@),
        decreases frames@.len() - i,
    {
        let f = frames[i];
        proof {
            assert(slices_of(data@, frames@)[i as int] == f.of(data@));
            assert(all.skip(i as int)[0] == all[i as int]);
            assert(all.skip(i as int).skip(1) =~= all.skip(i + 1));
        }
        if same_text(&id_text(data, &f), target) {
            return Some(f);
        }
        i = i + 1;
    }
    None
}

// ── Reports ──────────────────────────────────────────────────────────────────

/// Why there is no report of a frame.
#[derive(Debug, Clone, Copy, PartialEq, Eq, Structural)]
pub enum FrameDebugError {
    /// The tag has no such frame.
    NotFound,
    /// The frame has no content.
    NoPayload,
}

/// Whether a report tells of a frame.
pub open spec fn reports_frame(
    info: Id3FrameDebugInfo,
    f: RawFrame,
    version: u8,
    id: Seq<char>,
) -> bool {
    let bytes = f.1.skip(1);
    &&& info.frame_id@ == id
    &&& info.field_name@ == super::field_name(id)
    &&& info.version_major == version
    &&& info.declared_encoding_byte == f.1[0]
    &&& info.declared_encoding_name@ == encoding_name(f.1[0])
    &&& info.payload_len == bytes.len()
    &&& info.raw_payload_hex_preview@ == hex_pairs(shown(bytes, 64))
    &&& text::opt_text(info.utf8) == if valid_utf8(bytes) {
        Some(decode_utf8(bytes))
    } else {
        None
    }
    &&& text::opt_text(info.latin1) == Some(model::latin1(bytes))
    &&& text::opt_text(info.utf16_with_bom) == utf16_marked_text(bytes)
    &&& text::opt_text(info.utf16be_without_bom) == utf16_bytes_text(bytes, false)
    &&& text::opt_text(info.utf16le_without_bom) == utf16_bytes_text(bytes, true)
}

/// Reports a frame: its content read in every encoding.
pub fn debug_id3_text_frame(data: &[u8], frame_id: &str) -> (r: Result<
    Id3FrameDebugInfo,
    FrameDebugError,
>)
    ensures
        match r {
            Ok(info) => {
                let frames = tag_content(data@);
                let k = frame_at(frames, frame_id@);
                &&& k < frames.len()
                &&& frames[k].1.len() > 0
                &&& reports_frame(info, frames[k], data@[3], frame_id@)
            },
            Err(FrameDebugError::NotFound) => frame_at(tag_content(data@), frame_id@)
                >= tag_content(data@).len(),
            Err(FrameDebugError::NoPayload) => {
                let frames = tag_content(data@);
                let k = frame_at(frames, frame_id@);
                k < frames.len() && frames[k].1.len() == 0
            },
        },
{
    let f = match find_id3_text_frame(data, frame_id) {
        Some(f) => f,
        None => {
            return Err(FrameDebugError::NotFound);
        },
    };
    let content = vstd::slice::slice_subrange(data, f.start, f.end);
    if content.len() == 0 {
        return Err(FrameDebugError::NoPayload);
    }
    let bytes = vstd::slice::slice_subrange(content, 1, content.len());
    assert(bytes@ =~= f.of(data@).1.skip(1));
    assert(begins_tag(data@));
    let latin1 = latin1_chars(bytes);
    Ok(
        Id3FrameDebugInfo {
            frame_id: frame_id.to_owned(),
            field_name: frame_id_to_field_name(frame_id).to_owned(),
            version_major: data[3],
            declared_encoding_byte: content[0],
            declared_encoding_name: id3_text_encoding_name(content[0]).to_owned(),
            payload_len: bytes.len(),
            raw_payload_hex_preview: hex_preview(bytes, 64),
            utf8: utf8_strict(bytes),
            latin1: Some(string_from_chars(&latin1)),
            utf16_with_bom: decode_utf16_with_bom(bytes),
            utf16be_without_bom: decode_utf16be(bytes),
            utf16le_without_bom: decode_utf16le(bytes),
        },
    )
}

/// The message for a frame that cannot be reported.
pub fn debug_error_message(error: FrameDebugError, frame_id: &str, shown_path: &str) -> (r: String)
    ensures
        r@ == match error {
            FrameDebugError::NotFound => "Frame "@ + frame_id@ + " not found in "@ + shown_path@,
            FrameDebugError::NoPayload => "Frame "@ + frame_id@ + " has no payload"@,
        },
{
    let mut r = "Frame ".to_owned();
    r.append(frame_id);
    match error {
        FrameDebugError::NotFound => {
            r.append(" not found in ");
            r.append(shown_path);
        },
        FrameDebugError::NoPayload => {
            r.append(" has no payload");
        },
    }
    r
}

/// A report in one line, given its Latin-1 text in quotation marks.
pub open spec fn summary_with(info: Id3FrameDebugInfo, latin1: Seq<char>) -> Seq<char> {
    "ID3 debug: frame "@ + info.frame_id@ + " / "@ + info.field_name@ + " declared encoding="@
        + text::decimal(info.declared_encoding_byte as nat) + " ("@ + info.declared_encoding_name@
        + ") payload_len="@ + text::decimal(info.payload_len as nat) + " utf8="@ + (
    if info.utf8 is Some {
        "ok"@
    } else {
        "invalid"@
    }) + " latin1="@ + latin1 + " hex="@ + info.raw_payload_hex_preview@
}

/// A report in one line.
pub open spec fn summary(info: Id3FrameDebugInfo) -> Seq<char> {
    summary_with(
        info,
        file_issues::quoted(
            match info.latin1 {
                Some(s) => s@,
                None => "<unavailable>"@,
            },
        ),
    )
}

/// A report in one line.
pub fn summarize_debug_info(info: &Id3FrameDebugInfo) -> (r: String)
    ensures
        r@ == summary(*info),
{
    let latin1 = match &info.latin1 {
        Some(s) => quote(s),
        None => quote("<unavailable>"),
    };
    summarize_with(info, &latin1)
}

/// A report in one line, given its Latin-1 text in quotation marks.
pub fn summarize_with(info: &Id3FrameDebugInfo, latin1: &str) -> (r: String)
    ensures
        r@ == summary_with(*info, latin1@),
{
    let mut r = "ID3 debug: frame ".to_owned();
    r.append(&info.frame_id);
    r.append(" / ");
    r.append(&info.field_name);
    r.append(" declared encoding=");
    r.append(&decimal_string(info.declared_encoding_byte as u64));
    r.append(" (");
    r.append(&info.declared_encoding_name);
    r.append(") payload_len=");
    r.append(&decimal_string(info.payload_len as u64));
    r.append(" utf8=");
    if info.utf8.is_some() {
        r.append("ok");
    } else {
        r.append("invalid");
    }
    r.append(" latin1=");
    r.append(latin1);
    r.append(" hex=");
    r.append(&info.raw_payload_hex_preview);
    r
}

/// The kind of problem that an error message speaks of.
pub open spec fn problem_kind(error: Seq<char>) -> Option<TagDecodeErrorKind> {
    if text::has_part(error, "UTF-16 string has an odd length"@) {
        Some(TagDecodeErrorKind::Utf16OddLength)
    } else if text::has_part(error, "Expected a UTF-8 string"@) {
        Some(TagDecodeErrorKind::InvalidUtf8)
    } else {
        None
    }
}

/// What a message says of the frame at fault.
pub open spec fn frame_note(data: Seq<u8>, error: Seq<char>) -> Seq<char> {
    match problem_kind(error) {
        Some(kind) => match problem_id(data, kind) {
            Some(id) => " (frame "@ + id + " / "@ + super::field_name(id) + ")"@,
            None => Seq::empty(),
        },
        None => Seq::empty(),
    }
}

fn note_of_frame(data: &[u8], error: &str) -> (r: String)
    ensures
        r@ == frame_note(data@, error@),
{
    let kind = if contains_part(error, "UTF-16 string has an odd length") {
        Some(TagDecodeErrorKind::Utf16OddLength)
    } else if contains_part(error, "Expected a UTF-8 string") {
        Some(TagDecodeErrorKind::InvalidUtf8)
    } else {
        None
    };
    if let Some(kind) = kind {
        if let Some(id) = find_problematic_id3_frame(data, kind) {
            let mut r = " (frame ".to_owned();
            r.append(&id);
            r.append(" / ");
            r.append(frame_id_to_field_name(&id));
            r.append(")");
            return r;
        }
    }
    let r = String::new();
    assert(r@ =~= Seq::empty());
    r
}

/// The report of a frame in one line.
pub open spec fn frame_summary(f: RawFrame, id: Seq<char>) -> Seq<char> {
    let bytes = f.1.skip(1);
    "ID3 debug: frame "@ + id + " / "@ + super::field_name(id) + " declared encoding="@
        + text::decimal(f.1[0] as nat) + " ("@ + encoding_name(f.1[0]) + ") payload_len="@
        + text::decimal(bytes.len()) + " utf8="@ + (if valid_utf8(bytes) {
        "ok"@
    } else {
        "invalid"@
    }) + " latin1="@ + file_issues::quoted(model::latin1(bytes)) + " hex="@ + hex_pairs(
        shown(bytes, 64),
    )
}

/// The report of the frame that is not valid UTF-8: of the first frame that has its
/// identifier.
pub open spec fn utf8_report(data: Seq<u8>) -> Option<Seq<char>> {
    match problem_id(data, TagDecodeErrorKind::InvalidUtf8) {
        Some(id) => {
            let f = tag_content(data)[frame_at(tag_content(data), id)];
            if f.1.len() > 0 {
                Some(frame_summary(f, id))
            } else {
                None
            }
        },
        None => None,
    }
}

/// Reports the frame that is not valid UTF-8, in one line.
pub fn utf8_decode_debug_summary(data: &[u8]) -> (r: Option<String>)
    ensures
        text::opt_text(r) == utf8_report(data@),
{
    match find_problematic_id3_frame(data, TagDecodeErrorKind::InvalidUtf8) {
        None => None,
        Some(id) => {
            proof {
                lemma_frame_found(tag_content(data@), TagDecodeErrorKind::InvalidUtf8);
            }
            match debug_id3_text_frame(data, &id) {
                Ok(info) => Some(summarize_debug_info(&info)),
                Err(_) => None,
            }
        },
    }
}

/// A frame at fault can be found by its identifier.
proof fn lemma_frame_found(frames: Seq<RawFrame>, kind: TagDecodeErrorKind)
    ensures
        0 <= problem_at(frames, kind) <= frames.len(),
        problem_at(frames, kind) < frames.len() ==> 0 <= frame_at(
            frames,
            decode_utf8(frames[problem_at(frames, kind)].0),
        ) <= problem_at(frames, kind),
    decreases frames.len(),
{
    if frames.len() > 0 && !is_problem(frames[0], kind) {
        lemma_frame_found(frames.skip(1), kind);
        let k = problem_at(frames, kind);
        if k < frames.len() {
            assert(frames.skip(1)[k - 1] == frames[k]);
        }
    }
}

/// The message for a tag that could not be read: it names the frame at fault, and
/// reports it where it is not valid UTF-8.
pub open spec fn error_message(data: Seq<u8>, error: Seq<char>) -> Seq<char> {
    "Failed to read tags"@ + frame_note(data, error) + ": "@ + error + if text::has_part(
        error,
        "Expected a UTF-8 string"@,
    ) && utf8_report(data) is Some {
        " ["@ + utf8_report(data).unwrap() + "]"@
    } else {
        Seq::empty()
    }
}

/// The message for a tag that could not be read.
pub fn read_error_message(data: &[u8], error: &str) -> (r: String)
    ensures
        r@ == error_message(data@, error@),
{
    let mut r = "Failed to read tags".to_owned();
    r.append(&note_of_frame(data, error));
    r.append(": ");
    r.append(error);
    if contains_part(error, "Expected a UTF-8 string") {
        if let Some(s) = utf8_decode_debug_summary(data) {
            r.append(" [");
            r.append(&s);
            r.append("]");
            assert(r@ =~= error_message(data@, error@));
            return r;
        }
    }
    assert(r@ =~= error_message(data@, error@));
    r
}

} // verus!

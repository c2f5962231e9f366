//! Editing the ID3v2 tags at the front of a file.
//!
//! A file is a run of consecutive ID3v2 tags followed by audio. Edits rewrite all
//! tags into one and leave the audio bytes as they are.
use vstd::prelude::*;
use vstd::utf8::*;
use crate::text;
use crate::text::{chars_of, find_char, same_text, string_from_chars};

pub mod edit;
pub mod laws;
pub mod layout;
pub mod model;
pub mod serialize;

pub use edit::{
    audio_hash, collect_preserved_frames_all, collect_preserved_frames_in, full_hash, rebuild_file,
    reencode_frame_size,
};

verus! {

/// Why a tag operation was refused.
#[derive(Debug, Clone, Copy, PartialEq, Eq, Structural)]
pub enum TagError {
    /// No ID3v2 tag stands at the front of the file.
    NoTag,
    /// Tags of this version cannot be written.
    UnsupportedVersion(u8),
}

// ── Frame keys ───────────────────────────────────────────────────────────────

/// Splits a frame key at its first colon into identifier and description.
pub fn split_frame_key(key: &str) -> (r: (&str, &str))
    ensures
        r.0@ == model::key_base(key@),
        r.1@ == model::key_description(key@),
{
    let cs = chars_of(key);
    let n: usize = find_char(&cs, ':');
    if n < cs.len() {
        (key.substring_char(0, n), key.substring_char(n + 1, cs.len()))
    } else {
        let r = (key, "");
        proof {
            reveal_strlit("");
            assert(model::key_base(key@) =~= key@);
            assert(r.1@ =~= Seq::<char>::empty());
        }
        r
    }
}

/// Whether a frame identifier or a `base:description` key names a text frame that
/// can be read and written.
pub fn is_text_frame(frame_id: &str) -> (r: bool)
    ensures
        r == model::is_text_key(frame_id@),
{
    let base = split_frame_key(frame_id).0;
    let cs = chars_of(base);
    (base.as_bytes().len() == 4 && cs.len() > 0 && cs[0] == 'T') || same_text(base, "COMM")
}

// ── Text ─────────────────────────────────────────────────────────────────────

/// `String::from_utf8_lossy`: valid UTF-8 is decoded, invalid parts are replaced,
/// and bytes without a zero byte give text without a NUL. What stands for the
/// invalid parts is named, not stated.
#[verifier::external_body]
fn utf8_to_string(bytes: &[u8]) -> (s: String)
    ensures
        s@ == model::utf8_text(bytes@),
        !valid_utf8(bytes@) ==> s@ == model::utf8_lossy(bytes@),
        !bytes@.contains(0u8) ==> !s@.contains('\0'),
{
    String::from_utf8_lossy(bytes).into_owned()
}

/// `String::from_utf16_lossy`: code units are decoded, and each surrogate that is
/// not one of a pair becomes the replacement character.
#[verifier::external_body]
fn utf16_to_string(units: &[u16]) -> (s: String)
    ensures
        s@ == model::utf16_lossy(units@),
{
    String::from_utf16_lossy(units)
}

/// The first `n` characters of `cs` as a string.
fn string_of_prefix(cs: &Vec<char>, n: usize) -> (s: String)
    requires
        n <= cs@.len(),
    ensures
        s@ == cs@.take(n as int),
{
    string_from_chars(vstd::slice::slice_subrange(cs.as_slice(), 0, n))
}

/// `cs` without its trailing NUL characters.
fn without_trailing_nuls(cs: Vec<char>) -> (s: String)
    ensures
        s@ == model::trim_nuls(cs@),
{
    let mut n: usize = cs.len();
    assert(cs@.take(n as int) =~= cs@);
    while n > 0 && cs[n - 1] == '\0'
        invariant
            n <= cs@.len(),
            model::trim_nuls(cs@.take(n as int)) == model::trim_nuls(cs@),
        decreases n,
    {
        assert(cs@.take(n as int).drop_last() =~= cs@.take(n - 1));
        n = n - 1;
    }
    string_of_prefix(&cs, n)
}

/// The characters of bytes read as ISO-8859-1.
pub(crate) fn latin1_chars(data: &[u8]) -> (cs: Vec<char>)
    ensures
        cs@ == model::latin1(data@),
{
    let mut cs: Vec<char> = Vec::new();
    let mut i: usize = 0;
    while i < data.len()
        invariant
            i <= data.len(),
            cs@ == model::latin1(data@).take(i as int),
        decreases data.len() - i,
    {
        cs.push(data[i] as char);
        assert(cs@ =~= model::latin1(data@).take(i + 1));
        i = i + 1;
    }
    assert(cs@ =~= model::latin1(data@));
    cs
}

/// The 16-bit units of `data` before the first zero unit.
fn units_before_nul(data: &[u8], little_endian: bool) -> (units: Vec<u16>)
    ensures
        units@ == model::units_to_nul(model::units16(data@, little_endian)),
{
    let ghost all = model::units16(data@, little_endian);
    let mut units: Vec<u16> = Vec::new();
    let mut i: usize = 0;
    while i < data.len() / 2
        invariant
            i <= data.len() / 2,
            all == model::units16(data@, little_endian),
            units@ == all.take(i as int),
            forall|k: int| 0 <= k < i ==> all[k] != 0,
        decreases data.len() / 2 - i,
    {
        let first: u16 = data[2 * i] as u16;
        let second: u16 = data[2 * i + 1] as u16;
        let unit: u16 = if little_endian {
            first + 256 * second
        } else {
            256 * first + second
        };
        assert(unit == all[i as int]);
        if unit == 0 {
            proof {
                text::lemma_first_at_is(all, 0u16, i as int);
            }
            return units;
        }
        units.push(unit);
        assert(units@ =~= all.take(i + 1));
        i = i + 1;
    }
    proof {
        text::lemma_first_at_is(all, 0u16, i as int);
    }
    units
}

/// Decodes an ID3v2 string in the given encoding.
pub fn decode_id3v2_text(data: &[u8], encoding: u8) -> (s: String)
    ensures
        s@ == model::decoded_text(data@, encoding),
{
    if encoding == 0x00 {
        without_trailing_nuls(latin1_chars(data))
    } else if encoding == 0x01 {
        if data.len() < 2 {
            return String::new();
        }
        let little_endian = data[0] == 0xFF && data[1] == 0xFE;
        let rest = vstd::slice::slice_subrange(data, 2, data.len());
        assert(rest@ =~= data@.skip(2));
        utf16_to_string(&units_before_nul(rest, little_endian))
    } else if encoding == 0x02 {
        utf16_to_string(&units_before_nul(data, false))
    } else if encoding == 0x03 {
        let s = utf8_to_string(data);
        without_trailing_nuls(chars_of(&s))
    } else {
        utf8_to_string(data)
    }
}

/// Splits a described payload into description and value.
pub fn split_description(payload: &[u8], encoding: u8) -> (r: (&[u8], &[u8]))
    ensures
        (r.0@, r.1@) == model::description_split(payload@, encoding),
{
    let n: usize = payload.len();
    let ghost bytes = payload@;
    if encoding == 0x01 || encoding == 0x02 {
        let mut i: usize = 0;
        while i < n && n - i > 1
            invariant
                i <= n,
                n == bytes.len(),
                n == payload.len(),
                bytes == payload@,
                model::wide_nul_at(bytes, i as int) == model::wide_nul_at(bytes, 0),
                encoding == 1 || encoding == 2,
            decreases n - i,
        {
            if payload[i] == 0 && payload[i + 1] == 0 {
                let r = (
                    vstd::slice::slice_subrange(payload, 0, i),
                    vstd::slice::slice_subrange(payload, i + 2, n),
                );
                assert(r.0@ =~= bytes.take(i as int));
                assert(r.1@ =~= bytes.skip(i + 2));
                return r;
            }
            i = i + 2;
        }
    } else {
        let mut i: usize = 0;
        while i < n
            invariant
                i <= n,
                n == bytes.len(),
                n == payload.len(),
                bytes == payload@,
                forall|k: int| 0 <= k < i ==> bytes[k] != 0,
                encoding != 1 && encoding != 2,
            decreases n - i,
        {
            if payload[i] == 0 {
                let r = (
                    vstd::slice::slice_subrange(payload, 0, i),
                    vstd::slice::slice_subrange(payload, i + 1, n),
                );
                proof {
                    text::lemma_first_at_is(bytes, 0u8, i as int);
                    assert(r.0@ =~= bytes.take(i as int));
                    assert(r.1@ =~= bytes.skip(i + 1));
                }
                return r;
            }
            i = i + 1;
        }
        proof {
            text::lemma_first_at_is(bytes, 0u8, i as int);
        }
    }
    let none = vstd::slice::slice_subrange(payload, 0, 0);
    assert(none@ =~= Seq::<u8>::empty());
    (none, payload)
}

/// The key and value of a frame that carries a description.
pub fn described_frame(base_id: &str, desc_bytes: &[u8], value_bytes: &[u8], encoding: u8) -> (r: (
    String,
    String,
))
    ensures
        r.0@ == model::described_key(base_id@, model::decoded_text(desc_bytes@, encoding)),
        r.1@ == model::decoded_text(value_bytes@, encoding),
{
    let desc = decode_id3v2_text(desc_bytes, encoding);
    let value = decode_id3v2_text(value_bytes, encoding);
    let mut key = base_id.to_owned();
    if !desc.as_str().is_empty() {
        key.append(":");
        key.append(&desc);
        proof {
            reveal_strlit(":");
            assert(key@ =~= base_id@ + seq![':'] + desc@);
        }
    }
    (key, value)
}

/// How many language bytes precede the description of a described frame, or
/// `None` for a frame without a description.
pub fn language_prefix_len(frame_id: &str) -> (r: Option<usize>)
    ensures
        r == if frame_id@ == "TXXX"@ {
            Some(0usize)
        } else if frame_id@ == "COMM"@ {
            Some(3usize)
        } else {
            None
        },
{
    if same_text(frame_id, "TXXX") {
        Some(0)
    } else if same_text(frame_id, "COMM") {
        Some(3)
    } else {
        None
    }
}

// ── Tags and frames ──────────────────────────────────────────────────────────

/// One of the consecutive ID3v2 tags of a file.
#[derive(Debug, Clone, Copy, PartialEq, Eq, Structural)]
pub struct TagSpan {
    /// Major version: 2, 3 or 4.
    pub version: u8,
    /// Whether frame sizes are synchsafe rather than big-endian.
    pub synchsafe: bool,
    /// The flags byte.
    pub flags: u8,
    /// Offset of the first byte after the tag header.
    pub body_start: usize,
    /// Offset one past the last frame byte.
    pub body_end: usize,
    /// Offset just past the tag and its footer.
    pub next_offset: usize,
}

impl TagSpan {
    /// Whether this is the tag that starts at `offset`.
    pub open spec fn describes(self, data: Seq<u8>, offset: int) -> bool {
        &&& model::tag_starts(data, offset)
        &&& self.version == model::tag_version(data, offset)
        &&& self.synchsafe == model::tag_synchsafe(data, offset)
        &&& self.flags == model::tag_flags(data, offset)
        &&& self.body_start == offset + 10
        &&& self.body_end == model::tag_body_end(data, offset)
        &&& self.next_offset == model::tag_next(data, offset)
    }
}

/// Whether `tags` are exactly the tags that start at `offsets`.
pub open spec fn describe_all(tags: Seq<TagSpan>, data: Seq<u8>, offsets: Seq<int>) -> bool {
    &&& tags.len() == offsets.len()
    &&& forall|i: int|
        0 <= i < tags.len() ==> (#[trigger] tags[i]).describes(data, offsets[i])
}

/// Reads the tag header at `offset`.
fn tag_at(data: &[u8], offset: usize) -> (r: Option<TagSpan>)
    requires
        offset <= data@.len(),
    ensures
        match r {
            Some(t) => t.describes(data@, offset as int),
            None => !model::tag_starts(data@, offset as int),
        },
{
    if data.len() - offset < 10 || data[offset] != 0x49 || data[offset + 1] != 0x44 || data[offset
        + 2] != 0x33 {
        return None;
    }
    let version = data[offset + 3];
    if version < 2 || version > 4 {
        return None;
    }
    let field = vstd::slice::slice_subrange(data, offset + 6, offset + 10);
    let tag_size: u32 = serialize::synchsafe_to_u32(field);
    let flags = data[offset + 5];
    let body_start: usize = offset + 10;
    let body_end: usize = if tag_size as usize <= data.len() - body_start {
        body_start + tag_size as usize
    } else {
        data.len()
    };
    let footer: usize = if flags & 0x10 != 0 {
        10
    } else {
        0
    };
    let next_offset: usize = if footer <= data.len() - body_end {
        body_end + footer
    } else {
        data.len()
    };
    Some(
        TagSpan { version, synchsafe: version >= 4, flags, body_start, body_end, next_offset },
    )
}

/// The consecutive ID3v2 tags at the front of `data`.
pub fn iter_tags(data: &[u8]) -> (tags: Vec<TagSpan>)
    ensures
        describe_all(tags@, data@, model::tag_offsets(data@, 0)),
        model::audio_offset(data@) == if tags@.len() == 0 {
            0
        } else {
            tags@.last().next_offset as int
        },
{
    let mut tags: Vec<TagSpan> = Vec::new();
    let ghost mut seen: Seq<int> = Seq::empty();
    let mut offset: usize = 0;
    assert(seen + model::tag_offsets(data@, 0) =~= model::tag_offsets(data@, 0));
    loop
        invariant
            offset <= data@.len(),
            describe_all(tags@, data@, seen),
            seen + model::tag_offsets(data@, offset as int) == model::tag_offsets(data@, 0),
            model::audio_from(data@, offset as int) == model::audio_offset(data@),
            offset == if tags@.len() == 0 {
                0
            } else {
                tags@.last().next_offset
            },
        decreases data@.len() - offset,
    {
        match tag_at(data, offset) {
            None => {
                assert(seen + model::tag_offsets(data@, offset as int) =~= seen);
                return tags;
            },
            Some(tag) => {
                proof {
                    let rest = model::tag_offsets(data@, tag.next_offset as int);
                    assert(seen + (seq![offset as int] + rest) =~= seen.push(offset as int) + rest);
                    seen = seen.push(offset as int);
                }
                tags.push(tag);
                offset = tag.next_offset;
            },
        }
    }
}

/// The offset where the audio begins, past all consecutive ID3v2 tags.
pub fn find_audio_offset(data: &[u8]) -> (r: usize)
    ensures
        r == model::audio_offset(data@),
        r <= data@.len(),
{
    let tags = iter_tags(data);
    if tags.len() == 0 {
        0
    } else {
        let last = tags.len() - 1;
        assert(tags@[last as int].describes(data@, model::tag_offsets(data@, 0)[last as int]));
        tags[last].next_offset
    }
}

/// The offset of the first frame of a tag, past its extended header, or the end
/// of the tag when the extended header claims to reach past it.
fn first_frame_offset(data: &[u8], tag: &TagSpan, offset: Ghost<int>) -> (r: usize)
    requires
        tag.describes(data@, offset@),
    ensures
        tag.body_start <= r <= tag.body_end <= data@.len(),
        data@.subrange(r as int, tag.body_end as int) == model::frame_area(data@, offset@),
{
    let pos: usize = tag.body_start;
    let end: usize = tag.body_end;
    let mut start: usize = pos;
    if tag.version >= 3 && (tag.flags & 0x40) != 0 && end - pos >= 4 {
        let field = vstd::slice::slice_subrange(data, pos, pos + 4);
        let ext_size: u64 = if tag.version == 4 {
            serialize::synchsafe_to_u32(field) as u64
        } else {
            4 + serialize::big_endian_to_u32(field) as u64
        };
        start = if ext_size <= (end - pos) as u64 {
            pos + ext_size as usize
        } else {
            end
        };
    }
    assert(data@.subrange(start as int, end as int) =~= model::frame_area(data@, offset@));
    start
}

/// The bytes of one frame, header and payload.
#[derive(Debug, Clone, Copy, PartialEq, Eq, Structural)]
pub struct FrameSpan {
    /// Offset of the frame header.
    pub start: usize,
    /// Offset one past the payload.
    pub end: usize,
}

/// The bytes that `spans` cover in `data`.
pub open spec fn span_rows(data: Seq<u8>, spans: Seq<FrameSpan>) -> Seq<Seq<u8>> {
    Seq::new(spans.len(), |i: int| data.subrange(spans[i].start as int, spans[i].end as int))
}

/// Whether a byte may stand in a frame identifier.
fn is_id_byte(b: u8) -> (r: bool)
    ensures
        r == model::id_byte(b),
{
    (0x30 <= b && b <= 0x39) || (0x41 <= b && b <= 0x5A) || (0x61 <= b && b <= 0x7A) || b == 0x5F
}

/// The frames of a tag, up to padding or a malformed frame.
pub fn frames_in(data: &[u8], tag: &TagSpan) -> (spans: Vec<FrameSpan>)
    requires
        tag.body_start >= 10,
        tag.describes(data@, tag.body_start - 10),
    ensures
        span_rows(data@, spans@) == model::tag_frames(data@, tag.body_start - 10),
        forall|i: int|
            0 <= i < spans@.len() ==> (#[trigger] spans@[i]).start + 10 <= spans@[i].end
                <= data@.len(),
{
    let ghost offset: int = tag.body_start - 10;
    let ghost area = model::frame_area(data@, offset);
    let begin: usize = first_frame_offset(data, tag, Ghost(offset));
    let end: usize = tag.body_end;
    let mut spans: Vec<FrameSpan> = Vec::new();
    let mut pos: usize = begin;
    assert(area.skip(0) =~= area);
    assert(span_rows(data@, spans@) + model::raw_frames(area, tag.synchsafe) =~= model::raw_frames(
        area,
        tag.synchsafe,
    ));
    while end - pos >= 10
        invariant_except_break
            begin <= pos <= end <= data@.len(),
            area == data@.subrange(begin as int, end as int),
            span_rows(data@, spans@) + model::raw_frames(area.skip(pos - begin), tag.synchsafe)
                == model::raw_frames(area, tag.synchsafe),
            forall|i: int|
                0 <= i < spans@.len() ==> (#[trigger] spans@[i]).start + 10 <= spans@[i].end
                    <= data@.len(),
        ensures
            span_rows(data@, spans@) == model::raw_frames(area, tag.synchsafe),
            forall|i: int|
                0 <= i < spans@.len() ==> (#[trigger] spans@[i]).start + 10 <= spans@[i].end
                    <= data@.len(),
        decreases end - pos,
    {
        let ghost rest = area.skip(pos - begin);
        assert(rest =~= data@.subrange(pos as int, end as int));
        let field = vstd::slice::slice_subrange(data, pos + 4, pos + 8);
        assert(field@ =~= rest.subrange(4, 8));
        let size: u32 = if tag.synchsafe {
            serialize::synchsafe_to_u32(field)
        } else {
            serialize::big_endian_to_u32(field)
        };
        if !is_id_byte(data[pos]) || !is_id_byte(data[pos + 1]) || !is_id_byte(data[pos + 2])
            || !is_id_byte(data[pos + 3]) || size as usize > end - pos - 10 {
            assert(!model::frame_starts(rest, tag.synchsafe));
            assert(span_rows(data@, spans@) + model::raw_frames(rest, tag.synchsafe) =~= span_rows(
                data@,
                spans@,
            ));
            break;
        }
        let next: usize = pos + 10 + size as usize;
        proof {
            let n = model::frame_len(rest, tag.synchsafe);
            let later = model::raw_frames(rest.skip(n), tag.synchsafe);
            assert(model::frame_starts(rest, tag.synchsafe));
            assert(rest.skip(n) =~= area.skip(next - begin));
            let done = span_rows(data@, spans@);
            let more = span_rows(data@, spans@.push(FrameSpan { start: pos, end: next }));
            assert(rest.take(n) =~= data@.subrange(pos as int, next as int));
            assert(more =~= done.push(rest.take(n)));
            assert(done + (seq![rest.take(n)] + later) =~= more + later);
        }
        spans.push(FrameSpan { start: pos, end: next });
        pos = next;
        if end - pos < 10 {
            proof {
                let last = area.skip(pos - begin);
                assert(!model::frame_starts(last, tag.synchsafe));
                assert(span_rows(data@, spans@) + model::raw_frames(last, tag.synchsafe)
                    =~= span_rows(data@, spans@));
            }
        }
    }
    spans
}

/// The identifier of the frame that starts at `start`.
fn frame_id_at(data: &[u8], start: usize, end: usize) -> (s: String)
    requires
        start + 10 <= end <= data@.len(),
    ensures
        s@ == model::frame_id(data@.subrange(start as int, end as int)),
{
    let cs = latin1_chars(vstd::slice::slice_subrange(data, start, start + 4));
    let s = string_from_chars(&cs);
    assert(s@ =~= model::frame_id(data@.subrange(start as int, end as int)));
    s
}

/// Reads one frame as text.
fn text_frame(data: &[u8], span: &FrameSpan) -> (r: Option<(String, String)>)
    requires
        span.start + 10 <= span.end <= data@.len(),
    ensures
        (match r {
            Some(f) => Some((f.0@, f.1@)),
            None => None,
        }) == model::text_of_frame(data@.subrange(span.start as int, span.end as int)),
{
    let ghost frame = data@.subrange(span.start as int, span.end as int);
    let id = frame_id_at(data, span.start, span.end);
    let payload = vstd::slice::slice_subrange(data, span.start + 10, span.end);
    assert(payload@ =~= frame.skip(10));
    if !is_text_frame(&id) || payload.len() == 0 {
        return None;
    }
    let encoding = payload[0];
    match language_prefix_len(&id) {
        Some(lang_len) => {
            if payload.len() - 1 < lang_len {
                return None;
            }
            let rest = vstd::slice::slice_subrange(payload, 1 + lang_len, payload.len());
            assert(rest@ =~= payload@.skip(1 + lang_len));
            let (desc_bytes, value_bytes) = split_description(rest, encoding);
            proof {
                reveal_strlit("TXXX");
                reveal_strlit("COMM");
                assert("TXXX"@ != "COMM"@) by {
                    assert("TXXX"@[0] != "COMM"@[0]);
                }
            }
            Some(described_frame(&id, desc_bytes, value_bytes, encoding))
        },
        None => {
            let rest = vstd::slice::slice_subrange(payload, 1, payload.len());
            assert(rest@ =~= payload@.skip(1));
            let value = decode_id3v2_text(rest, encoding);
            Some((id, value))
        },
    }
}

/// The text frames of one tag.
pub fn parse_text_frames_in(data: &[u8], tag: &TagSpan) -> (frames: Vec<(String, String)>)
    requires
        tag.body_start >= 10,
        tag.describes(data@, tag.body_start - 10),
    ensures
        text::pairs(frames@) == model::tag_texts(data@, tag.body_start - 10),
{
    let spans = frames_in(data, tag);
    let ghost rows = span_rows(data@, spans@);
    let ghost read = |f: Seq<u8>| model::text_of_frame(f);
    let mut frames: Vec<(String, String)> = Vec::new();
    let mut i: usize = 0;
    assert(rows.take(0) =~= Seq::empty());
    assert(text::pairs(frames@) =~= rows.take(0).filter_map(read));
    while i < spans.len()
        invariant
            i <= spans@.len(),
            rows == span_rows(data@, spans@),
            read == (|f: Seq<u8>| model::text_of_frame(f)),
            text::pairs(frames@) == rows.take(i as int).filter_map(read),
            forall|k: int|
                0 <= k < spans@.len() ==> (#[trigger] spans@[k]).start + 10 <= spans@[k].end
                    <= data@.len(),
        decreases spans@.len() - i,
    {
        proof {
            rows.lemma_filter_map_take_succ(read, i as int);
        }
        let ghost before = frames@;
        let ghost so_far = text::pairs(frames@);
        match text_frame(data, &spans[i]) {
            Some(f) => {
                frames.push(f);
                assert(text::pairs(frames@) =~= so_far + seq![(f.0@, f.1@)]);
            },
            None => {
                assert(so_far + Seq::<(Seq<char>, Seq<char>)>::empty() =~= so_far);
            },
        }
        i = i + 1;
    }
    assert(rows.take(rows.len() as int) =~= rows);
    frames
}

/// The text frames of the first tag, with the tag's version; `None` without a tag.
pub fn parse_text_frames(data: &[u8]) -> (r: Option<(Vec<(String, String)>, u8)>)
    ensures
        match r {
            Some((frames, version)) => model::tag_starts(data@, 0) && version == model::tag_version(
                data@,
                0,
            ) && text::pairs(frames@) == model::tag_texts(data@, 0),
            None => !model::tag_starts(data@, 0),
        },
{
    let tags = iter_tags(data);
    if tags.len() == 0 {
        return None;
    }
    assert(tags@[0].describes(data@, model::tag_offsets(data@, 0)[0]));
    let tag = tags[0];
    Some((parse_text_frames_in(data, &tag), tag.version))
}

/// The position of the group of `key`.
fn group_of(groups: &Vec<(String, Vec<String>)>, key: &str) -> (r: Option<usize>)
    ensures
        match r {
            Some(i) => i < groups@.len() && groups@[i as int].0@ == key@,
            None => forall|k: int| 0 <= k < groups@.len() ==> (#[trigger] groups@[k]).0@ != key@,
        },
{
    let mut i: usize = 0;
    while i < groups.len()
        invariant
            i <= groups@.len(),
            forall|k: int| 0 <= k < i ==> (#[trigger] groups@[k]).0@ != key@,
        decreases groups@.len() - i,
    {
        if same_text(&groups[i].0, key) {
            return Some(i);
        }
        i = i + 1;
    }
    None
}

/// Adds a frame to grouped frames.
fn add_to_groups(
    groups: &mut Vec<(String, Vec<String>)>,
    id: String,
    value: String,
    seen: Ghost<Seq<(Seq<char>, Seq<char>)>>,
)
    requires
        model::group_views(old(groups)@) == model::grouped(seen@),
    ensures
        model::group_views(final(groups)@) == model::grouped(seen@.push((id@, value@))),
{
    let ghost f = (id@, value@);
    let ghost keys = model::keys_of(seen@);
    let ghost before = model::grouped(seen@);
    proof {
        assert(model::keys_of(seen@.push(f)) =~= keys.push(id@));
        text::lemma_distinct(keys);
        text::lemma_distinct_push(keys, id@);
        assert(model::group_views(groups@).len() == groups@.len());
        assert(before.len() == text::distinct(keys).len());
        assert forall|k: int| 0 <= k < groups@.len() implies #[trigger] groups@[k].0@
            == text::distinct(keys)[k] by {
            assert(model::group_views(groups@)[k].0 == before[k].0);
        }
    }
    match group_of(groups, &id) {
        Some(i) => {
            let ghost old_groups = groups@;
            proof {
                assert(text::distinct(keys)[i as int] == id@);
                assert(text::distinct(keys).contains(id@));
                assert(keys.contains(id@));
                assert(model::group_views(groups@)[i as int].1 == before[i as int].1);
                model::lemma_values_of_push(seen@, f, id@);
                text::lemma_distinct(model::values_of(seen@, id@));
                text::lemma_distinct_push(model::values_of(seen@, id@), value@);
            }
            if !text::contains_text(&groups[i].1, &value) {
                groups[i].1.push(value);
                assert(text::texts(groups@[i as int].1@) =~= text::texts(
                    old_groups[i as int].1@,
                ).push(f.1));
            }
            proof {
                let after = model::grouped(seen@.push(f));
                assert forall|k: int| 0 <= k < groups@.len() implies #[trigger] model::group_views(
                    groups@,
                )[k] == after[k] by {
                    assert(model::group_views(old_groups)[k] == before[k]);
                    if k != i {
                        assert(text::distinct(keys)[k] != id@);
                        model::lemma_values_of_push(seen@, f, text::distinct(keys)[k]);
                    }
                }
                assert(model::group_views(groups@) =~= after);
            }
        },
        None => {
            let ghost old_groups = groups@;
            proof {
                assert(!keys.contains(id@)) by {
                    if keys.contains(id@) {
                        assert(text::distinct(keys).contains(id@));
                        let j = choose|j: int|
                            0 <= j < text::distinct(keys).len() && text::distinct(keys)[j] == id@;
                        assert(model::group_views(groups@)[j].0 == before[j].0);
                        assert(groups@[j].0@ == id@);
                    }
                }
                model::lemma_values_of_absent(seen@, id@);
                model::lemma_values_of_push(seen@, f, id@);
                assert(model::values_of(seen@, id@) =~= Seq::empty());
                text::lemma_distinct_push(model::values_of(seen@, id@), value@);
            }
            let mut values: Vec<String> = Vec::new();
            values.push(value);
            groups.push((id, values));
            proof {
                let after = model::grouped(seen@.push(f));
                assert forall|k: int| 0 <= k < groups@.len() implies #[trigger] model::group_views(
                    groups@,
                )[k] == after[k] by {
                    if k < old_groups.len() {
                        assert(model::group_views(old_groups)[k] == before[k]);
                        model::lemma_values_of_push(seen@, f, text::distinct(keys)[k]);
                    } else {
                        assert(text::texts(values@) =~= seq![f.1]);
                        assert(text::distinct(model::values_of(seen@.push(f), id@)) =~= seq![f.1]);
                    }
                }
                assert(model::group_views(groups@) =~= after);
            }
        },
    }
}

/// The text frames of all consecutive tags, grouped by key, with the version of
/// the first tag; `None` without a tag.
pub fn parse_all_text_frames(data: &[u8]) -> (r: Option<(Vec<(String, Vec<String>)>, u8)>)
    ensures
        match r {
            Some((groups, version)) => model::tag_starts(data@, 0) && version == model::tag_version(
                data@,
                0,
            ) && model::group_views(groups@) == model::grouped(model::file_texts(data@)),
            None => !model::tag_starts(data@, 0),
        },
{
    let tags = iter_tags(data);
    if tags.len() == 0 {
        return None;
    }
    let ghost offsets = model::tag_offsets(data@, 0);
    let ghost rows = offsets.map_values(|o: int| model::tag_texts(data@, o));
    assert(tags@[0].describes(data@, offsets[0]));
    let version = tags[0].version;
    let mut groups: Vec<(String, Vec<String>)> = Vec::new();
    let ghost mut seen: Seq<(Seq<char>, Seq<char>)> = Seq::empty();
    proof {
        assert(rows.take(0) =~= Seq::empty());
        assert(model::keys_of(seen) =~= Seq::empty());
        assert(model::group_views(groups@) =~= model::grouped(seen));
    }
    let mut t: usize = 0;
    while t < tags.len()
        invariant
            t <= tags@.len(),
            describe_all(tags@, data@, offsets),
            rows == offsets.map_values(|o: int| model::tag_texts(data@, o)),
            seen == rows.take(t as int).flatten(),
            model::group_views(groups@) == model::grouped(seen),
        decreases tags@.len() - t,
    {
        let tag = tags[t];
        assert(tags@[t as int].describes(data@, offsets[t as int]));
        let frames = parse_text_frames_in(data, &tag);
        let ghost row = text::pairs(frames@);
        let ghost start = seen;
        assert(row == rows[t as int]);
        let mut i: usize = 0;
        assert(start + row.take(0) =~= start);
        while i < frames.len()
            invariant
                i <= frames@.len(),
                row == text::pairs(frames@),
                seen == start + row.take(i as int),
                model::group_views(groups@) == model::grouped(seen),
            decreases frames@.len() - i,
        {
            let id = frames[i].0.clone();
            let value = frames[i].1.clone();
            add_to_groups(&mut groups, id, value, Ghost(seen));
            proof {
                assert(row[i as int] == (id@, value@));
                assert(start + row.take(i + 1) =~= (start + row.take(i as int)).push(
                    (id@, value@),
                ));
                seen = seen.push((id@, value@));
            }
            i = i + 1;
        }
        proof {
            assert(row.take(row.len() as int) =~= row);
            rows.take(t as int).lemma_flatten_push(row);
            assert(rows.take(t + 1) =~= rows.take(t as int).push(row));
        }
        t = t + 1;
    }
    assert(rows.take(rows.len() as int) =~= rows);
    Some((groups, version))
}

} // verus!

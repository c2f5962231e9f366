//! How tags are laid out, byte by byte, and what an edit does to them.
use vstd::prelude::*;
use vstd::utf8::*;
use crate::calendar;
use crate::digest;
use crate::library::scanner;
use crate::text;
use super::edit;
use super::laws;
use super::model;

verus! {

// ── Numbers ──────────────────────────────────────────────────────────────────

/// A synchsafe size has seven bits in each byte, the highest first; a plain size has
/// eight.
pub proof fn law_sizes_are_positional(a: u8, b: u8, c: u8, d: u8)
    ensures
        a < 0x80 && b < 0x80 && c < 0x80 && d < 0x80 ==> model::synchsafe_value(seq![a, b, c, d])
            == 2097152 * a + 16384 * b + 128 * c + d,
        model::big_endian_value(seq![a, b, c, d]) == 16777216 * a + 65536 * b + 256 * c + d,
{
    if a < 0x80 && b < 0x80 && c < 0x80 && d < 0x80 {
        assert(((a as u32) << 21) | ((b as u32) << 14) | ((c as u32) << 7) | (d as u32) == 2097152
            * a + 16384 * b + 128 * c + d) by (bit_vector)
            requires
                a < 0x80 && b < 0x80 && c < 0x80 && d < 0x80,
        ;
    }
    assert(((a as u32) << 24) | ((b as u32) << 16) | ((c as u32) << 8) | (d as u32) == 16777216 * a
        + 65536 * b + 256 * c + d) by (bit_vector);
}

/// From version four on the sizes of frames are synchsafe.
pub proof fn law_version_decides_sizes(data: Seq<u8>, offset: int)
    ensures
        data[offset + 3] == 4 ==> model::tag_synchsafe(data, offset),
        data[offset + 3] == 3 || data[offset + 3] == 2 ==> !model::tag_synchsafe(data, offset),
        model::size_value(seq![0u8, 0u8, 1u8, 0u8], true) == 128,
        model::size_value(seq![0u8, 0u8, 1u8, 0u8], false) == 256,
{
    law_sizes_are_positional(0, 0, 1, 0);
}

// ── Tags ─────────────────────────────────────────────────────────────────────

/// The four bytes of a tag's size.
pub open spec fn tag_size_at(data: Seq<u8>, offset: int) -> int {
    2097152 * data[offset + 6] + 16384 * data[offset + 7] + 128 * data[offset + 8] + data[offset
        + 9]
}

/// A tag begins with `ID3` and a version from two to four, and ends behind its header and
/// as many bytes as it says; a footer of ten bytes follows where its flag is set. The file
/// may be shorter.
pub proof fn law_tag_spans_its_size(data: Seq<u8>, offset: int)
    requires
        0 <= offset,
        offset + 10 <= data.len(),
        data[offset] == 'I' as u8,
        data[offset + 1] == 'D' as u8,
        data[offset + 2] == '3' as u8,
        2 <= data[offset + 3] <= 4,
        data[offset + 6] < 0x80,
        data[offset + 7] < 0x80,
        data[offset + 8] < 0x80,
        data[offset + 9] < 0x80,
    ensures
        model::tag_starts(data, offset),
        ({
            let end = offset + 10 + tag_size_at(data, offset);
            &&& end <= data.len() ==> model::tag_body_end(data, offset) == end
            &&& end > data.len() ==> model::tag_body_end(data, offset) == data.len()
            &&& end <= data.len() && data[offset + 5] & 0x10 == 0 ==> model::tag_next(data, offset)
                == end
            &&& end + 10 <= data.len() && data[offset + 5] & 0x10 != 0 ==> model::tag_next(
                data,
                offset,
            ) == end + 10
        }),
{
    let s = data.subrange(offset + 6, offset + 10);
    assert(s =~= seq![data[offset + 6], data[offset + 7], data[offset + 8], data[offset + 9]]);
    law_sizes_are_positional(
        data[offset + 6],
        data[offset + 7],
        data[offset + 8],
        data[offset + 9],
    );
}

/// Nothing else begins a tag.
pub proof fn law_other_bytes_begin_no_tag(data: Seq<u8>, offset: int)
    requires
        offset + 10 > data.len() || data[offset] != 'I' as u8 || data[offset + 1] != 'D' as u8
            || data[offset + 2] != '3' as u8 || data[offset + 3] < 2 || data[offset + 3] > 4,
    ensures
        !model::tag_starts(data, offset),
        model::tag_offsets(data, offset).len() == 0,
        model::audio_from(data, offset) == offset,
{
}

/// The audio begins behind the last of the tags at the front, which follow each other.
pub proof fn law_audio_follows_tags(data: Seq<u8>, offset: int)
    requires
        model::tag_starts(data, offset),
    ensures
        model::tag_offsets(data, offset)[0] == offset,
        model::tag_offsets(data, offset).skip(1) == model::tag_offsets(
            data,
            model::tag_next(data, offset),
        ),
        model::audio_from(data, offset) == model::audio_from(data, model::tag_next(data, offset)),
{
    assert(model::tag_offsets(data, offset).skip(1) =~= model::tag_offsets(
        data,
        model::tag_next(data, offset),
    ));
}

/// The frames of a tag follow its header, and the extended header where its flag is set:
/// in version three that is four bytes longer than it says, in version four just as long.
pub proof fn law_frames_follow_headers(data: Seq<u8>, offset: int)
    requires
        model::tag_starts(data, offset),
        offset + 14 <= model::tag_body_end(data, offset),
    ensures
        data[offset + 5] & 0x40 == 0 || data[offset + 3] == 2 ==> model::frame_area(data, offset)
            == data.subrange(offset + 10, model::tag_body_end(data, offset)),
        data[offset + 5] & 0x40 != 0 && data[offset + 3] == 3 ==> {
            let n = 16777216 * data[offset + 10] + 65536 * data[offset + 11] + 256 * data[offset
                + 12] + data[offset + 13];
            offset + 14 + n <= model::tag_body_end(data, offset) ==> model::frame_area(data, offset)
                == data.subrange(offset + 14 + n, model::tag_body_end(data, offset))
        },
        data[offset + 5] & 0x40 != 0 && data[offset + 3] == 4 && data[offset + 10] < 0x80
            && data[offset + 11] < 0x80 && data[offset + 12] < 0x80 && data[offset + 13] < 0x80 ==> {
            let n = 2097152 * data[offset + 10] + 16384 * data[offset + 11] + 128 * data[offset
                + 12] + data[offset + 13];
            offset + 10 + n <= model::tag_body_end(data, offset) ==> model::frame_area(data, offset)
                == data.subrange(offset + 10 + n, model::tag_body_end(data, offset))
        },
{
    let s = data.subrange(offset + 10, offset + 14);
    assert(s =~= seq![data[offset + 10], data[offset + 11], data[offset + 12], data[offset + 13]]);
    law_sizes_are_positional(
        data[offset + 10],
        data[offset + 11],
        data[offset + 12],
        data[offset + 13],
    );
}

/// A written tag has a header of ten bytes, with no flags, and the size of what follows.
pub proof fn law_header_layout(version: u8, n: u32)
    requires
        n < 0x1000_0000,
    ensures
        ({
            let h = model::header_bytes(version, n);
            &&& h.len() == 10
            &&& h[0] == 'I' as u8 && h[1] == 'D' as u8 && h[2] == '3' as u8
            &&& h[3] == version && h[4] == 0 && h[5] == 0
            &&& 2097152 * h[6] + 16384 * h[7] + 128 * h[8] + h[9] == n
        }),
{
    let h = model::header_bytes(version, n);
    let s = model::synchsafe_bytes(n);
    laws::law_synchsafe_round_trip(n);
    assert(s =~= seq![s[0], s[1], s[2], s[3]]);
    law_sizes_are_positional(s[0], s[1], s[2], s[3]);
}

/// A written tag holds its text frames, then the other frames, and then 2048 zero bytes.
pub proof fn law_body_layout(
    frames: Seq<(Seq<char>, Seq<char>)>,
    preserved: Seq<Seq<u8>>,
    version: u8,
    i: int,
)
    requires
        0 <= i < 2048,
    ensures
        ({
            let body = model::tag_body(frames, preserved, version);
            let a = model::written_frames(frames, version).flatten();
            let b = preserved.flatten();
            &&& body.len() == a.len() + b.len() + 2048
            &&& body.take(a.len() as int) == a
            &&& body.subrange(a.len() as int, a.len() + b.len() as int) == b
            &&& body[a.len() + b.len() + i] == 0
        }),
{
    let body = model::tag_body(frames, preserved, version);
    let a = model::written_frames(frames, version).flatten();
    let b = preserved.flatten();
    assert(body.take(a.len() as int) =~= a);
    assert(body.subrange(a.len() as int, a.len() + b.len() as int) =~= b);
}

// ── Frames ───────────────────────────────────────────────────────────────────

/// A frame begins with its identifier of four bytes, its size, two bytes of flags that
/// are zero, and then holds its content.
pub proof fn law_frame_layout(id: Seq<u8>, payload: Seq<u8>, synchsafe: bool)
    requires
        id.len() == 4,
        model::size_fits(payload.len() as int, synchsafe),
    ensures
        ({
            let f = model::frame_bytes(id, payload, synchsafe);
            &&& f.len() == 10 + payload.len()
            &&& f.take(4) == id
            &&& synchsafe ==> 2097152 * f[4] + 16384 * f[5] + 128 * f[6] + f[7] == payload.len()
            &&& !synchsafe ==> 16777216 * f[4] + 65536 * f[5] + 256 * f[6] + f[7] == payload.len()
            &&& f[8] == 0 && f[9] == 0
            &&& f.skip(10) == payload
        }),
{
    let n = payload.len() as u32;
    let f = model::frame_bytes(id, payload, synchsafe);
    let s = model::size_bytes(n, synchsafe);
    assert(s =~= seq![s[0], s[1], s[2], s[3]]);
    law_sizes_are_positional(s[0], s[1], s[2], s[3]);
    if synchsafe {
        laws::law_synchsafe_round_trip(n);
    } else {
        laws::law_big_endian_round_trip(n);
    }
    assert(f.take(4) =~= id);
    assert(f.skip(10) =~= payload);
    assert(f[4] == s[0] && f[5] == s[1] && f[6] == s[2] && f[7] == s[3]);
}

/// A frame that is sized anew keeps its identifier and its content, and its size means
/// the same.
pub proof fn law_sized_anew(f: Seq<u8>, from: bool, to: bool)
    requires
        f.len() >= 10,
        model::size_fits(model::size_value(f.subrange(4, 8), from) as int, to),
    ensures
        ({
            let r = model::resized_frame(f, from, to);
            &&& r.len() == f.len()
            &&& r.take(4) == f.take(4)
            &&& r.skip(8) == f.skip(8)
            &&& model::size_value(r.subrange(4, 8), to) == model::size_value(f.subrange(4, 8), from)
        }),
{
    let r = model::resized_frame(f, from, to);
    let n = model::size_value(f.subrange(4, 8), from);
    if to {
        laws::law_synchsafe_round_trip(n);
    } else {
        laws::law_big_endian_round_trip(n);
    }
    assert(r.take(4) =~= f.take(4));
    assert(r.skip(8) =~= f.skip(8));
    assert(r.subrange(4, 8) =~= model::size_bytes(n, to));
}

/// Text is written in UTF-8: behind the byte for that encoding, and in a comment behind
/// the language too. The description of a comment, or of a text of the user, stands in
/// front, with a zero byte behind it.
pub proof fn law_text_layout(id: Seq<char>, description: Seq<char>, value: Seq<char>)
    requires
        !id.contains(':'),
    ensures
        id != "COMM"@ && id != "TXXX"@ ==> model::payload_of(id, value) == seq![3u8] + encode_utf8(
            value,
        ),
        description.len() > 0 ==> model::payload_of("TXXX:"@ + description, value) == seq![3u8]
            + encode_utf8(description) + seq![0u8] + encode_utf8(value),
        description.len() > 0 ==> model::payload_of("COMM:"@ + description, value) == seq![
            3u8,
            'e' as u8,
            'n' as u8,
            'g' as u8,
        ] + encode_utf8(description) + seq![0u8] + encode_utf8(value),
        model::payload_of("COMM"@, value) == seq![3u8, 'e' as u8, 'n' as u8, 'g' as u8, 0u8]
            + encode_utf8(value),
{
    reveal_strlit("TXXX:");
    reveal_strlit("COMM:");
    reveal_strlit("TXXX");
    reveal_strlit("COMM");
    law_keys_come_apart(id, description);
    let txxx = seq!['T', 'X', 'X', 'X'];
    let comm = seq!['C', 'O', 'M', 'M'];
    assert("TXXX"@ =~= txxx);
    assert("COMM"@ =~= comm);
    assert(!txxx.contains(':') && !comm.contains(':'));
    assert("TXXX:"@ + description =~= txxx + seq![':'] + description);
    assert("COMM:"@ + description =~= comm + seq![':'] + description);
    law_keys_come_apart(txxx, description);
    law_keys_come_apart(comm, description);
    assert(encode_utf8(Seq::<char>::empty()) =~= Seq::empty());
    assert(txxx[0] != comm[0]);
    let c = seq![3u8, 0x65u8, 0x6Eu8, 0x67u8];
    let d = encode_utf8(description);
    let v = encode_utf8(value);
    assert(seq![3u8] + (d + seq![0u8] + v) =~= seq![3u8] + d + seq![0u8] + v);
    assert(c + (d + seq![0u8] + v) =~= c + d + seq![0u8] + v);
    assert(c + (Seq::<u8>::empty() + seq![0u8] + v) =~= seq![3u8, 0x65u8, 0x6Eu8, 0x67u8, 0u8] + v);
}

/// A key is an identifier, or an identifier, a colon and a description, and comes apart
/// into them.
pub proof fn law_keys_come_apart(id: Seq<char>, description: Seq<char>)
    requires
        !id.contains(':'),
    ensures
        model::described_key(id, Seq::empty()) == id,
        model::key_base(id) == id,
        model::key_description(id).len() == 0,
        description.len() > 0 ==> model::described_key(id, description) == id + seq![':']
            + description,
        model::key_base(id + seq![':'] + description) == id,
        model::key_description(id + seq![':'] + description) == description,
{
    let key = id + seq![':'] + description;
    let n = id.len() as int;
    assert forall|i: int| 0 <= i < n implies id[i] != ':' && key[i] != ':' by {
        assert(id.contains(id[i]));
        assert(key[i] == id[i]);
    }
    assert(key[n] == ':');
    text::lemma_first_at_is(key, ':', n);
    text::lemma_first_at_is(id, ':', n);
    assert(id.take(n) =~= id);
    assert(key.take(n) =~= id);
    assert(key.skip(n + 1) =~= description);
}

/// The frames of text are those with an identifier of four characters that begins with
/// `T`, and the comments.
pub proof fn law_text_frames(id: Seq<char>)
    requires
        id.len() == 4,
        forall|i: int| 0 <= i < 4 ==> '0' <= #[trigger] id[i] <= '9' || 'A' <= id[i] <= 'Z',
    ensures
        model::is_text_key(id) <==> id[0] == 'T' || id == "COMM"@,
{
    assert(!id.contains(':'));
    law_keys_come_apart(id, Seq::empty());
    lemma_ascii_len(id);
}

/// Plain ASCII takes one byte for each character.
proof fn lemma_ascii_len(s: Seq<char>)
    requires
        forall|i: int| 0 <= i < s.len() ==> (#[trigger] s[i]) as u32 <= 127,
    ensures
        encode_utf8(s).len() == s.len(),
    decreases s.len(),
{
    if s.len() > 0 {
        let rest = s.drop_first();
        assert forall|i: int| 0 <= i < rest.len() implies (#[trigger] rest[i]) as u32 <= 127 by {
            assert(rest[i] == s[i + 1]);
        }
        lemma_ascii_len(rest);
        assert(s[0] as u32 <= 127);
    }
}

// ── Reading text ─────────────────────────────────────────────────────────────

/// In UTF-16 a surrogate without its other half reads as the replacement character.
pub proof fn law_lone_surrogate_is_replaced(unit: u16, rest: Seq<u16>)
    requires
        0xDC00 <= unit <= 0xDFFF || (0xD800 <= unit <= 0xDBFF && (rest.len() == 0 || rest[0]
            < 0xDC00 || rest[0] > 0xDFFF)),
    ensures
        model::utf16_lossy(seq![unit] + rest) == seq!['\u{FFFD}'] + model::utf16_lossy(rest),
{
    let all = seq![unit] + rest;
    assert(all.skip(1) =~= rest);
    if rest.len() > 0 {
        assert(all[1] == rest[0]);
    }
}

/// In UTF-16 a text ends at the first NUL.
pub proof fn law_wide_text_ends_at_nul(units: Seq<u16>, rest: Seq<u16>)
    requires
        !units.contains(0u16),
    ensures
        model::units_to_nul(units + seq![0u16] + rest) == units,
        model::units_to_nul(units) == units,
{
    let all = units + seq![0u16] + rest;
    let n = units.len() as int;
    assert forall|i: int| 0 <= i < n implies all[i] != 0u16 && units[i] != 0u16 by {
        assert(units.contains(units[i]));
        assert(all[i] == units[i]);
    }
    text::lemma_first_at_is(all, 0u16, n);
    text::lemma_first_at_is(units, 0u16, n);
    assert(all.take(n) =~= units);
    assert(units.take(n) =~= units);
}

/// NULs behind a text in one-byte characters are dropped, and only those.
pub proof fn law_nuls_behind_are_dropped(s: Seq<char>)
    ensures
        model::trim_nuls(s.push('\0')) == model::trim_nuls(s),
        s.len() > 0 && s.last() != '\0' ==> model::trim_nuls(s) == s,
        model::trim_nuls(Seq::empty()).len() == 0,
{
    assert(s.push('\0').drop_last() =~= s);
}

/// In a described text of one-byte characters, or of UTF-8, the first zero byte parts the
/// description from the value; where there is none, all is value.
pub proof fn law_zero_byte_parts_description(front: Seq<u8>, back: Seq<u8>, encoding: u8)
    requires
        encoding == 0 || encoding == 3,
        !front.contains(0u8),
    ensures
        model::description_split(front + seq![0u8] + back, encoding) == (front, back),
        model::description_split(front, encoding).0.len() == 0,
        model::description_split(front, encoding).1 == front,
{
    let all = front + seq![0u8] + back;
    let n = front.len() as int;
    assert forall|i: int| 0 <= i < n implies all[i] != 0u8 && front[i] != 0u8 by {
        assert(front.contains(front[i]));
        assert(all[i] == front[i]);
    }
    text::lemma_first_at_is(all, 0u8, n);
    text::lemma_first_at_is(front, 0u8, n);
    assert(all.take(n) =~= front);
    assert(all.skip(n + 1) =~= back);
}

/// A comment reads with its language left out: its text begins in the fifth byte.
pub proof fn law_comment_skips_language(language: Seq<u8>, bytes: Seq<u8>, encoding: u8)
    requires
        language.len() == 3,
    ensures
        model::text_of_payload("COMM"@, seq![encoding] + language + bytes) == Some(
            model::described_text("COMM"@, bytes, encoding),
        ),
        model::text_of_payload("TXXX"@, seq![encoding] + bytes) == Some(
            model::described_text("TXXX"@, bytes, encoding),
        ),
        model::text_of_payload("COMM"@, Seq::empty()) is None,
{
    reveal_strlit("TXXX");
    reveal_strlit("COMM");
    assert("COMM"@[0] != "TXXX"@[0]);
    assert((seq![encoding] + language + bytes).skip(4) =~= bytes);
    assert((seq![encoding] + bytes).skip(1) =~= bytes);
}

// ── Editing ──────────────────────────────────────────────────────────────────

/// Whether the first of the texts under the key is the given one.
pub open spec fn first_text(
    texts: Seq<(Seq<char>, Seq<char>)>,
    key: Seq<char>,
    value: Seq<char>,
) -> bool {
    exists|i: int|
        0 <= i < texts.len() && #[trigger] texts[i] == (key, value) && forall|j: int|
            0 <= j < i ==> (#[trigger] texts[j]).0 != key
}

/// Of several texts under one key an edit keeps the first.
pub proof fn law_first_text_is_kept(data: Seq<u8>, key: Seq<char>, value: Seq<char>)
    ensures
        edit::collapsed(data).contains((key, value)) <==> first_text(
            model::file_texts(data),
            key,
            value,
        ),
        model::keys_of(edit::collapsed(data)).no_duplicates(),
{
    let texts = model::file_texts(data);
    let keys = model::keys_of(texts);
    let d = text::distinct(keys);
    let kept = edit::collapsed(data);
    text::lemma_distinct(keys);
    assert(model::keys_of(kept) =~= d);
    assert forall|k: int| 0 <= k < kept.len() implies first_text(texts, kept[k].0, kept[k].1)
        && kept[k].0 == d[k] by {
        assert(d.contains(d[k]));
        let i = choose|i: int| 0 <= i < keys.len() && keys[i] == d[k];
        lemma_first_value(texts, d[k]);
        text::lemma_distinct(model::values_of(texts, d[k]));
    }
    if kept.contains((key, value)) {
        let k = choose|k: int| 0 <= k < kept.len() && kept[k] == (key, value);
        assert(first_text(texts, kept[k].0, kept[k].1));
    }
    if first_text(texts, key, value) {
        let i = choose|i: int|
            0 <= i < texts.len() && #[trigger] texts[i] == (key, value) && forall|j: int|
                0 <= j < i ==> (#[trigger] texts[j]).0 != key;
        assert(keys[i] == key);
        assert(keys.contains(key));
        assert(d.contains(key));
        let k = choose|k: int| 0 <= k < d.len() && d[k] == key;
        assert(first_text(texts, kept[k].0, kept[k].1));
        let j = choose|j: int|
            0 <= j < texts.len() && #[trigger] texts[j] == (key, kept[k].1) && forall|l: int|
                0 <= l < j ==> (#[trigger] texts[l]).0 != key;
        if i < j {
            assert(texts[i].0 != key);
        }
        if j < i {
            assert(texts[j].0 != key);
        }
        assert(kept[k] == (key, value));
    }
}

/// The first of the distinct values under a key that is there is that of its first text.
proof fn lemma_first_value(texts: Seq<(Seq<char>, Seq<char>)>, key: Seq<char>)
    requires
        model::keys_of(texts).contains(key),
    ensures
        ({
            let values = text::distinct(model::values_of(texts, key));
            values.len() > 0 && first_text(texts, key, values[0])
        }),
    decreases texts.len(),
{
    let n = texts.len() - 1;
    let front = texts.drop_last();
    let keys = model::keys_of(texts);
    let pick = |f: (Seq<char>, Seq<char>)|
        if f.0 == key {
            Some(f.1)
        } else {
            None
        };
    let before = model::values_of(front, key);
    assert(front =~= texts.take(n));
    texts.lemma_filter_map_take_succ(pick, n);
    assert(texts.take(n + 1) =~= texts);
    if model::keys_of(front).contains(key) {
        lemma_first_value(front, key);
        let v = text::distinct(before)[0];
        let i = choose|i: int|
            0 <= i < front.len() && #[trigger] front[i] == (key, v) && forall|j: int|
                0 <= j < i ==> (#[trigger] front[j]).0 != key;
        assert(texts[i] == (key, v));
        assert forall|j: int| 0 <= j < i implies (#[trigger] texts[j]).0 != key by {
            assert(texts[j] == front[j]);
        }
        if texts[n].0 == key {
            text::lemma_distinct_push(before, texts[n].1);
            assert(model::values_of(texts, key) =~= before.push(texts[n].1));
        } else {
            assert(model::values_of(texts, key) =~= before);
        }
    } else {
        model::lemma_values_of_absent(front, key);
        let i = choose|i: int| 0 <= i < keys.len() && keys[i] == key;
        if i < n {
            assert(model::keys_of(front)[i] == key);
        }
        assert(texts[n].0 == key);
        assert(model::values_of(texts, key) =~= seq![texts[n].1]);
        let one = seq![texts[n].1];
        assert(one.drop_last() =~= Seq::empty());
        assert(text::distinct(one) =~= one) by {
            reveal_with_fuel(text::distinct, 2);
        }
        assert(texts[n] == (key, texts[n].1));
        assert forall|j: int| 0 <= j < n implies (#[trigger] texts[j]).0 != key by {
            assert(model::keys_of(front)[j] == texts[j].0);
        }
    }
}

/// The keys in conflict are just those with two different texts, and each is told with
/// all of its texts, each once.
pub proof fn law_conflicts_are_different_texts(
    data: Seq<u8>,
    key: Seq<char>,
    a: Seq<char>,
    b: Seq<char>,
)
    requires
        model::file_texts(data).contains((key, a)),
        model::file_texts(data).contains((key, b)),
        a != b,
    ensures
        exists|i: int|
            0 <= i < edit::conflicts(data).len() && (#[trigger] edit::conflicts(data)[i]).0 == key,
        forall|i: int|
            0 <= i < edit::conflicts(data).len() && (#[trigger] edit::conflicts(data)[i]).0 == key
                ==> edit::conflicts(data)[i].1.contains(a) && edit::conflicts(data)[i].1.contains(b)
                && edit::conflicts(data)[i].1.no_duplicates(),
{
    let texts = model::file_texts(data);
    let keys = model::keys_of(texts);
    let groups = model::grouped(texts);
    let two = |g: (Seq<char>, Seq<Seq<char>>)| g.1.len() >= 2;
    let d = text::distinct(keys);
    let values = text::distinct(model::values_of(texts, key));
    text::lemma_distinct(keys);
    text::lemma_distinct(model::values_of(texts, key));
    lemma_value_listed(texts, key, a);
    lemma_value_listed(texts, key, b);
    let p = choose|p: int| 0 <= p < values.len() && values[p] == a;
    let q = choose|q: int| 0 <= q < values.len() && values[q] == b;
    assert(p != q);
    let i = choose|i: int| 0 <= i < texts.len() && texts[i] == (key, a);
    assert(keys[i] == key);
    assert(keys.contains(key));
    assert(d.contains(key));
    let k = choose|k: int| 0 <= k < d.len() && d[k] == key;
    assert(groups[k] == (key, values));
    groups.lemma_filter_contains(two, k);
    let found = groups.filter(two);
    let m = choose|m: int| 0 <= m < found.len() && found[m] == groups[k];
    assert(edit::conflicts(data)[m].0 == key);
    assert forall|i: int| 0 <= i < found.len() && (#[trigger] found[i]).0 == key implies found[i].1
        == values by {
        assert(found.contains(found[i]));
        groups.lemma_filter_contains_rev(two, found[i]);
        let j = choose|j: int| 0 <= j < groups.len() && groups[j] == found[i];
        assert(groups[j].0 == d[j]);
    }
}

pub(crate) proof fn lemma_value_listed(texts: Seq<(Seq<char>, Seq<char>)>, key: Seq<char>, v: Seq<char>)
    ensures
        model::values_of(texts, key).contains(v) <==> texts.contains((key, v)),
    decreases texts.len(),
{
    if texts.len() > 0 {
        let front = texts.drop_last();
        let last = texts.last();
        let before = model::values_of(front, key);
        let all = model::values_of(texts, key);
        lemma_value_listed(front, key, v);
        assert(front.push(last) =~= texts);
        model::lemma_values_of_push(front, last, key);
        if before.contains(v) {
            let k = choose|k: int| 0 <= k < before.len() && before[k] == v;
            assert(all[k] == v);
            let i = choose|i: int| 0 <= i < front.len() && front[i] == (key, v);
            assert(texts[i] == (key, v));
        }
        if last == (key, v) {
            assert(all[before.len() as int] == v);
            assert(texts[texts.len() - 1] == (key, v));
        }
        if texts.contains((key, v)) && last != (key, v) {
            let i = choose|i: int| 0 <= i < texts.len() && texts[i] == (key, v);
            assert(front[i] == (key, v));
        }
        if all.contains(v) && !before.contains(v) {
            let k = choose|k: int| 0 <= k < all.len() && all[k] == v;
            if k < before.len() {
                assert(before[k] == v);
            }
            assert(last == (key, v));
        }
    } else {
        assert(!model::keys_of(texts).contains(key));
        model::lemma_values_of_absent(texts, key);
    }
}

/// A key with one text, however often, is in no conflict, and what a conflict tells was
/// found under its key.
pub proof fn law_conflicts_are_found(data: Seq<u8>, i: int, v: Seq<char>)
    requires
        0 <= i < edit::conflicts(data).len(),
    ensures
        edit::conflicts(data)[i].1.len() >= 2,
        edit::conflicts(data)[i].1.no_duplicates(),
        edit::conflicts(data)[i].1.contains(v) <==> model::file_texts(data).contains(
            (edit::conflicts(data)[i].0, v),
        ),
{
    let texts = model::file_texts(data);
    let groups = model::grouped(texts);
    let two = |g: (Seq<char>, Seq<Seq<char>>)| g.1.len() >= 2;
    let found = groups.filter(two);
    groups.lemma_filter_pred(two, i);
    assert(found.contains(found[i]));
    groups.lemma_filter_contains_rev(two, found[i]);
    let j = choose|j: int| 0 <= j < groups.len() && groups[j] == found[i];
    let key = text::distinct(model::keys_of(texts))[j];
    assert(found[i] == (key, text::distinct(model::values_of(texts, key))));
    text::lemma_distinct(model::values_of(texts, key));
    lemma_value_listed(texts, key, v);
}

/// A text that is set stands in place of the first under its key, or behind all others,
/// which stay as they are.
pub proof fn law_set_text_replaces_or_follows(
    frames: Seq<(Seq<char>, Seq<char>)>,
    key: Seq<char>,
    value: Seq<char>,
    i: int,
)
    requires
        0 <= i <= frames.len(),
        forall|j: int| 0 <= j < i ==> (#[trigger] frames[j]).0 != key,
        i < frames.len() ==> frames[i].0 == key,
    ensures
        ({
            let r = edit::upserted(frames, key, value);
            &&& r[i] == (key, value)
            &&& r.len() == if i < frames.len() {
                frames.len()
            } else {
                frames.len() + 1
            }
            &&& forall|j: int| 0 <= j < frames.len() && j != i ==> #[trigger] r[j] == frames[j]
        }),
{
    let keys = model::keys_of(frames);
    assert forall|j: int| 0 <= j < i implies keys[j] != key by {
        assert(frames[j].0 != key);
    }
    text::lemma_first_at_is(keys, key, i);
}

/// Deleting a key leaves just the texts under other keys, as they stood.
pub proof fn law_deletion_leaves_the_rest(
    frames: Seq<(Seq<char>, Seq<char>)>,
    key: Seq<char>,
    f: (Seq<char>, Seq<char>),
)
    ensures
        edit::without_key(Seq::empty(), key).len() == 0,
        edit::without_key(frames.push(f), key) == if f.0 == key {
            edit::without_key(frames, key)
        } else {
            edit::without_key(frames, key).push(f)
        },
{
    reveal(Seq::filter);
    assert(frames.push(f).drop_last() =~= frames);
}

/// Of several decisions on a key the last counts; without one there is none.
pub proof fn law_last_decision_counts(
    decisions: Seq<(Seq<char>, Seq<char>)>,
    key: Seq<char>,
    i: int,
)
    ensures
        0 <= i < decisions.len() && decisions[i].0 == key && (forall|j: int|
            i < j < decisions.len() ==> (#[trigger] decisions[j]).0 != key) ==> edit::decided(
            decisions,
            key,
        ) == Some(decisions[i].1),
        (forall|j: int| 0 <= j < decisions.len() ==> (#[trigger] decisions[j]).0 != key)
            ==> edit::decided(decisions, key) is None,
    decreases decisions.len(),
{
    if decisions.len() > 0 {
        let front = decisions.drop_last();
        law_last_decision_counts(front, key, i);
        if decisions.last().0 != key {
            assert(decisions[decisions.len() - 1].0 != key);
            assert forall|j: int| 0 <= j < front.len() implies front[j] == decisions[j] by {}
        } else {
            assert(decisions[decisions.len() - 1].0 == key);
        }
    }
}

/// A merge keeps every key once and in place, with the value decided on, or else the
/// first in the file.
pub proof fn law_merge_keeps_keys(
    data: Seq<u8>,
    decisions: Seq<(Seq<char>, Seq<char>)>,
    i: int,
)
    requires
        0 <= i < edit::collapsed(data).len(),
    ensures
        edit::merged(data, decisions).len() == edit::collapsed(data).len(),
        edit::merged(data, decisions)[i].0 == edit::collapsed(data)[i].0,
        (forall|j: int|
            0 <= j < decisions.len() ==> (#[trigger] decisions[j]).0 != edit::collapsed(data)[i].0)
            ==> edit::merged(data, decisions)[i].1 == edit::collapsed(data)[i].1,
        forall|j: int|
            0 <= j < decisions.len() && (#[trigger] decisions[j]).0 == edit::collapsed(data)[i].0
                && (forall|k: int|
                j < k < decisions.len() ==> (#[trigger] decisions[k]).0 != decisions[j].0)
                ==> edit::merged(data, decisions)[i].1 == decisions[j].1,
{
    let key = edit::collapsed(data)[i].0;
    law_last_decision_counts(decisions, key, 0);
    assert forall|j: int|
        0 <= j < decisions.len() && (#[trigger] decisions[j]).0 == key && (forall|k: int|
            j < k < decisions.len() ==> (#[trigger] decisions[k]).0
                != decisions[j].0) implies edit::merged(data, decisions)[i].1 == decisions[j].1 by {
        law_last_decision_counts(decisions, key, j);
    }
}

/// The frames other than text that a file keeps are just those of its tags, each once.
pub proof fn law_other_frames_are_kept(data: Seq<u8>, version: u8, f: Seq<u8>)
    ensures
        model::file_preserved(data, version).no_duplicates(),
        model::file_preserved(data, version).contains(f) <==> exists|k: int|
            0 <= k < model::tag_offsets(data, 0).len() && model::tag_preserved(
                data,
                #[trigger] model::tag_offsets(data, 0)[k],
                version,
            ).contains(f),
{
    let offsets = model::tag_offsets(data, 0);
    let table = offsets.map_values(|o: int| model::tag_preserved(data, o, version));
    text::lemma_distinct(table.flatten());
    if table.flatten().contains(f) {
        text::lemma_flatten_contains(table, f);
        let k = choose|k: int| 0 <= k < table.len() && (#[trigger] table[k]).contains(f);
        assert(model::tag_preserved(data, offsets[k], version).contains(f));
    }
    if exists|k: int|
        0 <= k < offsets.len() && model::tag_preserved(
            data,
            #[trigger] offsets[k],
            version,
        ).contains(f) {
        let k = choose|k: int|
            0 <= k < offsets.len() && model::tag_preserved(
                data,
                #[trigger] offsets[k],
                version,
            ).contains(f);
        let j = choose|j: int| 0 <= j < table[k].len() && table[k][j] == f;
        lemma_in_files(table, k, j);
    }
}

pub(crate) proof fn lemma_in_files<A>(s: Seq<Seq<A>>, i: int, j: int)
    requires
        0 <= i < s.len(),
        0 <= j < s[i].len(),
    ensures
        s.flatten().contains(s[i][j]),
    decreases s.len(),
{
    let x = s[i][j];
    if i == 0 {
        assert(s.flatten()[j] == x);
    } else {
        lemma_in_files(s.drop_first(), i - 1, j);
        let rest = s.drop_first().flatten();
        let k = choose|k: int| 0 <= k < rest.len() && rest[k] == x;
        assert(s.flatten()[s.first().len() + k] == x);
    }
}

/// A frame that holds no text is kept, as it is where the sizes are written alike.
pub proof fn law_frame_without_text_is_kept(data: Seq<u8>, offset: int, version: u8, i: int)
    requires
        0 <= i < model::tag_frames(data, offset).len(),
        !model::is_text_key(model::frame_id(model::tag_frames(data, offset)[i])),
    ensures
        (data[offset + 3] >= 4) == (version >= 4) ==> model::tag_preserved(
            data,
            offset,
            version,
        ).contains(model::tag_frames(data, offset)[i]),
        data[offset + 3] < 4 && version >= 4 ==> model::tag_preserved(
            data,
            offset,
            version,
        ).contains(model::resized_frame(model::tag_frames(data, offset)[i], false, true)),
        data[offset + 3] >= 4 && version < 4 ==> model::tag_preserved(
            data,
            offset,
            version,
        ).contains(model::resized_frame(model::tag_frames(data, offset)[i], true, false)),
{
    let frames = model::tag_frames(data, offset);
    let keep = |f: Seq<u8>| !model::is_text_key(model::frame_id(f));
    frames.lemma_filter_contains(keep, i);
    let kept = model::opaque_frames(frames);
    let k = choose|k: int| 0 <= k < kept.len() && kept[k] == frames[i];
    let r = model::tag_preserved(data, offset, version);
    assert(r[k] == if model::tag_synchsafe(data, offset) == (version >= 4) {
        frames[i]
    } else {
        model::resized_frame(frames[i], model::tag_synchsafe(data, offset), version >= 4)
    });
    assert(r.contains(r[k]));
}

/// A rewritten file is the new tag, in the version of the old one, and the same audio; it
/// is told with its number of frames and with the hashes of what was there before.
pub proof fn law_rewrite_is_tag_and_audio(
    w: edit::Rewrite,
    data: Seq<u8>,
    frames: Seq<(Seq<char>, Seq<char>)>,
    raw: Seq<Seq<u8>>,
)
    requires
        edit::rewrites(w, data, frames, raw),
    ensures
        w.data@ == model::tag_bytes(frames, raw, data[3]) + data.skip(model::audio_from(data, 0)),
        w.frame_count == model::written_frames(frames, data[3]).len() + raw.len(),
        w.pre_audio_hash@ == digest::sha256_of(data.skip(model::audio_from(data, 0))),
        w.pre_full_hash@ == digest::sha256_of(data),
{
}

/// An edit is told with the hash of the audio before it and of the audio that was
/// written.
pub proof fn law_edit_is_told(
    t: edit::TagWriteResult,
    w: edit::Rewrite,
    backup_path: Seq<char>,
    written: Seq<u8>,
)
    requires
        edit::reports_edit(t, w, backup_path, written),
    ensures
        t.backup_path@ == backup_path,
        t.pre_audio_hash@ == w.pre_audio_hash@,
        t.pre_full_hash@ == w.pre_full_hash@,
        t.post_audio_hash@ == digest::sha256_of(written.skip(model::audio_from(written, 0))),
        t.frame_count == w.frame_count,
{
}

/// A conflict is told under its key, with the name of its frame and all its values.
pub proof fn law_conflict_is_told(
    c: edit::MergeConflict,
    id: Seq<char>,
    description: Seq<char>,
    values: Seq<Seq<char>>,
)
    requires
        !id.contains(':'),
        description.len() > 0,
        c.reports((id + seq![':'] + description, values)) || c.reports((id, values)),
    ensures
        c.frame_id@ == id + seq![':'] + description || c.frame_id@ == id,
        c.field_name@ == scanner::field_name(id),
        text::texts(c.values@) == values,
{
    law_keys_come_apart(id, description);
}

/// Frames under another name are kept when a key is deleted, and those under it are not.
pub proof fn law_deleted_frames_are_not_kept(data: Seq<u8>, key: Seq<char>, f: Seq<u8>)
    ensures
        edit::raw_without(data, key).contains(f) <==> edit::raw_frames(data).contains(f)
            && model::frame_id(f) != key,
{
    let all = edit::raw_frames(data);
    let keep = edit::named_otherwise(key);
    let kept = all.filter(keep);
    if kept.contains(f) {
        all.lemma_filter_contains_rev(keep, f);
        let k = choose|k: int| 0 <= k < kept.len() && kept[k] == f;
        all.lemma_filter_pred(keep, k);
    }
    if all.contains(f) && model::frame_id(f) != key {
        let k = choose|k: int| 0 <= k < all.len() && all[k] == f;
        all.lemma_filter_contains(keep, k);
    }
}

/// What is wrong with a written file: first that its audio is not what it was, and then
/// that it has no tag.
pub proof fn law_faults_of_written_files(written: Seq<u8>, hash: Seq<u8>)
    ensures
        digest::sha256_of(written.skip(model::audio_from(written, 0))) != hash
            ==> edit::common_fault(written, hash) == Some(edit::VerifyError::AudioChanged),
        digest::sha256_of(written.skip(model::audio_from(written, 0))) == hash
            && !model::tag_starts(written, 0) ==> edit::common_fault(written, hash) == Some(
            edit::VerifyError::Unreadable,
        ),
        digest::sha256_of(written.skip(model::audio_from(written, 0))) == hash && model::tag_starts(
            written,
            0,
        ) ==> edit::common_fault(written, hash) is None,
{
}

/// A backup is named by the time, or as unknown.
pub proof fn law_backup_times(t: Seq<char>, secs: u64)
    ensures
        edit::is_backup_time(t, None) <==> t == "unknown"@,
        edit::is_backup_time(t, Some(secs)) <==> calendar::is_timestamp(t, secs as int),
{
}

/// A written value counts as written only where it reads back.
pub proof fn law_edits_are_verified(
    w: &edit::Rewrite,
    backup: &str,
    written: &[u8],
    key: &str,
    value: &str,
    wrote: Result<edit::TagWriteResult, edit::VerifyError>,
    deleted: Result<edit::TagWriteResult, edit::VerifyError>,
)
    requires
        call_ensures(edit::verify_write, (w, backup, written, key, value), wrote),
        call_ensures(edit::verify_delete, (w, backup, written, key), deleted),
    ensures
        wrote is Ok ==> model::tag_texts(written@, 0).contains((key@, value@)),
        deleted is Ok ==> !model::keys_of(model::tag_texts(written@, 0)).contains(key@),
        wrote is Ok || deleted is Ok ==> digest::sha256_of(model::audio_of(written@))
            == w.pre_audio_hash@ && model::tag_starts(written@, 0),
        edit::common_fault(written@, w.pre_audio_hash@) is None && model::tag_texts(
            written@,
            0,
        ).contains((key@, value@)) ==> wrote is Ok,
{
}

} // verus!

//! What reading gives back of what was written.
use vstd::prelude::*;
use vstd::utf8::*;
use crate::digest;
use crate::text;
use super::edit;
use super::model;

verus! {

// ── Size fields ──────────────────────────────────────────────────────────────

/// A size below 2^28 survives a synchsafe size field, and no byte of the field
/// has its top bit set.
pub proof fn law_synchsafe_round_trip(n: u32)
    requires
        n < 0x1000_0000,
    ensures
        model::synchsafe_value(model::synchsafe_bytes(n)) == n,
        forall|i: int| 0 <= i < 4 ==> #[trigger] model::synchsafe_bytes(n)[i] < 0x80,
{
    assert(((((n >> 21) & 0x7F) as u8) as u32) << 21 | ((((n >> 14) & 0x7F) as u8) as u32) << 14
        | ((((n >> 7) & 0x7F) as u8) as u32) << 7 | (((n & 0x7F) as u8) as u32) == n)
        by (bit_vector)
        requires
            n < 0x1000_0000,
    ;
    assert((((n >> 21) & 0x7F) as u8) <= 0x7F && (((n >> 14) & 0x7F) as u8) <= 0x7F && (((n >> 7)
        & 0x7F) as u8) <= 0x7F && ((n & 0x7F) as u8) <= 0x7F) by (bit_vector);
}

/// Every size survives a big-endian size field.
pub proof fn law_big_endian_round_trip(n: u32)
    ensures
        model::big_endian_value(model::big_endian_bytes(n)) == n,
{
    assert(((((n >> 24) & 0xFF) as u8) as u32) << 24 | ((((n >> 16) & 0xFF) as u8) as u32) << 16
        | ((((n >> 8) & 0xFF) as u8) as u32) << 8 | (((n & 0xFF) as u8) as u32) == n)
        by (bit_vector);
}

proof fn lemma_size_round_trip(n: int, synchsafe: bool)
    requires
        model::size_fits(n, synchsafe),
    ensures
        model::size_value(model::size_bytes(n as u32, synchsafe), synchsafe) == n,
{
    if synchsafe {
        law_synchsafe_round_trip(n as u32);
    } else {
        law_big_endian_round_trip(n as u32);
    }
}

// ── Frames ───────────────────────────────────────────────────────────────────

/// Whether `f` is exactly one complete frame.
pub open spec fn one_frame(f: Seq<u8>, synchsafe: bool) -> bool {
    model::frame_starts(f, synchsafe) && model::frame_len(f, synchsafe) == f.len()
}

proof fn lemma_one_frame_prefix(f: Seq<u8>, rest: Seq<u8>, synchsafe: bool)
    requires
        one_frame(f, synchsafe),
    ensures
        model::frame_starts(f + rest, synchsafe),
        model::frame_len(f + rest, synchsafe) == f.len(),
        (f + rest).take(f.len() as int) == f,
        (f + rest).skip(f.len() as int) == rest,
{
    assert((f + rest).subrange(4, 8) =~= f.subrange(4, 8));
    assert((f + rest).take(f.len() as int) =~= f);
    assert((f + rest).skip(f.len() as int) =~= rest);
}

/// Complete frames followed by padding read back as those frames.
pub proof fn law_frames_read_back(frames: Seq<Seq<u8>>, padding: Seq<u8>, synchsafe: bool)
    requires
        forall|i: int| 0 <= i < frames.len() ==> one_frame(#[trigger] frames[i], synchsafe),
        forall|i: int| 0 <= i < padding.len() ==> padding[i] == 0,
    ensures
        model::raw_frames(frames.flatten() + padding, synchsafe) == frames,
    decreases frames.len(),
{
    if frames.len() == 0 {
        assert(frames.flatten() + padding =~= padding);
        assert(model::raw_frames(padding, synchsafe) =~= frames);
    } else {
        let f = frames[0];
        let later = frames.drop_first();
        let rest = later.flatten() + padding;
        assert(one_frame(frames[0], synchsafe));
        assert forall|i: int| 0 <= i < later.len() implies one_frame(
            #[trigger] later[i],
            synchsafe,
        ) by {
            assert(one_frame(frames[i + 1], synchsafe));
        }
        law_frames_read_back(later, padding, synchsafe);
        assert(frames.flatten() + padding =~= f + rest);
        lemma_one_frame_prefix(f, rest, synchsafe);
        assert(seq![f] + later =~= frames);
    }
}

/// The frames that are read are complete.
proof fn lemma_raw_frames_complete(area: Seq<u8>, synchsafe: bool)
    ensures
        forall|i: int|
            0 <= i < model::raw_frames(area, synchsafe).len() ==> one_frame(
                #[trigger] model::raw_frames(area, synchsafe)[i],
                synchsafe,
            ),
    decreases area.len(),
{
    if model::frame_starts(area, synchsafe) {
        let n = model::frame_len(area, synchsafe);
        let f = area.take(n);
        let later = model::raw_frames(area.skip(n), synchsafe);
        lemma_raw_frames_complete(area.skip(n), synchsafe);
        assert(f.subrange(4, 8) =~= area.subrange(4, 8));
        assert(one_frame(f, synchsafe));
        assert forall|i: int| 0 <= i < model::raw_frames(area, synchsafe).len() implies one_frame(
            #[trigger] model::raw_frames(area, synchsafe)[i],
            synchsafe,
        ) by {
            if i > 0 {
                assert(model::raw_frames(area, synchsafe)[i] == later[i - 1]);
            }
        }
    }
}

proof fn lemma_frame_bytes(id: Seq<u8>, payload: Seq<u8>, synchsafe: bool)
    requires
        id.len() == 4,
        forall|i: int| 0 <= i < 4 ==> model::id_byte(#[trigger] id[i]),
        model::size_fits(payload.len() as int, synchsafe),
    ensures
        one_frame(model::frame_bytes(id, payload, synchsafe), synchsafe),
        model::frame_bytes(id, payload, synchsafe).len() == 10 + payload.len(),
        model::frame_bytes(id, payload, synchsafe).take(4) == id,
        model::frame_bytes(id, payload, synchsafe).skip(10) == payload,
{
    let f = model::frame_bytes(id, payload, synchsafe);
    lemma_size_round_trip(payload.len() as int, synchsafe);
    assert(f.subrange(4, 8) =~= model::size_bytes(payload.len() as u32, synchsafe));
    assert(f.take(4) =~= id);
    assert(f.skip(10) =~= payload);
    assert(model::id_byte(id[0]) && model::id_byte(id[1]) && model::id_byte(id[2])
        && model::id_byte(id[3]));
}

proof fn lemma_resized_frame(frame: Seq<u8>, from: bool, to: bool)
    requires
        one_frame(frame, from),
        model::size_fits(frame.len() - 10, to),
    ensures
        one_frame(model::resized_frame(frame, from, to), to),
        model::frame_id(model::resized_frame(frame, from, to)) == model::frame_id(frame),
{
    let out = model::resized_frame(frame, from, to);
    lemma_size_round_trip(frame.len() - 10, to);
    assert(model::size_bytes(model::size_value(frame.subrange(4, 8), from), to).len() == 4);
    assert(out.subrange(4, 8) =~= model::size_bytes(
        model::size_value(frame.subrange(4, 8), from),
        to,
    ));
    assert(model::frame_id(out) =~= model::frame_id(frame));
}

// ── Text ─────────────────────────────────────────────────────────────────────

/// Whether a key reads back as it was written: it names a text frame by four
/// identifier characters, only described frames carry a description, and the
/// description is neither empty nor holds a NUL.
pub open spec fn stable_key(key: Seq<char>) -> bool {
    let base = model::key_base(key);
    let description = model::key_description(key);
    &&& readable_base(base)
    &&& model::is_text_key(key)
    &&& if base == "TXXX"@ || base == "COMM"@ {
        &&& key == model::described_key(base, description)
        &&& !description.contains('\0')
    } else {
        key == base
    }
}

/// Whether the identifier of a key can be found again in a tag.
pub open spec fn readable_base(base: Seq<char>) -> bool {
    forall|i: int|
        0 <= i < base.len() ==> 0 <= (#[trigger] base[i]) as int <= 127 && model::id_byte(
            base[i] as u8,
        )
}

/// Whether a value reads back as it was written: it does not end in a NUL.
pub open spec fn stable_value(value: Seq<char>) -> bool {
    value.len() == 0 || value.last() != '\0'
}

proof fn lemma_char_without_zero_byte(c: char)
    requires
        c != '\0',
    ensures
        !encode_scalar(c as u32).contains(0u8),
{
    let s = c as u32;
    char_is_scalar(c);
    assert(s != 0);
    if has_width_1_encoding(s) {
        assert((s & 0x7F) as u8 != 0) by (bit_vector)
            requires
                0 < s <= 0x7F,
        ;
    } else {
        assert((0xC0u8 | ((s >> 6) & 0x1F) as u8) != 0 && (0xE0u8 | ((s >> 12) & 0x0F) as u8) != 0
            && (0xF0u8 | ((s >> 18) & 0x7) as u8) != 0 && (0x80u8 | (s & 0x3F) as u8) != 0 && (
        0x80u8 | ((s >> 6) & 0x3F) as u8) != 0 && (0x80u8 | ((s >> 12) & 0x3F) as u8) != 0)
            by (bit_vector);
    }
    let e = encode_scalar(s);
    assert forall|i: int| 0 <= i < e.len() implies e[i] != 0 by {}
}

proof fn lemma_text_without_zero_byte(chars: Seq<char>)
    requires
        !chars.contains('\0'),
    ensures
        !encode_utf8(chars).contains(0u8),
    decreases chars.len(),
{
    if chars.len() > 0 {
        let rest = chars.drop_first();
        assert(chars.contains(chars[0]));
        lemma_char_without_zero_byte(chars[0]);
        assert(!rest.contains('\0')) by {
            if rest.contains('\0') {
                let i = choose|i: int| 0 <= i < rest.len() && rest[i] == '\0';
                assert(chars[i + 1] == '\0');
            }
        }
        lemma_text_without_zero_byte(rest);
        let a = encode_scalar(chars[0] as u32);
        let b = encode_utf8(rest);
        assert forall|i: int| 0 <= i < (a + b).len() implies (a + b)[i] != 0 by {
            if i < a.len() {
                assert(a.contains(a[i]));
            } else {
                assert(b.contains(b[i - a.len()]));
            }
        }
    }
}

/// A NUL is encoded by a zero byte.
proof fn lemma_text_with_nul(chars: Seq<char>)
    requires
        chars.contains('\0'),
    ensures
        encode_utf8(chars).contains(0u8),
    decreases chars.len(),
{
    let rest = chars.drop_first();
    let a = encode_scalar(chars[0] as u32);
    let b = encode_utf8(rest);
    if chars[0] == '\0' {
        assert((0u32 & 0x7F) as u8 == 0) by (bit_vector);
        assert(a[0] == 0);
        assert((a + b)[0] == 0);
    } else {
        let i = choose|i: int| 0 <= i < chars.len() && chars[i] == '\0';
        assert(rest[i - 1] == '\0');
        lemma_text_with_nul(rest);
        let k = choose|k: int| 0 <= k < b.len() && b[k] == 0;
        assert((a + b)[a.len() + k] == 0);
    }
}

proof fn lemma_utf8_without_nul(bytes: Seq<u8>)
    requires
        !bytes.contains(0u8),
    ensures
        !model::utf8_text(bytes).contains('\0'),
{
    if valid_utf8(bytes) {
        decode_utf8_encode_utf8(bytes);
        if decode_utf8(bytes).contains('\0') {
            lemma_text_with_nul(decode_utf8(bytes));
        }
    } else {
        let keep = |c: char| c != '\0';
        let s = model::utf8_lossy(bytes);
        if s.filter(keep).contains('\0') {
            s.lemma_filter_contains_rev(keep, '\0');
            let i = choose|i: int| 0 <= i < s.filter(keep).len() && s.filter(keep)[i] == '\0';
            s.lemma_filter_pred(keep, i);
        }
    }
}

proof fn lemma_utf16_without_nul(units: Seq<u16>)
    requires
        forall|i: int| 0 <= i < units.len() ==> units[i] != 0,
    ensures
        !model::utf16_lossy(units).contains('\0'),
    decreases units.len(),
{
    if units.len() > 0 {
        let (c, n) = if units[0] < 0xD800 || units[0] > 0xDFFF {
            (units[0] as char, 1int)
        } else if units[0] <= 0xDBFF && units.len() > 1 && 0xDC00 <= units[1] <= 0xDFFF {
            (model::surrogate_pair(units[0], units[1]), 2int)
        } else {
            ('\u{FFFD}', 1int)
        };
        let later = model::utf16_lossy(units.skip(n));
        lemma_utf16_without_nul(units.skip(n));
        assert(c != '\0');
        assert(model::utf16_lossy(units) == seq![c] + later);
        assert forall|i: int| 0 <= i < (seq![c] + later).len() implies (seq![c] + later)[i]
            != '\0' by {
            if i > 0 {
                assert(later.contains(later[i - 1]));
            }
        }
    }
}

proof fn lemma_trimmed_without_nul(s: Seq<char>)
    requires
        !s.contains('\0'),
    ensures
        model::trim_nuls(s) == s,
{
    if s.len() > 0 {
        assert(s.contains(s.last()));
    }
}

/// The description of a described payload holds no NUL.
proof fn lemma_description_without_nul(bytes: Seq<u8>, encoding: u8)
    ensures
        !model::decoded_text(
            model::description_split(bytes, encoding).0,
            encoding,
        ).contains('\0'),
{
    let d = model::description_split(bytes, encoding).0;
    if encoding == 1 || encoding == 2 {
        let units = if encoding == 1 {
            model::units16(d.skip(2), d[0] == 0xFF && d[1] == 0xFE)
        } else {
            model::units16(d, false)
        };
        text::lemma_first_at(units, 0u16);
        lemma_utf16_without_nul(model::units_to_nul(units));
    } else {
        text::lemma_first_at(bytes, 0u8);
        assert(!d.contains(0u8));
        if encoding == 0 {
            let s = model::latin1(d);
            assert forall|i: int| 0 <= i < s.len() implies s[i] != '\0' by {
                assert(d.contains(d[i]));
            }
            lemma_trimmed_without_nul(s);
        } else {
            lemma_utf8_without_nul(d);
            lemma_trimmed_without_nul(model::utf8_text(d));
        }
    }
}

proof fn lemma_decoded_utf8(chars: Seq<char>)
    requires
        stable_value(chars),
    ensures
        model::decoded_text(encode_utf8(chars), 3) == chars,
{
    encode_utf8_valid_utf8(chars);
    encode_utf8_decode_utf8(chars);
}

proof fn lemma_described_reads_back(id: Seq<char>, description: Seq<char>, value: Seq<char>)
    requires
        !description.contains('\0'),
    ensures
        model::described_text(
            id,
            encode_utf8(description) + seq![0u8] + encode_utf8(value),
            3,
        ).0 == model::described_key(id, description),
        stable_value(value) ==> model::described_text(
            id,
            encode_utf8(description) + seq![0u8] + encode_utf8(value),
            3,
        ).1 == value,
{
    let d = encode_utf8(description);
    let v = encode_utf8(value);
    let bytes = d + seq![0u8] + v;
    lemma_text_without_zero_byte(description);
    assert forall|i: int| 0 <= i < d.len() implies bytes[i] != 0 by {
        assert(d.contains(d[i]));
    }
    text::lemma_first_at_is(bytes, 0u8, d.len() as int);
    assert(bytes.take(d.len() as int) =~= d);
    assert(bytes.skip(d.len() + 1int) =~= v);
    if description.len() > 0 {
        assert(description.contains(description.last()));
    }
    lemma_decoded_utf8(description);
    if stable_value(value) {
        lemma_decoded_utf8(value);
    }
}

proof fn lemma_literals()
    ensures
        "TXXX"@ == seq!['T', 'X', 'X', 'X'],
        "COMM"@ == seq!['C', 'O', 'M', 'M'],
        "TXXX"@ != "COMM"@,
{
    reveal_strlit("TXXX");
    reveal_strlit("COMM");
    assert("TXXX"@ =~= seq!['T', 'X', 'X', 'X']);
    assert("COMM"@ =~= seq!['C', 'O', 'M', 'M']);
    assert("TXXX"@[0] != "COMM"@[0]);
}

/// The payload written for a stable key reads back under that key, and with its
/// value when the value is stable.
proof fn lemma_payload_reads_back(key: Seq<char>, value: Seq<char>)
    requires
        stable_key(key),
    ensures
        ({
            let r = model::text_of_payload(
                model::key_base(key),
                model::payload_of(key, value),
            );
            &&& r is Some
            &&& r.unwrap().0 == key
            &&& stable_value(value) ==> r.unwrap().1 == value
        }),
{
    lemma_literals();
    let base = model::key_base(key);
    let description = model::key_description(key);
    let payload = model::payload_of(key, value);
    let described = encode_utf8(description) + seq![0u8] + encode_utf8(value);
    if base == "TXXX"@ {
        assert(payload.skip(1) =~= described);
        lemma_described_reads_back(base, description, value);
    } else if base == "COMM"@ {
        assert(payload.skip(4) =~= described);
        lemma_described_reads_back(base, description, value);
    } else {
        assert(payload.skip(1) =~= encode_utf8(value));
        if stable_value(value) {
            lemma_decoded_utf8(value);
        }
    }
}

/// A key's base is its own base and, for a readable base, its bytes are its
/// characters.
proof fn lemma_readable_base(key: Seq<char>)
    requires
        readable_base(model::key_base(key)),
        model::is_text_key(key),
    ensures
        ({
            let base = model::key_base(key);
            let bytes = encode_utf8(base);
            &&& base.len() == 4
            &&& bytes.len() == 4
            &&& forall|i: int|
                0 <= i < 4 ==> model::id_byte(#[trigger] bytes[i]) && bytes[i] == base[i] as u8
            &&& model::key_base(base) == base
            &&& model::is_text_key(base)
        }),
{
    let base = model::key_base(key);
    lemma_literals();
    assert(is_ascii_chars(base));
    is_ascii_chars_encode_utf8(base);
    assert forall|i: int| 0 <= i < base.len() implies base[i] != ':' by {
        assert(model::id_byte(base[i] as u8));
    }
    text::lemma_first_at_is(base, ':', base.len() as int);
    assert(model::key_base(base) =~= base);
    assert forall|i: int| 0 <= i < 4 implies model::id_byte(#[trigger] encode_utf8(base)[i])
        && encode_utf8(base)[i] == base[i] as u8 by {
        assert(base[i] as u8 == encode_utf8(base)[i]);
        assert(model::id_byte(base[i] as u8));
    }
}

/// The frame written under a readable key is one complete text frame that reads
/// back as its payload does.
proof fn lemma_written_frame(f: (Seq<char>, Seq<char>), version: u8)
    requires
        readable_base(model::key_base(f.0)),
        model::is_text_key(f.0),
        model::size_fits(model::payload_of(f.0, f.1).len() as int, version >= 4),
    ensures
        model::written_frame(f, version) is Some,
        ({
            let w = model::written_frame(f, version)->0;
            &&& one_frame(w, version >= 4)
            &&& w.len() == 10 + model::payload_of(f.0, f.1).len()
            &&& model::is_text_key(model::frame_id(w))
            &&& model::text_of_frame(w) == model::text_of_payload(
                model::key_base(f.0),
                model::payload_of(f.0, f.1),
            )
        }),
{
    let base = model::key_base(f.0);
    let payload = model::payload_of(f.0, f.1);
    lemma_readable_base(f.0);
    lemma_frame_bytes(encode_utf8(base), payload, version >= 4);
    let w = model::written_frame(f, version)->0;
    assert(model::frame_id(w) =~= base) by {
        assert forall|i: int| 0 <= i < 4 implies model::frame_id(w)[i] == base[i] by {
            assert(w.take(4)[i] == encode_utf8(base)[i]);
            assert(encode_utf8(base)[i] == base[i] as u8);
            assert(0 <= base[i] as int <= 127);
        }
    }
}

// ── Tags ─────────────────────────────────────────────────────────────────────

/// Whether a tag's size fits its size field.
pub open spec fn tag_fits(
    frames: Seq<(Seq<char>, Seq<char>)>,
    preserved: Seq<Seq<u8>>,
    version: u8,
) -> bool {
    2 <= version <= 4 && model::tag_body(frames, preserved, version).len() < 0x1000_0000
}

/// Whether every frame can be found again after it is written.
pub open spec fn readable_frames(frames: Seq<(Seq<char>, Seq<char>)>) -> bool {
    forall|i: int|
        0 <= i < frames.len() ==> model::is_text_key((#[trigger] frames[i]).0) && readable_base(
            model::key_base(frames[i].0),
        )
}

/// Whether every frame reads back as it was written.
pub open spec fn stable_frames(frames: Seq<(Seq<char>, Seq<char>)>) -> bool {
    forall|i: int|
        0 <= i < frames.len() ==> stable_key((#[trigger] frames[i]).0) && stable_value(frames[i].1)
}

/// Whether every preserved frame is one complete frame that is not read as text.
pub open spec fn opaque_rows(preserved: Seq<Seq<u8>>, synchsafe: bool) -> bool {
    forall|i: int|
        0 <= i < preserved.len() ==> one_frame(#[trigger] preserved[i], synchsafe)
            && !model::is_text_key(model::frame_id(preserved[i]))
}

proof fn lemma_header(
    frames: Seq<(Seq<char>, Seq<char>)>,
    preserved: Seq<Seq<u8>>,
    version: u8,
    audio: Seq<u8>,
)
    requires
        tag_fits(frames, preserved, version),
    ensures
        ({
            let tag = model::tag_bytes(frames, preserved, version);
            let file = tag + audio;
            &&& model::tag_starts(file, 0)
            &&& model::tag_version(file, 0) == version
            &&& model::tag_next(file, 0) == tag.len()
            &&& model::frame_area(file, 0) == model::tag_body(frames, preserved, version)
        }),
{
    let body = model::tag_body(frames, preserved, version);
    let tag = model::tag_bytes(frames, preserved, version);
    let file = tag + audio;
    law_synchsafe_round_trip(body.len() as u32);
    assert(file.subrange(6, 10) =~= model::synchsafe_bytes(body.len() as u32));
    assert(0u8 & 0x10 == 0 && 0u8 & 0x40 == 0) by (bit_vector);
    assert(model::tag_flags(file, 0) == 0);
    assert(model::tag_body_end(file, 0) == tag.len());
    assert(model::frame_area(file, 0) =~= body);
}

proof fn lemma_audio_offset_is_past_tags(data: Seq<u8>, offset: int)
    requires
        0 <= offset <= data.len(),
    ensures
        !model::tag_starts(data, model::audio_from(data, offset)),
        offset <= model::audio_from(data, offset) <= data.len(),
    decreases data.len() - offset,
{
    if model::tag_starts(data, offset) {
        lemma_audio_offset_is_past_tags(data, model::tag_next(data, offset));
    }
}

/// Replacing the tags of a file leaves exactly one tag and the same audio.
pub proof fn law_rebuild_keeps_audio(
    data: Seq<u8>,
    frames: Seq<(Seq<char>, Seq<char>)>,
    version: u8,
    preserved: Seq<Seq<u8>>,
)
    requires
        tag_fits(frames, preserved, version),
    ensures
        model::tag_offsets(edit::rebuilt(data, frames, version, preserved), 0) == seq![0int],
        model::audio_of(edit::rebuilt(data, frames, version, preserved)) == model::audio_of(data),
{
    let audio = model::audio_of(data);
    let tag = model::tag_bytes(frames, preserved, version);
    let file = tag + audio;
    let n = tag.len() as int;
    lemma_header(frames, preserved, version, audio);
    lemma_audio_offset_is_past_tags(data, 0);
    let start = model::audio_offset(data);
    assert(!model::tag_starts(file, n)) by {
        if n + 10 <= file.len() {
            assert(file[n] == data[start]);
            assert(file[n + 1] == data[start + 1]);
            assert(file[n + 2] == data[start + 2]);
            assert(file[n + 3] == data[start + 3]);
        }
    }
    assert(model::tag_offsets(file, n) =~= Seq::empty());
    assert(model::tag_offsets(file, 0) =~= seq![0int]);
    assert(model::audio_from(file, n) == n);
    assert(model::audio_offset(file) == n);
    assert(file.skip(n) =~= audio);
}

proof fn lemma_written_frames(frames: Seq<(Seq<char>, Seq<char>)>, version: u8)
    requires
        forall|i: int| 0 <= i < frames.len() ==> model::is_text_key((#[trigger] frames[i]).0),
    ensures
        model::written_frames(frames, version).len() == frames.len(),
        forall|i: int|
            0 <= i < frames.len() ==> #[trigger] model::written_frames(frames, version)[i]
                == model::written_frame(frames[i], version)->0,
    decreases frames.len(),
{
    if frames.len() > 0 {
        let front = frames.drop_last();
        assert forall|i: int| 0 <= i < front.len() implies model::is_text_key(
            (#[trigger] front[i]).0,
        ) by {
            assert(front[i] == frames[i]);
        }
        lemma_written_frames(front, version);
        assert(model::is_text_key(frames[frames.len() - 1].0));
        let all = model::written_frames(frames, version);
        assert(all == model::written_frames(front, version) + seq![
            model::written_frame(frames.last(), version)->0,
        ]);
        assert forall|i: int| 0 <= i < frames.len() implies #[trigger] all[i]
            == model::written_frame(frames[i], version)->0 by {
            if i < front.len() {
                assert(all[i] == model::written_frames(front, version)[i]);
                assert(front[i] == frames[i]);
            }
        }
    }
}

/// A written tag reads back as the frames that were written, in order, followed
/// by the preserved frames.
pub proof fn law_tag_reads_back(
    frames: Seq<(Seq<char>, Seq<char>)>,
    preserved: Seq<Seq<u8>>,
    version: u8,
    audio: Seq<u8>,
)
    requires
        tag_fits(frames, preserved, version),
        readable_frames(frames),
        opaque_rows(preserved, version >= 4),
    ensures
        model::tag_frames(model::tag_bytes(frames, preserved, version) + audio, 0)
            == model::written_frames(frames, version) + preserved,
{
    let synchsafe = version >= 4;
    let written = model::written_frames(frames, version);
    let body = model::tag_body(frames, preserved, version);
    let padding = Seq::new(model::padding_len(), |i: int| 0u8);
    let all = written + preserved;
    lemma_header(frames, preserved, version, audio);
    lemma_written_frames(frames, version);
    assert forall|i: int| 0 <= i < all.len() implies one_frame(#[trigger] all[i], synchsafe) by {
        if i < written.len() {
            let f = frames[i];
            written.lemma_flatten_length_ge_single_element_length(i);
            written.lemma_flatten_and_flatten_alt_are_equivalent();
            assert(model::is_text_key(f.0));
            assert(written[i] == model::written_frame(f, version)->0);
            assert(model::payload_of(f.0, f.1).len() <= written[i].len());
            lemma_written_frame(f, version);
        } else {
            assert(all[i] == preserved[i - written.len()]);
        }
    }
    vstd::seq_lib::lemma_flatten_concat(written, preserved);
    assert(body =~= all.flatten() + padding);
    law_frames_read_back(all, padding, synchsafe);
}

proof fn lemma_texts_concat(a: Seq<Seq<u8>>, b: Seq<Seq<u8>>)
    ensures
        model::texts_of_frames(a + b) == model::texts_of_frames(a) + model::texts_of_frames(b),
    decreases b.len(),
{
    if b.len() == 0 {
        assert(a + b =~= a);
        assert(model::texts_of_frames(a) + model::texts_of_frames(b) =~= model::texts_of_frames(a));
    } else {
        let front = b.drop_last();
        lemma_texts_concat(a, front);
        assert((a + b).drop_last() =~= a + front);
        assert((a + b).last() == b.last());
        assert(model::texts_of_frames(a + b) =~= model::texts_of_frames(a)
            + model::texts_of_frames(b));
    }
}

proof fn lemma_opaque_rows_have_no_text(rows: Seq<Seq<u8>>, synchsafe: bool)
    requires
        opaque_rows(rows, synchsafe),
    ensures
        model::texts_of_frames(rows).len() == 0,
        model::opaque_frames(rows) == rows,
    decreases rows.len(),
{
    let keep = |f: Seq<u8>| !model::is_text_key(model::frame_id(f));
    if rows.len() > 0 {
        let front = rows.drop_last();
        assert forall|i: int| 0 <= i < front.len() implies one_frame(
            #[trigger] front[i],
            synchsafe,
        ) && !model::is_text_key(model::frame_id(front[i])) by {
            assert(front[i] == rows[i]);
        }
        lemma_opaque_rows_have_no_text(front, synchsafe);
        assert(rows[rows.len() - 1] == rows.last());
        assert(rows =~= front.push(rows.last()));
        front.lemma_filter_push(rows.last(), keep);
    } else {
        assert(model::opaque_frames(rows) =~= rows) by {
            rows.lemma_filter_len(keep);
        }
    }
}

proof fn lemma_written_frames_are_text(frames: Seq<(Seq<char>, Seq<char>)>, version: u8, n: int)
    requires
        readable_frames(frames),
        0 <= n <= frames.len(),
        model::written_frames(frames, version).flatten().len() < 0x1000_0000,
    ensures
        model::opaque_frames(model::written_frames(frames, version).take(n)).len() == 0,
        model::texts_of_frames(model::written_frames(frames, version).take(n)) == Seq::new(
            n as nat,
            |i: int| (reread(frames[i])),
        ),
    decreases n,
{
    let written = model::written_frames(frames, version);
    let keep = |f: Seq<u8>| !model::is_text_key(model::frame_id(f));
    let read = |f: Seq<u8>| model::text_of_frame(f);
    lemma_written_frames(frames, version);
    if n == 0 {
        assert(written.take(0) =~= Seq::empty());
        written.take(0).lemma_filter_len(keep);
        assert(model::texts_of_frames(written.take(0)) =~= Seq::new(
            0,
            |i: int| (reread(frames[i])),
        ));
    } else {
        let f = frames[n - 1];
        let w = written[n - 1];
        lemma_written_frames_are_text(frames, version, n - 1);
        written.lemma_flatten_length_ge_single_element_length(n - 1);
        written.lemma_flatten_and_flatten_alt_are_equivalent();
        assert(model::is_text_key(f.0));
        assert(model::payload_of(f.0, f.1).len() <= w.len());
        lemma_written_frame(f, version);
        assert(written.take(n) =~= written.take(n - 1).push(w));
        written.take(n - 1).lemma_filter_push(w, keep);
        written.lemma_filter_map_take_succ(read, n - 1);
        lemma_payload_is_readable(f.0, f.1);
        assert(model::texts_of_frames(written.take(n)) =~= Seq::new(
            n as nat,
            |i: int| (reread(frames[i])),
        ));
    }
}

/// What reading gives back of a written frame.
pub open spec fn reread(f: (Seq<char>, Seq<char>)) -> (Seq<char>, Seq<char>) {
    model::text_of_payload(model::key_base(f.0), model::payload_of(f.0, f.1))->0
}

proof fn lemma_payload_is_readable(key: Seq<char>, value: Seq<char>)
    ensures
        model::text_of_payload(model::key_base(key), model::payload_of(key, value)) is Some,
{
    lemma_literals();
}

/// The text frames of a written tag, as they read back, are the written ones
/// reread one by one, and its other frames are the preserved ones.
pub proof fn law_texts_read_back(
    frames: Seq<(Seq<char>, Seq<char>)>,
    preserved: Seq<Seq<u8>>,
    version: u8,
    audio: Seq<u8>,
)
    requires
        tag_fits(frames, preserved, version),
        readable_frames(frames),
        opaque_rows(preserved, version >= 4),
    ensures
        ({
            let file = model::tag_bytes(frames, preserved, version) + audio;
            &&& model::tag_texts(file, 0) == Seq::new(frames.len(), |i: int| reread(frames[i]))
            &&& model::opaque_frames(model::tag_frames(file, 0)) == preserved
        }),
{
    let written = model::written_frames(frames, version);
    let keep = |f: Seq<u8>| !model::is_text_key(model::frame_id(f));
    law_tag_reads_back(frames, preserved, version, audio);
    assert(forall|i: int|
        0 <= i < frames.len() ==> model::is_text_key((#[trigger] frames[i]).0));
    lemma_written_frames(frames, version);
    assert(written.flatten().len() <= model::tag_body(frames, preserved, version).len());
    lemma_written_frames_are_text(frames, version, frames.len() as int);
    assert(written.take(frames.len() as int) =~= written);
    lemma_texts_concat(written, preserved);
    lemma_opaque_rows_have_no_text(preserved, version >= 4);
    Seq::filter_distributes_over_add(written, preserved, keep);
    let file = model::tag_bytes(frames, preserved, version) + audio;
    assert(model::tag_texts(file, 0) =~= Seq::new(frames.len(), |i: int| reread(frames[i])));
    assert(model::opaque_frames(model::tag_frames(file, 0)) =~= preserved);
}

/// Text frames that are written read back with the same keys and values, in the
/// same order, whatever frames are preserved beside them.
pub proof fn law_text_round_trip(
    frames: Seq<(Seq<char>, Seq<char>)>,
    preserved: Seq<Seq<u8>>,
    version: u8,
    audio: Seq<u8>,
)
    requires
        tag_fits(frames, preserved, version),
        stable_frames(frames),
        opaque_rows(preserved, version >= 4),
    ensures
        model::tag_texts(model::tag_bytes(frames, preserved, version) + audio, 0) == frames,
{
    assert(readable_frames(frames)) by {
        assert forall|i: int| 0 <= i < frames.len() implies model::is_text_key(
            (#[trigger] frames[i]).0,
        ) && readable_base(model::key_base(frames[i].0)) by {
            assert(stable_key(frames[i].0));
        }
    }
    law_texts_read_back(frames, preserved, version, audio);
    assert forall|i: int| 0 <= i < frames.len() implies reread(frames[i]) == #[trigger] frames[i] by {
        assert(stable_key(frames[i].0));
        lemma_payload_reads_back(frames[i].0, frames[i].1);
    }
    assert(Seq::new(frames.len(), |i: int| reread(frames[i])) =~= frames);
}

// ── Edits ────────────────────────────────────────────────────────────────────

/// Whether rewriting a file to hold `frames` and the raw frames `raw` gives a tag
/// whose size fits.
pub open spec fn rewrite_fits(
    data: Seq<u8>,
    frames: Seq<(Seq<char>, Seq<char>)>,
    raw: Seq<Seq<u8>>,
) -> bool {
    tag_fits(frames, raw, model::tag_version(data, 0))
}

/// A raw frame taken over from a file is a complete frame in the target version's
/// encoding, and is not read as text.
proof fn lemma_raw_frame(data: Seq<u8>, version: u8, x: Seq<u8>)
    requires
        model::file_preserved(data, version).contains(x),
        x.len() < 0x1000_0000,
    ensures
        one_frame(x, version >= 4),
        !model::is_text_key(model::frame_id(x)),
{
    let offsets = model::tag_offsets(data, 0);
    let rows = offsets.map_values(|o: int| model::tag_preserved(data, o, version));
    let keep = |f: Seq<u8>| !model::is_text_key(model::frame_id(f));
    text::lemma_distinct(rows.flatten());
    text::lemma_flatten_contains(rows, x);
    let t = choose|t: int| 0 <= t < rows.len() && (#[trigger] rows[t]).contains(x);
    let o = offsets[t];
    let synchsafe = model::tag_synchsafe(data, o);
    let frames = model::tag_frames(data, o);
    let row = model::opaque_frames(frames);
    let k = choose|k: int| 0 <= k < rows[t].len() && rows[t][k] == x;
    let f = row[k];
    assert(row.contains(f));
    frames.lemma_filter_contains_rev(keep, f);
    frames.lemma_filter_pred(keep, k);
    lemma_raw_frames_complete(model::frame_area(data, o), synchsafe);
    let j = choose|j: int| 0 <= j < frames.len() && frames[j] == f;
    assert(one_frame(frames[j], synchsafe));
    if synchsafe != (version >= 4) {
        assert(model::size_bytes(model::size_value(f.subrange(4, 8), synchsafe), version >= 4)
            .len() == 4);
        assert(x.len() == f.len());
        lemma_resized_frame(f, synchsafe, version >= 4);
    }
}

/// Whether every row is a raw frame that an edit of the file can keep.
pub open spec fn kept_from(data: Seq<u8>, raw: Seq<Seq<u8>>) -> bool {
    forall|i: int|
        0 <= i < raw.len() ==> edit::raw_frames(data).contains(#[trigger] raw[i])
}

proof fn lemma_all_kept(data: Seq<u8>)
    ensures
        kept_from(data, edit::raw_frames(data)),
        edit::raw_frames(data).no_duplicates(),
{
    let version = model::tag_version(data, 0);
    text::lemma_distinct(
        model::tag_offsets(data, 0).map_values(
            |o: int| model::tag_preserved(data, o, version),
        ).flatten(),
    );
    assert forall|i: int| 0 <= i < edit::raw_frames(data).len() implies edit::raw_frames(
        data,
    ).contains(#[trigger] edit::raw_frames(data)[i]) by {}
}

/// A part of distinct rows is distinct.
proof fn lemma_filter_distinct(rows: Seq<Seq<u8>>, keep: spec_fn(Seq<u8>) -> bool)
    requires
        rows.no_duplicates(),
    ensures
        rows.filter(keep).no_duplicates(),
    decreases rows.len(),
{
    if rows.len() == 0 {
        rows.lemma_filter_len(keep);
    } else {
        let front = rows.drop_last();
        let x = rows.last();
        assert(rows =~= front.push(x));
        front.lemma_filter_push(x, keep);
        lemma_filter_distinct(front, keep);
        assert(!front.filter(keep).contains(x)) by {
            if front.filter(keep).contains(x) {
                front.lemma_filter_contains_rev(keep, x);
                let j = choose|j: int| 0 <= j < front.len() && front[j] == x;
                assert(rows[j] == rows[rows.len() - 1]);
            }
        }
    }
}

proof fn lemma_raw_without(data: Seq<u8>, key: Seq<char>)
    ensures
        kept_from(data, edit::raw_without(data, key)),
        edit::raw_without(data, key).no_duplicates(),
        forall|i: int|
            0 <= i < edit::raw_without(data, key).len() ==> model::frame_id(
                #[trigger] edit::raw_without(data, key)[i],
            ) != key,
{
    let rows = edit::raw_frames(data);
    let keep = edit::named_otherwise(key);
    let kept = edit::raw_without(data, key);
    lemma_all_kept(data);
    lemma_filter_distinct(rows, keep);
    assert forall|i: int| 0 <= i < kept.len() implies rows.contains(#[trigger] kept[i])
        && model::frame_id(kept[i]) != key by {
        assert(kept.contains(kept[i]));
        rows.lemma_filter_contains_rev(keep, kept[i]);
        rows.lemma_filter_pred(keep, i);
    }
}

proof fn lemma_described_base(id: Seq<char>, description: Seq<char>)
    requires
        readable_base(id),
    ensures
        model::key_base(model::described_key(id, description)) == id,
        model::key_base(id) == id,
{
    let key = model::described_key(id, description);
    assert forall|i: int| 0 <= i < id.len() implies id[i] != ':' by {
        assert(model::id_byte(id[i] as u8));
    }
    text::lemma_first_at_is(id, ':', id.len() as int);
    assert(model::key_base(id) =~= id);
    if description.len() > 0 {
        text::lemma_first_at_is(key, ':', id.len() as int);
        assert(key.take(id.len() as int) =~= id);
    }
}

/// The frames read from a file can be found again once they are written.
proof fn lemma_file_texts_readable(data: Seq<u8>)
    ensures
        readable_frames(model::file_texts(data)),
{
    let offsets = model::tag_offsets(data, 0);
    let rows = offsets.map_values(|o: int| model::tag_texts(data, o));
    let all = model::file_texts(data);
    let read = |f: Seq<u8>| model::text_of_frame(f);
    assert forall|i: int| 0 <= i < all.len() implies model::is_text_key((#[trigger] all[i]).0)
        && readable_base(model::key_base(all[i].0)) by {
        let x = all[i];
        assert(all.contains(x));
        text::lemma_flatten_contains(rows, x);
        let t = choose|t: int| 0 <= t < rows.len() && (#[trigger] rows[t]).contains(x);
        let o = offsets[t];
        let frames = model::tag_frames(data, o);
        text::lemma_filter_map_source(frames, read, x);
        let j = choose|j: int| 0 <= j < frames.len() && read(#[trigger] frames[j]) == Some(x);
        let f = frames[j];
        let id = model::frame_id(f);
        lemma_raw_frames_complete(model::frame_area(data, o), model::tag_synchsafe(data, o));
        assert(one_frame(frames[j], model::tag_synchsafe(data, o)));
        assert(readable_base(id));
        let payload = f.skip(10);
        lemma_described_base(id, Seq::empty());
        if id == "TXXX"@ {
            lemma_described_base(
                id,
                model::decoded_text(
                    model::description_split(payload.skip(1), payload[0]).0,
                    payload[0],
                ),
            );
        } else if id == "COMM"@ {
            lemma_described_base(
                id,
                model::decoded_text(
                    model::description_split(payload.skip(4), payload[0]).0,
                    payload[0],
                ),
            );
        }
    }
}

proof fn lemma_collapsed(data: Seq<u8>)
    ensures
        readable_frames(edit::collapsed(data)),
        model::keys_of(edit::collapsed(data)) == text::distinct(
            model::keys_of(model::file_texts(data)),
        ),
        model::keys_of(edit::collapsed(data)).no_duplicates(),
{
    let texts = model::file_texts(data);
    let keys = text::distinct(model::keys_of(texts));
    let all = edit::collapsed(data);
    text::lemma_distinct(model::keys_of(texts));
    lemma_file_texts_readable(data);
    assert(model::keys_of(all) =~= keys);
    assert forall|i: int| 0 <= i < all.len() implies model::is_text_key((#[trigger] all[i]).0)
        && readable_base(model::key_base(all[i].0)) by {
        assert(keys.contains(keys[i]));
        assert(model::keys_of(texts).contains(keys[i]));
        let j = choose|j: int|
            0 <= j < model::keys_of(texts).len() && model::keys_of(texts)[j] == keys[i];
        assert(texts[j].0 == all[i].0);
    }
}

proof fn lemma_rewritten(
    data: Seq<u8>,
    frames: Seq<(Seq<char>, Seq<char>)>,
    raw: Seq<Seq<u8>>,
)
    requires
        model::tag_starts(data, 0),
        rewrite_fits(data, frames, raw),
        readable_frames(frames),
        kept_from(data, raw),
        raw.no_duplicates(),
    ensures
        ({
            let file = edit::rewritten(data, frames, raw);
            &&& edit::common_fault(file, digest::sha256_of(model::audio_of(data))) is None
            &&& model::audio_of(file) == model::audio_of(data)
            &&& model::tag_version(file, 0) == model::tag_version(data, 0)
            &&& model::tag_offsets(file, 0) == seq![0int]
            &&& model::tag_texts(file, 0) == Seq::new(frames.len(), |i: int| reread(frames[i]))
            &&& model::file_texts(file) == model::tag_texts(file, 0)
            &&& edit::raw_frames(file) == raw
        }),
{
    let version = model::tag_version(data, 0);
    let file = edit::rewritten(data, frames, raw);
    assert(raw.flatten().len() <= model::tag_body(frames, raw, version).len());
    assert forall|i: int| 0 <= i < raw.len() implies one_frame(#[trigger] raw[i], version >= 4)
        && !model::is_text_key(model::frame_id(raw[i])) by {
        raw.lemma_flatten_length_ge_single_element_length(i);
        raw.lemma_flatten_and_flatten_alt_are_equivalent();
        lemma_raw_frame(data, version, raw[i]);
    }
    law_rebuild_keeps_audio(data, frames, version, raw);
    law_texts_read_back(frames, raw, version, model::audio_of(data));
    lemma_header(frames, raw, version, model::audio_of(data));
    let offsets = seq![0int];
    let rows = offsets.map_values(|o: int| model::tag_texts(file, o));
    assert(rows =~= seq![model::tag_texts(file, 0)]);
    rows.lemma_flatten_one_element();
    let kept = offsets.map_values(|o: int| model::tag_preserved(file, o, version));
    assert(model::tag_preserved(file, 0, version) =~= raw);
    assert(kept =~= seq![raw]);
    kept.lemma_flatten_one_element();
    text::lemma_distinct_of_distinct(raw);
}

/// Setting a frame keeps the audio and reads back: the check after writing
/// accepts the file, with the frame under its new value.
pub proof fn law_write_reads_back(data: Seq<u8>, key: Seq<char>, value: Seq<char>)
    requires
        model::tag_starts(data, 0),
        stable_key(key),
        stable_value(value),
        rewrite_fits(
            data,
            edit::upserted(edit::collapsed(data), key, value),
            edit::raw_frames(data),
        ),
    ensures
        ({
            let file = edit::rewritten(
                data,
                edit::upserted(edit::collapsed(data), key, value),
                edit::raw_frames(data),
            );
            &&& edit::common_fault(file, digest::sha256_of(model::audio_of(data))) is None
            &&& model::audio_of(file) == model::audio_of(data)
            &&& model::tag_texts(file, 0).contains((key, value))
            &&& edit::raw_frames(file) == edit::raw_frames(data)
        }),
{
    let before = edit::collapsed(data);
    let frames = edit::upserted(before, key, value);
    let i = text::first_at(model::keys_of(before), key);
    text::lemma_first_at(model::keys_of(before), key);
    lemma_collapsed(data);
    assert(readable_frames(frames)) by {
        assert forall|k: int| 0 <= k < frames.len() implies model::is_text_key(
            (#[trigger] frames[k]).0,
        ) && readable_base(model::key_base(frames[k].0)) by {
            if k < before.len() && k != i {
                assert(frames[k] == before[k]);
            } else {
                assert(frames[k] == (key, value));
            }
        }
    }
    lemma_all_kept(data);
    lemma_rewritten(data, frames, edit::raw_frames(data));
    let file = edit::rewritten(data, frames, edit::raw_frames(data));
    assert(frames[i] == (key, value));
    lemma_payload_reads_back(key, value);
    assert(model::tag_texts(file, 0)[i] == (key, value));
}

/// Deleting a frame keeps the audio and leaves no frame under its key, neither a
/// text frame nor another: the check after writing accepts the file. The other raw
/// frames stay.
pub proof fn law_delete_removes(data: Seq<u8>, key: Seq<char>)
    requires
        model::tag_starts(data, 0),
        rewrite_fits(
            data,
            edit::without_key(edit::collapsed(data), key),
            edit::raw_without(data, key),
        ),
    ensures
        ({
            let file = edit::rewritten(
                data,
                edit::without_key(edit::collapsed(data), key),
                edit::raw_without(data, key),
            );
            &&& edit::common_fault(file, digest::sha256_of(model::audio_of(data))) is None
            &&& model::audio_of(file) == model::audio_of(data)
            &&& !edit::still_present(file, key)
            &&& edit::raw_frames(file) == edit::raw_without(data, key)
        }),
{
    let before = edit::collapsed(data);
    let keep = edit::under_other_key(key);
    let frames = edit::without_key(before, key);
    lemma_collapsed(data);
    assert forall|k: int| 0 <= k < frames.len() implies stable_key((#[trigger] frames[k]).0)
        && frames[k].0 != key by {
        assert(frames.contains(frames[k]));
        before.lemma_filter_pred(keep, k);
        before.lemma_filter_contains_rev(keep, frames[k]);
        let j = choose|j: int| 0 <= j < before.len() && before[j] == frames[k];
        assert(model::keys_of(before)[j] == frames[k].0);
        lemma_collapsed_keys_stable(data, j);
    }
    assert(readable_frames(frames)) by {
        assert forall|k: int| 0 <= k < frames.len() implies model::is_text_key(
            (#[trigger] frames[k]).0,
        ) && readable_base(model::key_base(frames[k].0)) by {
            assert(stable_key(frames[k].0));
        }
    }
    lemma_raw_without(data, key);
    lemma_rewritten(data, frames, edit::raw_without(data, key));
    let file = edit::rewritten(data, frames, edit::raw_without(data, key));
    let found = model::keys_of(model::tag_texts(file, 0));
    assert forall|k: int| 0 <= k < found.len() implies found[k] != key by {
        assert(stable_key(frames[k].0));
        lemma_payload_reads_back(frames[k].0, frames[k].1);
        assert(model::tag_texts(file, 0)[k] == reread(frames[k]));
    }
}

/// Merging tags keeps the audio and the raw frames, and a decision for a frame of
/// the file reads back when no later decision overrides it.
pub proof fn law_merge_reads_back(
    data: Seq<u8>,
    decisions: Seq<(Seq<char>, Seq<char>)>,
    key: Seq<char>,
    value: Seq<char>,
)
    requires
        model::tag_starts(data, 0),
        rewrite_fits(data, edit::merged(data, decisions), edit::raw_frames(data)),
        model::keys_of(edit::collapsed(data)).contains(key),
        edit::decided(decisions, key) == Some(value),
        stable_value(value),
    ensures
        ({
            let file = edit::rewritten(
                data,
                edit::merged(data, decisions),
                edit::raw_frames(data),
            );
            &&& edit::common_fault(file, digest::sha256_of(model::audio_of(data))) is None
            &&& model::audio_of(file) == model::audio_of(data)
            &&& model::tag_texts(file, 0).contains((key, value))
            &&& edit::raw_frames(file) == edit::raw_frames(data)
        }),
{
    let before = edit::collapsed(data);
    let frames = edit::merged(data, decisions);
    lemma_collapsed(data);
    assert(readable_frames(frames)) by {
        assert forall|k: int| 0 <= k < frames.len() implies model::is_text_key(
            (#[trigger] frames[k]).0,
        ) && readable_base(model::key_base(frames[k].0)) by {
            assert(frames[k].0 == before[k].0);
        }
    }
    lemma_all_kept(data);
    lemma_rewritten(data, frames, edit::raw_frames(data));
    let file = edit::rewritten(data, frames, edit::raw_frames(data));
    let i = choose|i: int|
        0 <= i < model::keys_of(before).len() && model::keys_of(before)[i] == key;
    assert(frames[i] == (key, value));
    lemma_collapsed_keys_stable(data, i);
    lemma_payload_reads_back(key, value);
    assert(model::tag_texts(file, 0)[i] == (key, value));
}

proof fn lemma_values_of_unique(frames: Seq<(Seq<char>, Seq<char>)>, i: int)
    requires
        0 <= i < frames.len(),
        model::keys_of(frames).no_duplicates(),
    ensures
        model::values_of(frames, frames[i].0) == seq![frames[i].1],
    decreases frames.len(),
{
    let front = frames.drop_last();
    let last = frames.last();
    let key = frames[i].0;
    let keys = model::keys_of(frames);
    assert(frames =~= front.push(last));
    assert(model::keys_of(front) =~= keys.drop_last());
    model::lemma_values_of_push(front, last, key);
    if i == frames.len() - 1 {
        assert(!model::keys_of(front).contains(key)) by {
            if model::keys_of(front).contains(key) {
                let j = choose|j: int|
                    0 <= j < model::keys_of(front).len() && model::keys_of(front)[j] == key;
                assert(keys[j] == keys[i]);
            }
        }
        model::lemma_values_of_absent(front, key);
        assert(model::values_of(frames, key) =~= seq![frames[i].1]);
    } else {
        assert(keys[i] != keys[frames.len() - 1]);
        assert(front[i] == frames[i]);
        lemma_values_of_unique(front, i);
    }
}

/// Frames with distinct keys form groups of one value each.
proof fn lemma_groups_of_distinct_keys(frames: Seq<(Seq<char>, Seq<char>)>)
    requires
        model::keys_of(frames).no_duplicates(),
    ensures
        model::grouped(frames) == Seq::new(
            frames.len(),
            |i: int| (frames[i].0, seq![frames[i].1]),
        ),
{
    let keys = model::keys_of(frames);
    text::lemma_distinct_of_distinct(keys);
    let groups = model::grouped(frames);
    assert forall|i: int| 0 <= i < frames.len() implies #[trigger] groups[i] == (
        frames[i].0,
        seq![frames[i].1],
    ) by {
        lemma_values_of_unique(frames, i);
        assert(keys[i] == frames[i].0);
        assert(seq![frames[i].1].no_duplicates());
        text::lemma_distinct_of_distinct(seq![frames[i].1]);
    }
    assert(groups =~= Seq::new(frames.len(), |i: int| (frames[i].0, seq![frames[i].1])));
}

/// A file rewritten from frames with distinct keys that read back needs no further
/// merge, whatever their values: it holds one frame under each of the keys.
pub proof fn law_rewrite_leaves_no_conflict(data: Seq<u8>, frames: Seq<(Seq<char>, Seq<char>)>)
    requires
        model::tag_starts(data, 0),
        rewrite_fits(data, frames, edit::raw_frames(data)),
        forall|i: int| 0 <= i < frames.len() ==> stable_key((#[trigger] frames[i]).0),
        model::keys_of(frames).no_duplicates(),
    ensures
        ({
            let file = edit::rewritten(data, frames, edit::raw_frames(data));
            &&& model::keys_of(model::file_texts(file)) == model::keys_of(frames)
            &&& edit::conflicts(file).len() == 0
        }),
{
    let file = edit::rewritten(data, frames, edit::raw_frames(data));
    assert(readable_frames(frames)) by {
        assert forall|i: int| 0 <= i < frames.len() implies model::is_text_key(
            (#[trigger] frames[i]).0,
        ) && readable_base(model::key_base(frames[i].0)) by {
            assert(stable_key(frames[i].0));
        }
    }
    lemma_all_kept(data);
    lemma_rewritten(data, frames, edit::raw_frames(data));
    let texts = model::file_texts(file);
    assert forall|i: int| 0 <= i < frames.len() implies (#[trigger] texts[i]).0 == frames[i].0 by {
        assert(stable_key(frames[i].0));
        lemma_payload_reads_back(frames[i].0, frames[i].1);
    }
    assert(model::keys_of(texts) =~= model::keys_of(frames));
    lemma_groups_of_distinct_keys(texts);
    let groups = model::grouped(texts);
    let keep = |g: (Seq<char>, Seq<Seq<char>>)| g.1.len() >= 2;
    assert(groups.filter(keep).len() == 0) by {
        if groups.filter(keep).len() > 0 {
            let g = groups.filter(keep)[0];
            groups.lemma_filter_pred(keep, 0);
            assert(groups.filter(keep).contains(g));
            groups.lemma_filter_contains_rev(keep, g);
            let i = choose|i: int| 0 <= i < groups.len() && groups[i] == g;
            assert(groups[i].1.len() == 1);
        }
    }
}

/// A key that reading a file gives reads back as it is written.
proof fn lemma_file_keys_stable(data: Seq<u8>, i: int)
    requires
        0 <= i < model::file_texts(data).len(),
    ensures
        stable_key(model::file_texts(data)[i].0),
{
    let offsets = model::tag_offsets(data, 0);
    let rows = offsets.map_values(|o: int| model::tag_texts(data, o));
    let all = model::file_texts(data);
    let read = |f: Seq<u8>| model::text_of_frame(f);
    lemma_file_texts_readable(data);
    let x = all[i];
    assert(model::is_text_key(x.0) && readable_base(model::key_base(x.0)));
    assert(all.contains(x));
    text::lemma_flatten_contains(rows, x);
    let t = choose|t: int| 0 <= t < rows.len() && (#[trigger] rows[t]).contains(x);
    let o = offsets[t];
    let frames = model::tag_frames(data, o);
    text::lemma_filter_map_source(frames, read, x);
    let j = choose|j: int| 0 <= j < frames.len() && read(#[trigger] frames[j]) == Some(x);
    let f = frames[j];
    let id = model::frame_id(f);
    lemma_raw_frames_complete(model::frame_area(data, o), model::tag_synchsafe(data, o));
    assert(one_frame(frames[j], model::tag_synchsafe(data, o)));
    assert(readable_base(id));
    let payload = f.skip(10);
    lemma_described_base(id, Seq::empty());
    let description = if id == "TXXX"@ {
        model::decoded_text(model::description_split(payload.skip(1), payload[0]).0, payload[0])
    } else if id == "COMM"@ {
        model::decoded_text(model::description_split(payload.skip(4), payload[0]).0, payload[0])
    } else {
        Seq::empty()
    };
    lemma_description_without_nul(payload.skip(1), payload[0]);
    lemma_description_without_nul(payload.skip(4), payload[0]);
    assert(x.0 == model::described_key(id, description));
    lemma_described_base(id, description);
    let found = model::key_description(x.0);
    if description.len() > 0 {
        assert forall|k: int| 0 <= k < id.len() implies id[k] != ':' by {
            assert(model::id_byte(id[k] as u8));
        }
        text::lemma_first_at_is(x.0, ':', id.len() as int);
        assert(found =~= description);
    } else {
        assert forall|k: int| 0 <= k < id.len() implies id[k] != ':' by {
            assert(model::id_byte(id[k] as u8));
        }
        text::lemma_first_at_is(id, ':', id.len() as int);
        assert(found =~= Seq::empty());
    }
}

proof fn lemma_collapsed_keys_stable(data: Seq<u8>, i: int)
    requires
        0 <= i < edit::collapsed(data).len(),
    ensures
        stable_key(edit::collapsed(data)[i].0),
{
    let texts = model::file_texts(data);
    let keys = model::keys_of(edit::collapsed(data));
    lemma_collapsed(data);
    text::lemma_distinct(model::keys_of(texts));
    assert(keys.contains(keys[i]));
    assert(model::keys_of(texts).contains(keys[i]));
    let j = choose|j: int|
        0 <= j < model::keys_of(texts).len() && model::keys_of(texts)[j] == keys[i];
    assert(texts[j].0 == keys[i]);
    lemma_file_keys_stable(data, j);
}

/// Merging settles every conflict: whatever the decisions and the values, the
/// merged file has none left.
pub proof fn law_merge_leaves_no_conflict(
    data: Seq<u8>,
    decisions: Seq<(Seq<char>, Seq<char>)>,
)
    requires
        model::tag_starts(data, 0),
        rewrite_fits(data, edit::merged(data, decisions), edit::raw_frames(data)),
    ensures
        edit::conflicts(
            edit::rewritten(data, edit::merged(data, decisions), edit::raw_frames(data)),
        ).len() == 0,
{
    let before = edit::collapsed(data);
    let frames = edit::merged(data, decisions);
    lemma_collapsed(data);
    assert(model::keys_of(frames) =~= model::keys_of(before));
    assert forall|i: int| 0 <= i < frames.len() implies stable_key((#[trigger] frames[i]).0) by {
        assert(model::keys_of(before)[i] == frames[i].0);
        lemma_collapsed_keys_stable(data, i);
    }
    law_rewrite_leaves_no_conflict(data, frames);
}

/// A file rewritten from frames with distinct keys holds exactly those frames and
/// the same other frames as before, in one tag, and needs no further merge.
pub proof fn law_rewrite_settles(data: Seq<u8>, frames: Seq<(Seq<char>, Seq<char>)>)
    requires
        model::tag_starts(data, 0),
        rewrite_fits(data, frames, edit::raw_frames(data)),
        stable_frames(frames),
        model::keys_of(frames).no_duplicates(),
    ensures
        ({
            let file = edit::rewritten(data, frames, edit::raw_frames(data));
            &&& model::tag_version(file, 0) == model::tag_version(data, 0)
            &&& model::file_texts(file) == frames
            &&& edit::collapsed(file) == frames
            &&& edit::conflicts(file).len() == 0
            &&& edit::raw_frames(file) == edit::raw_frames(data)
        }),
{
    let file = edit::rewritten(data, frames, edit::raw_frames(data));
    assert forall|i: int| 0 <= i < frames.len() implies stable_key((#[trigger] frames[i]).0)
        && reread(frames[i]) == frames[i] by {
        lemma_payload_reads_back(frames[i].0, frames[i].1);
    }
    law_rewrite_leaves_no_conflict(data, frames);
    assert(readable_frames(frames)) by {
        assert forall|i: int| 0 <= i < frames.len() implies model::is_text_key(
            (#[trigger] frames[i]).0,
        ) && readable_base(model::key_base(frames[i].0)) by {
            assert(stable_key(frames[i].0));
        }
    }
    lemma_all_kept(data);
    lemma_rewritten(data, frames, edit::raw_frames(data));
    assert(model::file_texts(file) =~= frames);
    lemma_groups_of_distinct_keys(frames);
    assert(edit::collapsed(file) =~= frames);
}

// ── Encodings ────────────────────────────────────────────────────────────────

/// The UTF-16 code units of a character: one, or two for a character beyond the
/// basic plane.
pub open spec fn char_units(c: char) -> Seq<u16> {
    let v = c as u32 as int;
    if v < 0x10000 {
        seq![v as u16]
    } else {
        seq![(0xD800 + (v - 0x10000) / 0x400) as u16, (0xDC00 + (v - 0x10000) % 0x400) as u16]
    }
}

/// The UTF-16 code units of a text.
pub open spec fn text_units(s: Seq<char>) -> Seq<u16>
    decreases s.len(),
{
    if s.len() == 0 {
        Seq::empty()
    } else {
        char_units(s[0]) + text_units(s.skip(1))
    }
}

/// The bytes of code units, the lower byte of each first.
pub open spec fn little_endian(units: Seq<u16>) -> Seq<u8> {
    Seq::new(
        2 * units.len(),
        |i: int|
            if i % 2 == 0 {
                (units[i / 2] as int % 256) as u8
            } else {
                (units[i / 2] as int / 256) as u8
            },
    )
}

/// The bytes of code units, the upper byte of each first.
pub open spec fn big_endian(units: Seq<u16>) -> Seq<u8> {
    Seq::new(
        2 * units.len(),
        |i: int|
            if i % 2 == 0 {
                (units[i / 2] as int / 256) as u8
            } else {
                (units[i / 2] as int % 256) as u8
            },
    )
}

/// Code units read back from their bytes, in either order.
pub proof fn law_units_read_back(units: Seq<u16>)
    ensures
        model::units16(little_endian(units), true) == units,
        model::units16(big_endian(units), false) == units,
{
    let l = little_endian(units);
    let b = big_endian(units);
    assert forall|i: int| 0 <= i < units.len() implies model::units16(l, true)[i] == units[i] by {
        assert((2 * i) / 2 == i && (2 * i) % 2 == 0 && (2 * i + 1) / 2 == i && (2 * i + 1) % 2
            == 1);
        assert(l[2 * i] == (units[i] as int % 256) as u8);
        assert(l[2 * i + 1] == (units[i] as int / 256) as u8);
    }
    assert forall|i: int| 0 <= i < units.len() implies model::units16(b, false)[i] == units[i] by {
        assert((2 * i) / 2 == i && (2 * i) % 2 == 0 && (2 * i + 1) / 2 == i && (2 * i + 1) % 2
            == 1);
        assert(b[2 * i] == (units[i] as int / 256) as u8);
        assert(b[2 * i + 1] == (units[i] as int % 256) as u8);
    }
    assert(model::units16(l, true) =~= units);
    assert(model::units16(b, false) =~= units);
}

/// A character reads back from its code units: a unit below the surrogates or above
/// them, or a pair of surrogates.
pub(crate) proof fn lemma_char_units(c: char)
    ensures
        ({
            let u = char_units(c);
            ||| u.len() == 1 && (u[0] < 0xD800 || u[0] > 0xDFFF) && u[0] as char == c
            ||| u.len() == 2 && 0xD800 <= u[0] <= 0xDBFF && 0xDC00 <= u[1] <= 0xDFFF
                && model::surrogate_pair(u[0], u[1]) == c
        }),
        c != '\0' ==> forall|i: int|
            0 <= i < char_units(c).len() ==> #[trigger] char_units(c)[i] != 0,
{
    char_is_scalar(c);
}

/// A text reads back from its UTF-16 code units.
pub proof fn law_utf16_reads_back(s: Seq<char>)
    ensures
        model::utf16_lossy(text_units(s)) == s,
    decreases s.len(),
{
    if s.len() > 0 {
        let u = char_units(s[0]);
        let rest = text_units(s.skip(1));
        let units = text_units(s);
        lemma_char_units(s[0]);
        law_utf16_reads_back(s.skip(1));
        assert(units[0] == u[0]);
        assert(units.skip(u.len() as int) =~= rest);
        if u.len() == 2 {
            assert(units[1] == u[1]);
        }
        assert(seq![s[0]] + s.skip(1) =~= s);
    }
}

proof fn lemma_units_without_nul(s: Seq<char>)
    requires
        !s.contains('\0'),
    ensures
        forall|i: int| 0 <= i < text_units(s).len() ==> #[trigger] text_units(s)[i] != 0,
    decreases s.len(),
{
    if s.len() > 0 {
        let a = char_units(s[0]);
        let rest = text_units(s.skip(1));
        assert(s.contains(s[0]));
        lemma_char_units(s[0]);
        assert(!s.skip(1).contains('\0')) by {
            if s.skip(1).contains('\0') {
                let i = choose|i: int| 0 <= i < s.skip(1).len() && s.skip(1)[i] == '\0';
                assert(s[i + 1] == '\0');
            }
        }
        lemma_units_without_nul(s.skip(1));
        assert forall|i: int| 0 <= i < text_units(s).len() implies #[trigger] text_units(s)[i]
            != 0 by {
            if i >= a.len() {
                assert(text_units(s)[i] == rest[i - a.len()]);
            } else {
                assert(text_units(s)[i] == a[i]);
            }
        }
    }
}

proof fn lemma_latin1_char(c: char)
    requires
        c as u32 <= 255,
    ensures
        (c as u8) as char == c,
{
    char_is_scalar(c);
}

proof fn lemma_all_units_kept(s: Seq<char>)
    requires
        !s.contains('\0'),
    ensures
        model::units_to_nul(text_units(s)) == text_units(s),
{
    let units = text_units(s);
    lemma_units_without_nul(s);
    text::lemma_first_at_is(units, 0u16, units.len() as int);
    assert(units.take(units.len() as int) =~= units);
}

/// Text in any encoding reads back: UTF-16 with a byte order mark in either order,
/// big-endian UTF-16 without one, ISO-8859-1 and UTF-8.
pub proof fn law_every_encoding_reads_back(s: Seq<char>)
    requires
        !s.contains('\0'),
    ensures
        model::decoded_text(seq![0xFFu8, 0xFEu8] + little_endian(text_units(s)), 1) == s,
        model::decoded_text(seq![0xFEu8, 0xFFu8] + big_endian(text_units(s)), 1) == s,
        model::decoded_text(big_endian(text_units(s)), 2) == s,
        (forall|i: int| 0 <= i < s.len() ==> (#[trigger] s[i]) as u32 <= 255)
            ==> model::decoded_text(Seq::new(s.len(), |i: int| s[i] as u8), 0) == s,
        model::decoded_text(encode_utf8(s), 3) == s,
{
    let units = text_units(s);
    law_units_read_back(units);
    law_utf16_reads_back(s);
    lemma_all_units_kept(s);
    let l = seq![0xFFu8, 0xFEu8] + little_endian(units);
    let b = seq![0xFEu8, 0xFFu8] + big_endian(units);
    assert(l.skip(2) =~= little_endian(units));
    assert(b.skip(2) =~= big_endian(units));
    if forall|i: int| 0 <= i < s.len() ==> (#[trigger] s[i]) as u32 <= 255 {
        let bytes = Seq::new(s.len(), |i: int| s[i] as u8);
        assert forall|i: int| 0 <= i < s.len() implies model::latin1(bytes)[i] == s[i] by {
            lemma_latin1_char(s[i]);
        }
        assert(model::latin1(bytes) =~= s);
        lemma_trimmed_without_nul(s);
    }
    if s.len() > 0 {
        assert(s.contains(s.last()));
    }
    lemma_decoded_utf8(s);
}

/// A text frame in UTF-16 reads back with its text, under its identifier.
pub proof fn law_utf16_frame_reads_back(id: Seq<char>, s: Seq<char>)
    requires
        !s.contains('\0'),
        id != "TXXX"@,
        id != "COMM"@,
    ensures
        model::text_of_payload(
            id,
            seq![1u8, 0xFFu8, 0xFEu8] + little_endian(text_units(s)),
        ) == Some((id, s)),
        model::text_of_payload(
            id,
            seq![1u8, 0xFEu8, 0xFFu8] + big_endian(text_units(s)),
        ) == Some((id, s)),
        model::text_of_payload(id, seq![2u8] + big_endian(text_units(s))) == Some((id, s)),
{
    law_every_encoding_reads_back(s);
    let l = little_endian(text_units(s));
    let b = big_endian(text_units(s));
    assert((seq![1u8, 0xFFu8, 0xFEu8] + l).skip(1) =~= seq![0xFFu8, 0xFEu8] + l);
    assert((seq![1u8, 0xFEu8, 0xFFu8] + b).skip(1) =~= seq![0xFEu8, 0xFFu8] + b);
    assert((seq![2u8] + b).skip(1) =~= b);
}

proof fn lemma_wide_nul(bytes: Seq<u8>, i: int, n: int)
    requires
        0 <= i <= n,
        i % 2 == 0,
        n % 2 == 0,
        n + 1 < bytes.len(),
        bytes[n] == 0,
        bytes[n + 1] == 0,
        forall|k: int|
            i <= 2 * k < n ==> !(#[trigger] bytes[2 * k] == 0 && bytes[2 * k + 1] == 0),
    ensures
        model::wide_nul_at(bytes, i) == n,
    decreases n - i,
{
    if i < n {
        let k = i / 2;
        assert(2 * k == i);
        assert(!(bytes[2 * k] == 0 && bytes[2 * k + 1] == 0));
        lemma_wide_nul(bytes, i + 2, n);
    }
}

/// A described frame in UTF-16 reads back with its description and its value: the two
/// zero bytes between them part them.
pub proof fn law_utf16_description_reads_back(
    id: Seq<char>,
    description: Seq<char>,
    value: Seq<char>,
)
    requires
        !description.contains('\0'),
        !value.contains('\0'),
    ensures
        model::described_text(
            id,
            seq![0xFFu8, 0xFEu8] + little_endian(text_units(description)) + seq![0u8, 0u8]
                + seq![0xFFu8, 0xFEu8] + little_endian(text_units(value)),
            1,
        ) == (model::described_key(id, description), value),
{
    let units = text_units(description);
    let front = seq![0xFFu8, 0xFEu8] + little_endian(units);
    let back = seq![0xFFu8, 0xFEu8] + little_endian(text_units(value));
    let bytes = seq![0xFFu8, 0xFEu8] + little_endian(units) + seq![0u8, 0u8] + seq![
        0xFFu8,
        0xFEu8,
    ] + little_endian(text_units(value));
    let n = front.len() as int;
    law_every_encoding_reads_back(description);
    law_every_encoding_reads_back(value);
    lemma_units_without_nul(description);
    assert(bytes =~= front + seq![0u8, 0u8] + back);
    assert(n == 2 + 2 * units.len());
    assert forall|k: int| 0 <= 2 * k < n implies !(#[trigger] bytes[2 * k] == 0 && bytes[2 * k + 1]
        == 0) by {
        if k > 0 {
            let u = units[k - 1];
            assert(u != 0);
            let j = 2 * (k - 1);
            assert(j / 2 == k - 1 && j % 2 == 0 && (j + 1) / 2 == k - 1 && (j + 1) % 2 == 1);
            assert(bytes[2 * k] == little_endian(units)[j]);
            assert(bytes[2 * k + 1] == little_endian(units)[j + 1]);
        }
    }
    lemma_wide_nul(bytes, 0, n);
    assert(bytes.take(n) =~= front);
    assert(bytes.skip(n + 2) =~= back);
}

} // verus!

//! What an ID3v2 tag is: the mathematical model that the tag reader and the tag
//! serializer are stated against.
use vstd::prelude::*;
use vstd::utf8::*;
use crate::text;

verus! {

/// The views of rows of bytes.
pub open spec fn byte_rows(v: Seq<Vec<u8>>) -> Seq<Seq<u8>> {
    Seq::new(v.len(), |i: int| v[i]@)
}

// ── Sizes ────────────────────────────────────────────────────────────────────

/// The value of four bytes of seven significant bits each.
pub open spec fn synchsafe_value(b: Seq<u8>) -> u32 {
    ((b[0] as u32) << 21) | ((b[1] as u32) << 14) | ((b[2] as u32) << 7) | (b[3] as u32)
}

/// The four seven-bit bytes of `n`, most significant first.
pub open spec fn synchsafe_bytes(n: u32) -> Seq<u8> {
    seq![
        ((n >> 21) & 0x7F) as u8,
        ((n >> 14) & 0x7F) as u8,
        ((n >> 7) & 0x7F) as u8,
        (n & 0x7F) as u8,
    ]
}

/// The value of four bytes, most significant first.
pub open spec fn big_endian_value(b: Seq<u8>) -> u32 {
    ((b[0] as u32) << 24) | ((b[1] as u32) << 16) | ((b[2] as u32) << 8) | (b[3] as u32)
}

/// The four bytes of `n`, most significant first.
pub open spec fn big_endian_bytes(n: u32) -> Seq<u8> {
    seq![
        ((n >> 24) & 0xFF) as u8,
        ((n >> 16) & 0xFF) as u8,
        ((n >> 8) & 0xFF) as u8,
        (n & 0xFF) as u8,
    ]
}

/// A frame's size field read in the tag's encoding.
pub open spec fn size_value(b: Seq<u8>, synchsafe: bool) -> u32 {
    if synchsafe {
        synchsafe_value(b)
    } else {
        big_endian_value(b)
    }
}

/// A frame's size field written in the tag's encoding.
pub open spec fn size_bytes(n: u32, synchsafe: bool) -> Seq<u8> {
    if synchsafe {
        synchsafe_bytes(n)
    } else {
        big_endian_bytes(n)
    }
}

/// The sizes that a size field can hold without loss.
pub open spec fn size_fits(n: int, synchsafe: bool) -> bool {
    0 <= n < if synchsafe { 0x1000_0000int } else { 0x1_0000_0000int }
}

// ── Tags ─────────────────────────────────────────────────────────────────────

/// Whether an ID3v2 tag of a known version starts at `offset`.
pub open spec fn tag_starts(data: Seq<u8>, offset: int) -> bool {
    &&& 0 <= offset
    &&& offset + 10 <= data.len()
    &&& data[offset] == 0x49
    &&& data[offset + 1] == 0x44
    &&& data[offset + 2] == 0x33
    &&& 2 <= data[offset + 3] <= 4
}

/// The version byte of the tag at `offset`.
pub open spec fn tag_version(data: Seq<u8>, offset: int) -> u8 {
    data[offset + 3]
}

/// Whether the frame sizes of the tag at `offset` are synchsafe.
pub open spec fn tag_synchsafe(data: Seq<u8>, offset: int) -> bool {
    tag_version(data, offset) >= 4
}

/// The flags byte of the tag at `offset`.
pub open spec fn tag_flags(data: Seq<u8>, offset: int) -> u8 {
    data[offset + 5]
}

/// One past the last frame byte of the tag at `offset`. The declared size is
/// synchsafe in every version, and a tag never reaches past the end of the file.
pub open spec fn tag_body_end(data: Seq<u8>, offset: int) -> int {
    let end = offset + 10 + synchsafe_value(data.subrange(offset + 6, offset + 10));
    if end <= data.len() {
        end
    } else {
        data.len() as int
    }
}

/// The offset just past the tag at `offset`, its footer (if it has one) counted.
pub open spec fn tag_next(data: Seq<u8>, offset: int) -> int {
    let end = tag_body_end(data, offset) + if tag_flags(data, offset) & 0x10 != 0 {
        10int
    } else {
        0int
    };
    if end <= data.len() {
        end
    } else {
        data.len() as int
    }
}

/// The offsets of the consecutive tags from `offset` on.
pub open spec fn tag_offsets(data: Seq<u8>, offset: int) -> Seq<int>
    decreases data.len() - offset,
{
    if tag_starts(data, offset) {
        seq![offset] + tag_offsets(data, tag_next(data, offset))
    } else {
        Seq::empty()
    }
}

/// Where the audio begins when the tags are read from `offset` on.
pub open spec fn audio_from(data: Seq<u8>, offset: int) -> int
    decreases data.len() - offset,
{
    if tag_starts(data, offset) {
        audio_from(data, tag_next(data, offset))
    } else {
        offset
    }
}

/// Where the audio of a file begins: past all its leading tags.
pub open spec fn audio_offset(data: Seq<u8>) -> int {
    audio_from(data, 0)
}

/// The audio of a file.
pub open spec fn audio_of(data: Seq<u8>) -> Seq<u8> {
    data.skip(audio_offset(data))
}

/// The length of the extended header of the tag at `offset`.
pub open spec fn extended_header_len(data: Seq<u8>, offset: int) -> int {
    let start = offset + 10;
    if tag_version(data, offset) >= 3 && tag_flags(data, offset) & 0x40 != 0 && start + 4
        <= tag_body_end(data, offset) {
        if tag_version(data, offset) == 4 {
            synchsafe_value(data.subrange(start, start + 4)) as int
        } else {
            4 + big_endian_value(data.subrange(start, start + 4))
        }
    } else {
        0
    }
}

/// The bytes of the tag at `offset` that hold frames and padding.
pub open spec fn frame_area(data: Seq<u8>, offset: int) -> Seq<u8> {
    let start = offset + 10 + extended_header_len(data, offset);
    let end = tag_body_end(data, offset);
    if start <= end {
        data.subrange(start, end)
    } else {
        Seq::empty()
    }
}

// ── Frames ───────────────────────────────────────────────────────────────────

/// A byte that may stand in a frame identifier: an ASCII letter or digit, or `_`.
pub open spec fn id_byte(b: u8) -> bool {
    0x30 <= b <= 0x39 || 0x41 <= b <= 0x5A || 0x61 <= b <= 0x7A || b == 0x5F
}

/// Whether a complete frame stands at the front of `area`.
pub open spec fn frame_starts(area: Seq<u8>, synchsafe: bool) -> bool {
    &&& area.len() >= 10
    &&& id_byte(area[0])
    &&& id_byte(area[1])
    &&& id_byte(area[2])
    &&& id_byte(area[3])
    &&& 10 + size_value(area.subrange(4, 8), synchsafe) <= area.len()
}

/// The length of the frame at the front of `area`, its header counted.
pub open spec fn frame_len(area: Seq<u8>, synchsafe: bool) -> int {
    10 + size_value(area.subrange(4, 8), synchsafe)
}

/// The frames of `area`, header and payload, up to padding or a malformed frame.
pub open spec fn raw_frames(area: Seq<u8>, synchsafe: bool) -> Seq<Seq<u8>>
    decreases area.len(),
{
    if frame_starts(area, synchsafe) {
        let n = frame_len(area, synchsafe);
        seq![area.take(n)] + raw_frames(area.skip(n), synchsafe)
    } else {
        Seq::empty()
    }
}

/// The frames of the tag at `offset`.
pub open spec fn tag_frames(data: Seq<u8>, offset: int) -> Seq<Seq<u8>> {
    raw_frames(frame_area(data, offset), tag_synchsafe(data, offset))
}

/// The four-character identifier of a frame.
pub open spec fn frame_id(frame: Seq<u8>) -> Seq<char> {
    Seq::new(4, |i: int| frame[i] as char)
}

// ── Frame keys ───────────────────────────────────────────────────────────────

/// The part of a frame key before its first colon: the frame identifier.
pub open spec fn key_base(key: Seq<char>) -> Seq<char> {
    key.take(text::first_at(key, ':'))
}

/// The part of a frame key after its first colon: the description.
pub open spec fn key_description(key: Seq<char>) -> Seq<char> {
    if text::first_at(key, ':') < key.len() {
        key.skip(text::first_at(key, ':') + 1)
    } else {
        Seq::empty()
    }
}

/// The key of a described frame.
pub open spec fn described_key(base: Seq<char>, description: Seq<char>) -> Seq<char> {
    if description.len() == 0 {
        base
    } else {
        base + seq![':'] + description
    }
}

/// Whether a key names a frame that is read and written as text: a four-byte
/// identifier that begins with `T`, or a comment.
pub open spec fn is_text_key(key: Seq<char>) -> bool {
    let base = key_base(key);
    ||| base.len() > 0 && base[0] == 'T' && encode_utf8(base).len() == 4
    ||| base == "COMM"@
}

// ── Text ─────────────────────────────────────────────────────────────────────

/// What `String::from_utf8_lossy` makes of bytes that are not valid UTF-8.
pub uninterp spec fn utf8_lossy(bytes: Seq<u8>) -> Seq<char>;

/// The characters of `s` other than NUL.
pub open spec fn without_nuls(s: Seq<char>) -> Seq<char> {
    s.filter(|c: char| c != '\0')
}

/// Bytes read as UTF-8, invalid parts replaced. A NUL comes from a zero byte alone.
pub open spec fn utf8_text(bytes: Seq<u8>) -> Seq<char> {
    if valid_utf8(bytes) {
        decode_utf8(bytes)
    } else if bytes.contains(0u8) {
        utf8_lossy(bytes)
    } else {
        without_nuls(utf8_lossy(bytes))
    }
}

/// The character that two surrogates stand for.
pub open spec fn surrogate_pair(high: u16, low: u16) -> char {
    (0x10000 + (high - 0xD800) * 0x400 + (low - 0xDC00)) as char
}

/// Code units read as UTF-16; a surrogate that is not one of a pair is replaced.
pub open spec fn utf16_lossy(units: Seq<u16>) -> Seq<char>
    decreases units.len(),
{
    if units.len() == 0 {
        Seq::empty()
    } else if units[0] < 0xD800 || units[0] > 0xDFFF {
        seq![units[0] as char] + utf16_lossy(units.skip(1))
    } else if units[0] <= 0xDBFF && units.len() > 1 && 0xDC00 <= units[1] <= 0xDFFF {
        seq![surrogate_pair(units[0], units[1])] + utf16_lossy(units.skip(2))
    } else {
        seq!['\u{FFFD}'] + utf16_lossy(units.skip(1))
    }
}

/// `s` without its trailing NUL characters.
pub open spec fn trim_nuls(s: Seq<char>) -> Seq<char>
    decreases s.len(),
{
    if s.len() > 0 && s.last() == '\0' {
        trim_nuls(s.drop_last())
    } else {
        s
    }
}

/// Bytes read as ISO-8859-1.
pub open spec fn latin1(bytes: Seq<u8>) -> Seq<char> {
    Seq::new(bytes.len(), |i: int| bytes[i] as char)
}

/// The 16-bit units of `bytes`; an odd byte at the end is dropped.
pub open spec fn units16(bytes: Seq<u8>, little_endian: bool) -> Seq<u16> {
    Seq::new(
        (bytes.len() / 2) as nat,
        |i: int|
            if little_endian {
                (bytes[2 * i] + 256 * bytes[2 * i + 1]) as u16
            } else {
                (256 * bytes[2 * i] + bytes[2 * i + 1]) as u16
            },
    )
}

/// The units before the first zero unit.
pub open spec fn units_to_nul(units: Seq<u16>) -> Seq<u16> {
    units.take(text::first_at(units, 0u16))
}

/// The text of an ID3v2 string in the given encoding.
pub open spec fn decoded_text(bytes: Seq<u8>, encoding: u8) -> Seq<char> {
    if encoding == 0 {
        trim_nuls(latin1(bytes))
    } else if encoding == 1 {
        if bytes.len() >= 2 {
            let little_endian = bytes[0] == 0xFF && bytes[1] == 0xFE;
            utf16_lossy(units_to_nul(units16(bytes.skip(2), little_endian)))
        } else {
            Seq::empty()
        }
    } else if encoding == 2 {
        utf16_lossy(units_to_nul(units16(bytes, false)))
    } else if encoding == 3 {
        trim_nuls(utf8_text(bytes))
    } else {
        utf8_text(bytes)
    }
}

/// The index of the first pair of NUL bytes that starts at an even offset from
/// `i` on, or the length of `bytes`.
pub open spec fn wide_nul_at(bytes: Seq<u8>, i: int) -> int
    decreases bytes.len() - i,
{
    if i + 1 >= bytes.len() {
        bytes.len() as int
    } else if bytes[i] == 0 && bytes[i + 1] == 0 {
        i
    } else {
        wide_nul_at(bytes, i + 2)
    }
}

/// The description and the value of a described payload. The terminator between
/// them is two NUL bytes in the UTF-16 encodings and one otherwise; without one,
/// all is value.
pub open spec fn description_split(bytes: Seq<u8>, encoding: u8) -> (Seq<u8>, Seq<u8>) {
    if encoding == 1 || encoding == 2 {
        let i = wide_nul_at(bytes, 0);
        if i < bytes.len() {
            (bytes.take(i), bytes.skip(i + 2))
        } else {
            (Seq::empty(), bytes)
        }
    } else {
        let i = text::first_at(bytes, 0u8);
        if i < bytes.len() {
            (bytes.take(i), bytes.skip(i + 1))
        } else {
            (Seq::empty(), bytes)
        }
    }
}

/// The key and value of a described frame.
pub open spec fn described_text(id: Seq<char>, bytes: Seq<u8>, encoding: u8) -> (
    Seq<char>,
    Seq<char>,
) {
    let (description, value) = description_split(bytes, encoding);
    (described_key(id, decoded_text(description, encoding)), decoded_text(value, encoding))
}

/// The key and value held by a text frame's payload: an encoding byte and then
/// the text, which a `TXXX` frame precedes by a description and a `COMM` frame
/// by a three-byte language and a description.
pub open spec fn text_of_payload(id: Seq<char>, payload: Seq<u8>) -> Option<
    (Seq<char>, Seq<char>),
> {
    if payload.len() == 0 {
        None
    } else if id == "TXXX"@ {
        Some(described_text(id, payload.skip(1), payload[0]))
    } else if id == "COMM"@ {
        if payload.len() >= 4 {
            Some(described_text(id, payload.skip(4), payload[0]))
        } else {
            None
        }
    } else {
        Some((id, decoded_text(payload.skip(1), payload[0])))
    }
}

/// The key and value of a frame, when it is a text frame that can be read.
pub open spec fn text_of_frame(frame: Seq<u8>) -> Option<(Seq<char>, Seq<char>)> {
    if is_text_key(frame_id(frame)) {
        text_of_payload(frame_id(frame), frame.skip(10))
    } else {
        None
    }
}

/// The text frames among `frames`.
pub open spec fn texts_of_frames(frames: Seq<Seq<u8>>) -> Seq<(Seq<char>, Seq<char>)> {
    frames.filter_map(|f: Seq<u8>| text_of_frame(f))
}

/// The frames among `frames` that are kept as raw bytes.
pub open spec fn opaque_frames(frames: Seq<Seq<u8>>) -> Seq<Seq<u8>> {
    frames.filter(|f: Seq<u8>| !is_text_key(frame_id(f)))
}

/// The text frames of the tag at `offset`.
pub open spec fn tag_texts(data: Seq<u8>, offset: int) -> Seq<(Seq<char>, Seq<char>)> {
    texts_of_frames(tag_frames(data, offset))
}

/// The text frames of all tags of a file, in file order.
pub open spec fn file_texts(data: Seq<u8>) -> Seq<(Seq<char>, Seq<char>)> {
    tag_offsets(data, 0).map_values(|o: int| tag_texts(data, o)).flatten()
}

/// A file without a tag has no text frames.
pub proof fn lemma_no_texts(data: Seq<u8>)
    requires
        tag_offsets(data, 0).len() == 0,
    ensures
        grouped(file_texts(data)) == Seq::<(Seq<char>, Seq<Seq<char>>)>::empty(),
{
    let rows = tag_offsets(data, 0).map_values(|o: int| tag_texts(data, o));
    assert(rows =~= Seq::empty());
    assert(keys_of(file_texts(data)) =~= Seq::empty());
    assert(grouped(file_texts(data)) =~= Seq::empty());
}

/// The keys of a list of frames.
pub open spec fn keys_of(frames: Seq<(Seq<char>, Seq<char>)>) -> Seq<Seq<char>> {
    frames.map_values(|f: (Seq<char>, Seq<char>)| f.0)
}

/// The values that a list of frames gives to a key.
pub open spec fn values_of(frames: Seq<(Seq<char>, Seq<char>)>, key: Seq<char>) -> Seq<Seq<char>> {
    frames.filter_map(
        |f: (Seq<char>, Seq<char>)|
            if f.0 == key {
                Some(f.1)
            } else {
                None
            },
    )
}

/// Frames grouped by key: the keys in order of first appearance, each with its
/// distinct values in order.
pub open spec fn grouped(frames: Seq<(Seq<char>, Seq<char>)>) -> Seq<
    (Seq<char>, Seq<Seq<char>>),
> {
    text::distinct(keys_of(frames)).map_values(
        |k: Seq<char>| (k, text::distinct(values_of(frames, k))),
    )
}

/// The view of grouped frames.
pub open spec fn group_views(v: Seq<(String, Vec<String>)>) -> Seq<(Seq<char>, Seq<Seq<char>>)> {
    Seq::new(v.len(), |i: int| (v[i].0@, text::texts(v[i].1@)))
}

pub proof fn lemma_values_of_push(
    frames: Seq<(Seq<char>, Seq<char>)>,
    f: (Seq<char>, Seq<char>),
    key: Seq<char>,
)
    ensures
        values_of(frames.push(f), key) == if f.0 == key {
            values_of(frames, key).push(f.1)
        } else {
            values_of(frames, key)
        },
{
    let pick = |g: (Seq<char>, Seq<char>)|
        if g.0 == key {
            Some(g.1)
        } else {
            None
        };
    let longer = frames.push(f);
    longer.lemma_filter_map_take_succ(pick, frames.len() as int);
    assert(longer.take(frames.len() as int) =~= frames);
    assert(longer.take(frames.len() + 1int) =~= longer);
    assert(values_of(longer, key) =~= if f.0 == key {
        values_of(frames, key).push(f.1)
    } else {
        values_of(frames, key)
    });
}

/// A key has values exactly where it occurs.
pub proof fn lemma_values_of_absent(frames: Seq<(Seq<char>, Seq<char>)>, key: Seq<char>)
    requires
        !keys_of(frames).contains(key),
    ensures
        values_of(frames, key).len() == 0,
    decreases frames.len(),
{
    if frames.len() > 0 {
        let front = frames.drop_last();
        assert(frames =~= front.push(frames.last()));
        assert forall|i: int| 0 <= i < front.len() implies keys_of(front)[i] != key by {
            assert(keys_of(frames)[i] == keys_of(front)[i]);
        }
        assert(keys_of(frames)[frames.len() - 1] == frames.last().0);
        lemma_values_of_absent(front, key);
        lemma_values_of_push(front, frames.last(), key);
    } else {
        assert(frames =~= Seq::empty());
    }
}

/// A frame with its size field moved from one encoding to the other.
pub open spec fn resized_frame(frame: Seq<u8>, from_synchsafe: bool, to_synchsafe: bool) -> Seq<
    u8,
> {
    frame.take(4) + size_bytes(size_value(frame.subrange(4, 8), from_synchsafe), to_synchsafe)
        + frame.skip(8)
}

/// The frames of the tag at `offset` that are kept as raw bytes, their sizes in
/// the encoding of `version`.
pub open spec fn tag_preserved(data: Seq<u8>, offset: int, version: u8) -> Seq<Seq<u8>> {
    opaque_frames(tag_frames(data, offset)).map_values(
        |f: Seq<u8>|
            if tag_synchsafe(data, offset) == (version >= 4) {
                f
            } else {
                resized_frame(f, tag_synchsafe(data, offset), version >= 4)
            },
    )
}

/// The distinct raw frames of all tags of a file.
pub open spec fn file_preserved(data: Seq<u8>, version: u8) -> Seq<Seq<u8>> {
    text::distinct(
        tag_offsets(data, 0).map_values(|o: int| tag_preserved(data, o, version)).flatten(),
    )
}

// ── Writing ──────────────────────────────────────────────────────────────────

/// The payload written for a text frame: UTF-8 throughout, comments in English.
pub open spec fn payload_of(key: Seq<char>, value: Seq<char>) -> Seq<u8> {
    let base = key_base(key);
    let described = encode_utf8(key_description(key)) + seq![0u8] + encode_utf8(value);
    if base == "COMM"@ {
        seq![3u8, 0x65, 0x6E, 0x67] + described
    } else if base == "TXXX"@ {
        seq![3u8] + described
    } else {
        seq![3u8] + encode_utf8(value)
    }
}

/// A frame: identifier, size, two zero flag bytes, payload.
pub open spec fn frame_bytes(id: Seq<u8>, payload: Seq<u8>, synchsafe: bool) -> Seq<u8> {
    id + size_bytes(payload.len() as u32, synchsafe) + seq![0u8, 0u8] + payload
}

/// The frame written for a key and value, unless the key names no text frame.
pub open spec fn written_frame(f: (Seq<char>, Seq<char>), version: u8) -> Option<Seq<u8>> {
    if is_text_key(f.0) {
        Some(frame_bytes(encode_utf8(key_base(f.0)), payload_of(f.0, f.1), version >= 4))
    } else {
        None
    }
}

/// The frames written for a list of keys and values.
pub open spec fn written_frames(frames: Seq<(Seq<char>, Seq<char>)>, version: u8) -> Seq<Seq<u8>> {
    frames.filter_map(|f: (Seq<char>, Seq<char>)| written_frame(f, version))
}

/// How many zero bytes follow the last frame of a written tag.
pub open spec fn padding_len() -> nat {
    2048
}

/// The bytes of a written tag after its header.
pub open spec fn tag_body(
    frames: Seq<(Seq<char>, Seq<char>)>,
    preserved: Seq<Seq<u8>>,
    version: u8,
) -> Seq<u8> {
    written_frames(frames, version).flatten() + preserved.flatten() + Seq::new(
        padding_len(),
        |i: int| 0u8,
    )
}

/// The ten bytes of a tag header.
pub open spec fn header_bytes(version: u8, tag_size: u32) -> Seq<u8> {
    seq![0x49u8, 0x44, 0x33, version, 0, 0] + synchsafe_bytes(tag_size)
}

/// A written tag.
pub open spec fn tag_bytes(
    frames: Seq<(Seq<char>, Seq<char>)>,
    preserved: Seq<Seq<u8>>,
    version: u8,
) -> Seq<u8> {
    let body = tag_body(frames, preserved, version);
    header_bytes(version, body.len() as u32) + body
}

} // verus!

//! Writing ID3v2 tags.
use vstd::prelude::*;
use vstd::utf8::*;
use crate::text;
use crate::text::same_text;
use super::model;
use super::{is_text_frame, split_frame_key, TagError};

verus! {

/// Zero bytes appended after the last frame.
pub const DEFAULT_PADDING: usize = 2048;

/// Appends the bytes of `src` to `dst`.
pub(crate) fn append_bytes(dst: &mut Vec<u8>, src: &[u8])
    ensures
        final(dst)@ == old(dst)@ + src@,
{
    dst.extend_from_slice(src);
    assert(dst@ =~= old(dst)@ + src@);
}

/// Encodes a value as four bytes of seven significant bits each.
pub fn u32_to_synchsafe(n: u32) -> (b: [u8; 4])
    ensures
        b@ == model::synchsafe_bytes(n),
{
    let b = [
        ((n >> 21) & 0x7F) as u8,
        ((n >> 14) & 0x7F) as u8,
        ((n >> 7) & 0x7F) as u8,
        (n & 0x7F) as u8,
    ];
    assert(b@ =~= model::synchsafe_bytes(n));
    b
}

/// Encodes a value as four bytes, most significant first.
pub fn u32_to_big_endian(n: u32) -> (b: [u8; 4])
    ensures
        b@ == model::big_endian_bytes(n),
{
    let b = [
        ((n >> 24) & 0xFF) as u8,
        ((n >> 16) & 0xFF) as u8,
        ((n >> 8) & 0xFF) as u8,
        (n & 0xFF) as u8,
    ];
    assert(b@ =~= model::big_endian_bytes(n));
    b
}

/// Decodes four bytes of seven significant bits each.
pub fn synchsafe_to_u32(b: &[u8]) -> (n: u32)
    requires
        b@.len() == 4,
    ensures
        n == model::synchsafe_value(b@),
{
    ((b[0] as u32) << 21) | ((b[1] as u32) << 14) | ((b[2] as u32) << 7) | (b[3] as u32)
}

/// Decodes four bytes, most significant first.
pub fn big_endian_to_u32(b: &[u8]) -> (n: u32)
    requires
        b@.len() == 4,
    ensures
        n == model::big_endian_value(b@),
{
    ((b[0] as u32) << 24) | ((b[1] as u32) << 16) | ((b[2] as u32) << 8) | (b[3] as u32)
}

/// Writes the ten-byte tag header. `tag_size` counts everything after the header
/// and is synchsafe in every version.
pub fn serialize_header(version: u8, tag_size: u32) -> (h: [u8; 10])
    ensures
        h@ == model::header_bytes(version, tag_size),
{
    let s = u32_to_synchsafe(tag_size);
    let h = [0x49u8, 0x44, 0x33, version, 0, 0, s[0], s[1], s[2], s[3]];
    assert(h@ =~= model::header_bytes(version, tag_size));
    h
}

/// Writes only the tag header, for updating it in place.
pub fn serialize_header_only(version: u8, tag_size: u32) -> (h: [u8; 10])
    ensures
        h@ == model::header_bytes(version, tag_size),
{
    serialize_header(version, tag_size)
}

/// Encodes a value as the payload of a plain text frame, in UTF-8.
pub fn encode_text_value(value: &str) -> (payload: Vec<u8>)
    ensures
        payload@ == seq![3u8] + encode_utf8(value@),
{
    let mut payload: Vec<u8> = Vec::new();
    payload.push(0x03);
    append_bytes(&mut payload, value.as_bytes());
    assert(payload@ =~= seq![3u8] + encode_utf8(value@));
    payload
}

/// Writes one frame: identifier, size, two zero flag bytes, payload. The size is
/// synchsafe from version 4 on, or where the caller asks for it, and big-endian
/// otherwise.
pub fn serialize_frame(
    frame_id: &str,
    payload: &[u8],
    version: u8,
    frame_sizes_synchsafe: bool,
) -> (frame: Vec<u8>)
    ensures
        frame@ == model::frame_bytes(
            encode_utf8(frame_id@),
            payload@,
            frame_sizes_synchsafe || version >= 4,
        ),
{
    let mut frame: Vec<u8> = Vec::new();
    append_bytes(&mut frame, frame_id.as_bytes());
    let size: u32 = payload.len() as u32;
    let field = if frame_sizes_synchsafe || version >= 4 {
        u32_to_synchsafe(size)
    } else {
        u32_to_big_endian(size)
    };
    append_bytes(&mut frame, &field);
    frame.push(0);
    frame.push(0);
    append_bytes(&mut frame, payload);
    assert(frame@ =~= model::frame_bytes(
        encode_utf8(frame_id@),
        payload@,
        frame_sizes_synchsafe || version >= 4,
    ));
    frame
}

/// Writes the payload of a described frame: encoding byte, language, description,
/// terminator, value.
pub fn serialize_described_payload(language: &[u8], description: &str, value: &str) -> (payload:
    Vec<u8>)
    ensures
        payload@ == seq![3u8] + language@ + (encode_utf8(description@) + seq![0u8] + encode_utf8(
            value@,
        )),
{
    let mut payload: Vec<u8> = Vec::new();
    payload.push(0x03);
    append_bytes(&mut payload, language);
    append_bytes(&mut payload, description.as_bytes());
    payload.push(0x00);
    append_bytes(&mut payload, value.as_bytes());
    assert(payload@ =~= seq![3u8] + language@ + (encode_utf8(description@) + seq![0u8]
        + encode_utf8(value@)));
    payload
}

/// Writes the payload of the text frame that `key` names.
pub fn serialize_payload(key: &str, value: &str) -> (payload: Vec<u8>)
    ensures
        payload@ == model::payload_of(key@, value@),
{
    let (base, description) = split_frame_key(key);
    if same_text(base, "COMM") {
        let payload = serialize_described_payload(&[0x65u8, 0x6E, 0x67], description, value);
        assert(payload@ =~= model::payload_of(key@, value@));
        payload
    } else if same_text(base, "TXXX") {
        let none: [u8; 0] = [];
        let payload = serialize_described_payload(&none, description, value);
        assert(payload@ =~= model::payload_of(key@, value@));
        payload
    } else {
        encode_text_value(value)
    }
}

/// Writes a whole tag: header, text frames, preserved frames, padding.
///
/// A key is a frame identifier, or `base:description` for a described frame.
/// Frames whose key names no text frame are left out, and `preserved` holds
/// other frames, headers and all, which are copied as they are. Only versions 2,
/// 3 and 4 can be written.
pub fn serialize_tag(frames: &[(String, String)], preserved: &[Vec<u8>], version: u8) -> (r: Result<
    Vec<u8>,
    TagError,
>)
    ensures
        match r {
            Ok(tag) => 2 <= version <= 4 && tag@ == model::tag_bytes(
                text::pairs(frames@),
                model::byte_rows(preserved@),
                version,
            ),
            Err(e) => !(2 <= version <= 4) && e == TagError::UnsupportedVersion(version),
        },
{
    if version < 2 || version > 4 {
        return Err(TagError::UnsupportedVersion(version));
    }
    let synchsafe = version >= 4;
    let mut body: Vec<u8> = Vec::new();
    let ghost all = text::pairs(frames@);
    let ghost write = |f: (Seq<char>, Seq<char>)| model::written_frame(f, version);
    assert(all.take(0) =~= Seq::empty());
    let mut i: usize = 0;
    while i < frames.len()
        invariant
            i <= frames.len(),
            all == text::pairs(frames@),
            synchsafe == (version >= 4),
            write == (|f: (Seq<char>, Seq<char>)| model::written_frame(f, version)),
            body@ == all.take(i as int).filter_map(write).flatten(),
        decreases frames.len() - i,
    {
        let key: &String = &frames[i].0;
        let value: &String = &frames[i].1;
        proof {
            all.lemma_filter_map_take_succ(write, i as int);
            assert(all[i as int] == (key@, value@));
        }
        let ghost before = all.take(i as int).filter_map(write);
        if is_text_frame(key) {
            let (base, description) = split_frame_key(key);
            let payload = serialize_payload(key, value);
            let frame = serialize_frame(base, &payload, version, synchsafe);
            append_bytes(&mut body, &frame);
            proof {
                before.lemma_flatten_push(frame@);
                assert(before + seq![frame@] =~= before.push(frame@));
            }
        } else {
            proof {
                assert(before + Seq::<Seq<u8>>::empty() =~= before);
            }
        }
        i = i + 1;
    }
    assert(all.take(all.len() as int) =~= all);
    let ghost text_part = body@;
    let ghost rows = model::byte_rows(preserved@);
    assert(rows.take(0) =~= Seq::empty());
    assert(body@ =~= text_part + rows.take(0).flatten());
    let mut j: usize = 0;
    while j < preserved.len()
        invariant
            j <= preserved.len(),
            rows == model::byte_rows(preserved@),
            body@ == text_part + rows.take(j as int).flatten(),
        decreases preserved.len() - j,
    {
        append_bytes(&mut body, &preserved[j]);
        proof {
            rows.take(j as int).lemma_flatten_push(rows[j as int]);
            assert(rows.take(j + 1) =~= rows.take(j as int).push(rows[j as int]));
        }
        j = j + 1;
    }
    assert(rows.take(rows.len() as int) =~= rows);
    let ghost unpadded = body@;
    let mut k: usize = 0;
    while k < DEFAULT_PADDING
        invariant
            k <= DEFAULT_PADDING,
            body@ == unpadded + Seq::new(k as nat, |i: int| 0u8),
        decreases DEFAULT_PADDING - k,
    {
        body.push(0);
        assert(body@ =~= unpadded + Seq::new((k + 1) as nat, |i: int| 0u8));
        k = k + 1;
    }
    assert(body@ =~= model::tag_body(all, rows, version));
    let tag_size: u32 = body.len() as u32;
    let header = serialize_header(version, tag_size);
    let mut tag: Vec<u8> = Vec::new();
    append_bytes(&mut tag, &header);
    append_bytes(&mut tag, &body);
    assert(tag@ =~= model::tag_bytes(all, rows, version));
    Ok(tag)
}

} // verus!

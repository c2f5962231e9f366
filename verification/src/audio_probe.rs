//! Finding the audio in a file that the usual probe does not understand.
use vstd::prelude::*;
use crate::library::tag_writer::model;
use crate::library::tag_writer::serialize::synchsafe_to_u32;
use crate::text;
use crate::text::contains_part;

verus! {

// ── ID3v2 tags in front ──────────────────────────────────────────────────────

/// Whether an ID3v2 header stands at `at`.
pub open spec fn has_tag(data: Seq<u8>, at: int) -> bool {
    &&& 0 <= at
    &&& at + 10 <= data.len()
    &&& data[at] == 0x49
    &&& data[at + 1] == 0x44
    &&& data[at + 2] == 0x33
}

/// Where the tag whose header stands at `at` ends.
pub open spec fn tag_end(data: Seq<u8>, at: int) -> int {
    at + 10 + model::synchsafe_value(data.subrange(at + 6, at + 10))
}

/// Where the tags that follow each other from `at` on end.
pub open spec fn tags_end(data: Seq<u8>, at: int) -> int
    decreases data.len() - at,
{
    let end = tag_end(data, at);
    if !has_tag(data, at) {
        at
    } else if end < data.len() {
        tags_end(data, end)
    } else {
        end
    }
}

/// The end of the ID3v2 tag that starts a file, given the file's first bytes;
/// `None` where no tag starts there.
pub fn id3v2_end_offset(data: &[u8]) -> (r: Option<u64>)
    ensures
        r is Some <==> has_tag(data@, 0),
        r is Some ==> r->0 == tag_end(data@, 0),
{
    if data.len() < 10 {
        return None;
    }
    match tag_size_at(data, 0) {
        Some(size) => Some(10 + size as u64),
        None => None,
    }
}

/// The size that the tag whose header stands at `at` states, where one does.
fn tag_size_at(data: &[u8], at: usize) -> (r: Option<u32>)
    requires
        at <= data@.len() - 10,
    ensures
        r is Some <==> has_tag(data@, at as int),
        r is Some ==> at + 10 + r->0 == tag_end(data@, at as int),
{
    if data[at] != 0x49 || data[at + 1] != 0x44 || data[at + 2] != 0x33 {
        return None;
    }
    Some(synchsafe_to_u32(vstd::slice::slice_subrange(data, at + 6, at + 10)))
}

// ── RIFF/WAVE around MP3 ─────────────────────────────────────────────────────

/// Why a file could not be searched.
#[derive(Debug, Clone, Copy, PartialEq, Eq, Structural)]
pub enum ProbeError {
    /// The file ends inside a format chunk.
    UnexpectedEnd,
}

/// The four bytes from `at` on.
pub open spec fn four(data: Seq<u8>, at: int) -> Seq<u8> {
    data.subrange(at, at + 4)
}

pub open spec fn riff_mark() -> Seq<u8> {
    seq![0x52u8, 0x49, 0x46, 0x46]
}

pub open spec fn wave_mark() -> Seq<u8> {
    seq![0x57u8, 0x41, 0x56, 0x45]
}

pub open spec fn format_mark() -> Seq<u8> {
    seq![0x66u8, 0x6d, 0x74, 0x20]
}

pub open spec fn data_mark() -> Seq<u8> {
    seq![0x64u8, 0x61, 0x74, 0x61]
}

/// The little-endian number in the four bytes from `at` on.
pub open spec fn little32(data: Seq<u8>, at: int) -> int {
    data[at] + 0x100 * data[at + 1] + 0x1_0000 * data[at + 2] + 0x100_0000 * data[at + 3]
}

/// The little-endian number in the two bytes from `at` on.
pub open spec fn little16(data: Seq<u8>, at: int) -> int {
    data[at] + 0x100 * data[at + 1]
}

/// What a search found: the payload where the format says that it is MP3.
pub open spec fn payload(format: Option<int>, range: Option<(int, int)>) -> Option<(int, int)> {
    if format == Some(0x50int) || format == Some(0x55int) {
        range
    } else {
        None
    }
}

/// Whether the chunk at `at` tells the format.
pub open spec fn is_format(data: Seq<u8>, at: int) -> bool {
    four(data, at) == format_mark() && little32(data, at + 4) >= 2
}

/// The format after the chunk at `at`.
pub open spec fn format_after(data: Seq<u8>, at: int, format: Option<int>) -> Option<int> {
    if is_format(data, at) {
        Some(little16(data, at + 8))
    } else {
        format
    }
}

/// The payload's place after the chunk at `at`.
pub open spec fn range_after(data: Seq<u8>, at: int, range: Option<(int, int)>) -> Option<
    (int, int),
> {
    if four(data, at) == data_mark() {
        Some((at + 8, little32(data, at + 4)))
    } else {
        range
    }
}

/// Where the chunk after the one at `at` starts: chunks have even lengths.
pub open spec fn next_chunk(data: Seq<u8>, at: int) -> int {
    at + 8 + little32(data, at + 4) + little32(data, at + 4) % 2
}

/// The search over the chunks from `at` on: it ends when both a format and a
/// payload are known, or with the file.
pub open spec fn chunks(
    data: Seq<u8>,
    at: int,
    format: Option<int>,
    range: Option<(int, int)>,
) -> Result<Option<(int, int)>, ProbeError>
    decreases data.len() - at,
{
    if at < 0 || at + 8 > data.len() {
        Ok(payload(format, range))
    } else if is_format(data, at) && at + 10 > data.len() {
        Err(ProbeError::UnexpectedEnd)
    } else {
        let format2 = format_after(data, at, format);
        let range2 = range_after(data, at, range);
        if (format2 is Some && range2 is Some) || next_chunk(data, at) > data.len() {
            Ok(payload(format2, range2))
        } else {
            chunks(data, next_chunk(data, at), format2, range2)
        }
    }
}

/// The search in a RIFF/WAVE file that starts at `at`.
pub open spec fn wave_from(data: Seq<u8>, at: int) -> Result<Option<(int, int)>, ProbeError> {
    if at + 12 > data.len() || four(data, at) != riff_mark() || four(data, at + 8) != wave_mark() {
        Ok(None)
    } else {
        chunks(data, at + 12, None, None)
    }
}

/// Where the MP3 payload of a RIFF/WAVE file is, offset and length, past any
/// number of ID3v2 tags in front of the RIFF header.
pub open spec fn wave_payload(data: Seq<u8>) -> Result<Option<(int, int)>, ProbeError> {
    wave_from(data, tags_end(data, 0))
}

/// What a search's outcome says.
pub open spec fn outcome(r: Result<Option<(u64, u64)>, ProbeError>) -> Result<
    Option<(int, int)>,
    ProbeError,
> {
    match r {
        Ok(Some(range)) => Ok(Some((range.0 as int, range.1 as int))),
        Ok(None) => Ok(None),
        Err(e) => Err(e),
    }
}

fn mark_at(data: &[u8], at: usize, a: u8, b: u8, c: u8, d: u8) -> (r: bool)
    requires
        at <= data@.len() - 4,
    ensures
        r == (four(data@, at as int) == seq![a, b, c, d]),
{
    let r = data[at] == a && data[at + 1] == b && data[at + 2] == c && data[at + 3] == d;
    proof {
        let piece = four(data@, at as int);
        assert(piece[0] == data@[at as int]);
        assert(piece[1] == data@[at + 1]);
        assert(piece[2] == data@[at + 2]);
        assert(piece[3] == data@[at + 3]);
        if r {
            assert(piece =~= seq![a, b, c, d]);
        } else if piece == seq![a, b, c, d] {
            assert(seq![a, b, c, d][0] == a && seq![a, b, c, d][1] == b && seq![a, b, c, d][2] == c
                && seq![a, b, c, d][3] == d);
        }
    }
    r
}

/// Skips the tags in front. `None`: they reach to the end of the file or past it.
fn skip_tags(data: &[u8]) -> (r: Option<usize>)
    ensures
        match r {
            Some(at) => at == tags_end(data@, 0) && at <= data@.len(),
            None => tags_end(data@, 0) > data@.len(),
        },
{
    let mut at: usize = 0;
    while data.len() - at >= 10
        invariant
            at <= data@.len(),
            tags_end(data@, at as int) == tags_end(data@, 0),
        decreases data@.len() - at,
    {
        match tag_size_at(data, at) {
            None => {
                return Some(at);
            },
            Some(size) => {
                if size as u64 > (data.len() - at - 10) as u64 {
                    return None;
                }
                at = at + 10 + size as usize;
            },
        }
    }
    Some(at)
}

/// Where the MP3 payload of a RIFF/WAVE file is: its offset and its length as
/// the file states them.
pub fn wave_mp3_data_range(data: &[u8]) -> (r: Result<Option<(u64, u64)>, ProbeError>)
    ensures
        outcome(r) == wave_payload(data@),
{
    let start = match skip_tags(data) {
        Some(at) => at,
        None => {
            return Ok(None);
        },
    };
    if data.len() - start < 12 {
        return Ok(None);
    }
    if !mark_at(data, start, 0x52, 0x49, 0x46, 0x46) || !mark_at(
        data,
        start + 8,
        0x57,
        0x41,
        0x56,
        0x45,
    ) {
        return Ok(None);
    }
    let mut at: usize = start + 12;
    let mut format: Option<u16> = None;
    let mut range: Option<(u64, u64)> = None;
    while data.len() - at >= 8
        invariant
            at <= data@.len(),
            wave_payload(data@) == chunks(
                data@,
                at as int,
                format_value(format),
                range_value(range),
            ),
            format is None || range is None,
        decreases data@.len() - at,
    {
        let size: u64 = data[at + 4] as u64 + 0x100 * data[at + 5] as u64 + 0x1_0000 * data[at
            + 6] as u64 + 0x100_0000 * data[at + 7] as u64;
        let place: usize = at + 8;
        if mark_at(data, at, 0x66, 0x6d, 0x74, 0x20) && size >= 2 {
            if data.len() - place < 2 {
                return Err(ProbeError::UnexpectedEnd);
            }
            format = Some(data[place] as u16 + 0x100 * data[place + 1] as u16);
        }
        if mark_at(data, at, 0x64, 0x61, 0x74, 0x61) {
            range = Some((place as u64, size));
        }
        if format.is_some() && range.is_some() {
            return Ok(found(format, range));
        }
        let padded: u64 = size + size % 2;
        if padded > (data.len() - place) as u64 {
            return Ok(found(format, range));
        }
        at = place + padded as usize;
    }
    Ok(found(format, range))
}

spec fn format_value(format: Option<u16>) -> Option<int> {
    match format {
        Some(x) => Some(x as int),
        None => None,
    }
}

spec fn range_value(range: Option<(u64, u64)>) -> Option<(int, int)> {
    match range {
        Some(x) => Some((x.0 as int, x.1 as int)),
        None => None,
    }
}

fn found(format: Option<u16>, range: Option<(u64, u64)>) -> (r: Option<(u64, u64)>)
    ensures
        range_value(r) == payload(format_value(format), range_value(range)),
{
    match format {
        Some(tag) => {
            if tag == 0x50 || tag == 0x55 {
                range
            } else {
                None
            }
        },
        None => None,
    }
}

/// A finding moved by `n` bytes.
pub open spec fn moved(r: Result<Option<(int, int)>, ProbeError>, n: int) -> Result<
    Option<(int, int)>,
    ProbeError,
> {
    match r {
        Ok(Some(range)) => Ok(Some((range.0 + n, range.1))),
        other => other,
    }
}

proof fn lemma_four_moved(front: Seq<u8>, data: Seq<u8>, at: int)
    requires
        0 <= at,
        at + 4 <= data.len(),
    ensures
        four(front + data, front.len() + at) == four(data, at),
        little32(front + data, front.len() + at) == little32(data, at),
{
    assert(four(front + data, front.len() + at) =~= four(data, at));
}

proof fn lemma_chunks_moved(
    front: Seq<u8>,
    data: Seq<u8>,
    at: int,
    format: Option<int>,
    range: Option<(int, int)>,
)
    requires
        0 <= at,
    ensures
        chunks(
            front + data,
            front.len() + at,
            format,
            match range {
                Some(x) => Some((x.0 + front.len(), x.1)),
                None => None,
            },
        ) == moved(chunks(data, at, format, range), front.len() as int),
    decreases data.len() - at,
{
    let all = front + data;
    let place = front.len() + at;
    if at + 8 <= data.len() {
        lemma_four_moved(front, data, at);
        lemma_four_moved(front, data, at + 4);
        assert(front.len() + (at + 4) == place + 4);
        if is_format(data, at) && at + 10 <= data.len() {
            assert(all[place + 8] == data[at + 8]);
            assert(all[place + 9] == data[at + 9]);
        }
        assert(is_format(all, place) == is_format(data, at));
        assert(next_chunk(all, place) == front.len() + next_chunk(data, at));
        if !(is_format(data, at) && at + 10 > data.len()) {
            let format2 = format_after(data, at, format);
            let range2 = range_after(data, at, range);
            if !((format2 is Some && range2 is Some) || next_chunk(data, at) > data.len()) {
                lemma_chunks_moved(front, data, next_chunk(data, at), format2, range2);
            }
        }
    }
}

proof fn lemma_tags_moved(front: Seq<u8>, data: Seq<u8>, at: int)
    requires
        0 <= at,
    ensures
        tags_end(front + data, front.len() + at) == front.len() + tags_end(data, at),
    decreases data.len() - at,
{
    let all = front + data;
    let place = front.len() + at;
    if at + 10 <= data.len() {
        assert(all[place] == data[at]);
        assert(all[place + 1] == data[at + 1]);
        assert(all[place + 2] == data[at + 2]);
        assert(all.subrange(place + 6, place + 10) =~= data.subrange(at + 6, at + 10));
        if has_tag(data, at) && tag_end(data, at) < data.len() {
            lemma_tags_moved(front, data, tag_end(data, at));
        }
    }
}

/// A complete ID3v2 tag in front of a file moves the payload by the tag's length
/// and changes nothing else: any number of such tags is passed over.
pub proof fn law_tags_in_front_are_skipped(tag: Seq<u8>, data: Seq<u8>)
    requires
        has_tag(tag, 0),
        tag.len() == tag_end(tag, 0),
    ensures
        wave_payload(tag + data) == moved(wave_payload(data), tag.len() as int),
{
    let all = tag + data;
    assert(all[0] == tag[0] && all[1] == tag[1] && all[2] == tag[2]);
    assert(all.subrange(6, 10) =~= tag.subrange(6, 10));
    assert(has_tag(all, 0));
    assert(tag_end(all, 0) == tag.len());
    lemma_tags_moved(tag, data, 0);
    let at = tags_end(data, 0);
    if data.len() == 0 {
        assert(tags_end(all, 0) == tag.len());
        assert(wave_payload(data) == Ok::<Option<(int, int)>, ProbeError>(None));
    } else {
        assert(tags_end(all, 0) == tag.len() + at);
        lemma_tags_end_grows(data, 0);
        if at + 12 <= data.len() {
            lemma_four_moved(tag, data, at);
            lemma_four_moved(tag, data, at + 8);
            assert(tag.len() + (at + 8) == tag.len() + at + 8);
            lemma_chunks_moved(tag, data, at + 12, None, None);
        }
    }
}

proof fn lemma_tags_end_grows(data: Seq<u8>, at: int)
    requires
        0 <= at,
    ensures
        tags_end(data, at) >= at,
    decreases data.len() - at,
{
    if has_tag(data, at) && tag_end(data, at) < data.len() {
        lemma_tags_end_grows(data, tag_end(data, at));
    }
}

/// A payload that is found lies past the RIFF header, and its first byte's place
/// is in the file or at its end.
pub proof fn law_payload_follows_header(data: Seq<u8>)
    ensures
        wave_payload(data) matches Ok(Some(range)) ==> 20 <= range.0 <= data.len() && 0 <= range.1
            <= u32::MAX,
{
    lemma_tags_end_grows(data, 0);
    let at = tags_end(data, 0);
    if at + 12 <= data.len() {
        lemma_chunks_place(data, at + 12, None, None);
    }
}

proof fn lemma_chunks_place(data: Seq<u8>, at: int, format: Option<int>, range: Option<(int, int)>)
    requires
        12 <= at,
        range matches Some(x) ==> 20 <= x.0 <= data.len() && 0 <= x.1 <= u32::MAX,
    ensures
        chunks(data, at, format, range) matches Ok(Some(x)) ==> 20 <= x.0 <= data.len() && 0 <= x.1
            <= u32::MAX,
    decreases data.len() - at,
{
    if at + 8 <= data.len() && !(is_format(data, at) && at + 10 > data.len()) {
        let format2 = format_after(data, at, format);
        let range2 = range_after(data, at, range);
        if !((format2 is Some && range2 is Some) || next_chunk(data, at) > data.len()) {
            lemma_chunks_place(data, next_chunk(data, at), format2, range2);
        }
    }
}

// ── Segments of files ────────────────────────────────────────────────────────

/// A part of a file that is read as if it were a file of its own.
#[derive(Debug, Clone, Copy, PartialEq, Eq, Structural)]
pub struct FileSegment {
    pub start: u64,
    pub len: u64,
    pub pos: u64,
}

/// Where to go in a segment.
#[derive(Debug, Clone, Copy, PartialEq, Eq, Structural)]
pub enum SeekTarget {
    Start(u64),
    End(i64),
    Current(i64),
}

/// The target is outside the segment.
#[derive(Debug, Clone, Copy, PartialEq, Eq, Structural)]
pub struct SeekOutOfBounds;

impl FileSegment {
    /// A segment lies where offsets can reach, and is read inside its bounds.
    pub open spec fn valid(self) -> bool {
        self.start + self.len <= u64::MAX && self.pos <= self.len
    }

    /// Where a target is.
    pub open spec fn target(self, to: SeekTarget) -> int {
        match to {
            SeekTarget::Start(offset) => offset as int,
            SeekTarget::End(offset) => self.len + offset,
            SeekTarget::Current(offset) => self.pos + offset,
        }
    }

    pub fn new(start: u64, len: u64) -> (r: FileSegment)
        ensures
            r == (FileSegment { start, len, pos: 0 }),
    {
        FileSegment { start, len, pos: 0 }
    }

    /// How many bytes to ask the file for when `room` bytes are wanted.
    pub fn read_len(&self, room: usize) -> (n: usize)
        requires
            self.valid(),
        ensures
            n == if self.len - self.pos < room { self.len - self.pos } else { room as int },
    {
        let remaining: u64 = self.len - self.pos;
        if remaining < room as u64 {
            remaining as usize
        } else {
            room
        }
    }

    /// Moves on by what the file gave.
    pub fn advance(&mut self, read: usize)
        requires
            old(self).valid(),
            read <= old(self).len - old(self).pos,
        ensures
            *final(self) == (FileSegment { pos: (old(self).pos + read) as u64, ..*old(self) }),
            final(self).valid(),
    {
        self.pos = self.pos + read as u64;
    }

    /// Moves to a target inside the segment, its end included, and tells where in
    /// the file that is. A target outside changes nothing.
    pub fn seek(&mut self, to: SeekTarget) -> (r: Result<u64, SeekOutOfBounds>)
        requires
            old(self).valid(),
        ensures
            final(self).valid(),
            r is Ok <==> 0 <= old(self).target(to) <= old(self).len,
            r is Ok ==> *final(self) == (FileSegment {
                pos: old(self).target(to) as u64,
                ..*old(self)
            }) && r->Ok_0 == old(self).start + old(self).target(to),
            r is Err ==> *final(self) == *old(self),
    {
        let next: i128 = match to {
            SeekTarget::Start(offset) => offset as i128,
            SeekTarget::End(offset) => self.len as i128 + offset as i128,
            SeekTarget::Current(offset) => self.pos as i128 + offset as i128,
        };
        if next < 0 || next > self.len as i128 {
            return Err(SeekOutOfBounds);
        }
        self.pos = next as u64;
        Ok(self.start + next as u64)
    }
}

// ── Retries ──────────────────────────────────────────────────────────────────

/// A way to read a file.
#[derive(Debug, Clone, Copy, PartialEq, Eq, Structural)]
pub enum ProbeAttempt {
    /// The file from its first byte on.
    Whole,
    /// The file past its ID3v2 tag.
    AfterTag(u64),
    /// The MP3 payload inside a RIFF/WAVE file.
    Payload(u64, u64),
}

/// Whether a probe's message blames the ID3v2 tag.
pub open spec fn blames_tag(message: Seq<char>) -> bool {
    text::has_part(message, "id3v2"@) || text::has_part(message, "malformed"@)
}

/// The way to read a file for playback after reading the whole of it failed:
/// past the tag where the message blames it, else the payload where there is one.
pub open spec fn playback_attempt(
    message: Seq<char>,
    end: Option<u64>,
    range: Option<(u64, u64)>,
) -> Option<ProbeAttempt> {
    if blames_tag(message) && end is Some {
        Some(ProbeAttempt::AfterTag(end->0))
    } else {
        payload_attempt(range)
    }
}

pub open spec fn payload_attempt(range: Option<(u64, u64)>) -> Option<ProbeAttempt> {
    match range {
        Some(at) => Some(ProbeAttempt::Payload(at.0, at.1)),
        None => None,
    }
}

/// The way to read a file for its waveform after `failed` did not work, where
/// `message` is what the first try said: as for playback, and the payload also
/// when reading past the tag failed.
pub open spec fn waveform_attempt(
    failed: ProbeAttempt,
    message: Seq<char>,
    end: Option<u64>,
    range: Option<(u64, u64)>,
) -> Option<ProbeAttempt> {
    match failed {
        ProbeAttempt::Whole => playback_attempt(message, end, range),
        ProbeAttempt::AfterTag(_) => payload_attempt(range),
        ProbeAttempt::Payload(_, _) => None,
    }
}

/// Whether a probe's message blames the ID3v2 tag.
pub fn is_tag_problem(message: &str) -> (r: bool)
    ensures
        r == blames_tag(message@),
{
    contains_part(message, "id3v2") || contains_part(message, "malformed")
}

/// The second try at reading a file for playback; `None`: give up with the first
/// error.
pub fn retry_playback(message: &str, end: Option<u64>, range: Option<(u64, u64)>) -> (r: Option<
    ProbeAttempt,
>)
    ensures
        r == playback_attempt(message@, end, range),
{
    if is_tag_problem(message) {
        if let Some(offset) = end {
            return Some(ProbeAttempt::AfterTag(offset));
        }
    }
    match range {
        Some(at) => Some(ProbeAttempt::Payload(at.0, at.1)),
        None => None,
    }
}

/// The next try at reading a file for its waveform; `None`: give up.
pub fn retry_waveform(
    failed: ProbeAttempt,
    message: &str,
    end: Option<u64>,
    range: Option<(u64, u64)>,
) -> (r: Option<ProbeAttempt>)
    ensures
        r == waveform_attempt(failed, message@, end, range),
{
    match failed {
        ProbeAttempt::Whole => retry_playback(message, end, range),
        ProbeAttempt::AfterTag(_) => match range {
            Some(at) => Some(ProbeAttempt::Payload(at.0, at.1)),
            None => None,
        },
        ProbeAttempt::Payload(_, _) => None,
    }
}

/// In a RIFF/WAVE file the payload is the data chunk behind the format chunk, where the
/// format is one of MPEG audio; other formats have none.
pub proof fn law_payload_is_data_chunk(data: Seq<u8>, n: int, m: int)
    requires
        2 <= n,
        n % 2 == 0,
        20 + n + 8 <= data.len(),
        data.take(4) == seq!['R' as u8, 'I' as u8, 'F' as u8, 'F' as u8],
        data.subrange(8, 12) == seq!['W' as u8, 'A' as u8, 'V' as u8, 'E' as u8],
        data.subrange(12, 16) == seq!['f' as u8, 'm' as u8, 't' as u8, ' ' as u8],
        data[16] + 256 * data[17] + 65536 * data[18] + 16777216 * data[19] == n,
        data.subrange(20 + n, 24 + n) == seq!['d' as u8, 'a' as u8, 't' as u8, 'a' as u8],
        data[24 + n] + 256 * data[25 + n] + 65536 * data[26 + n] + 16777216 * data[27 + n] == m,
    ensures
        data[20] + 256 * data[21] == 0x55 || data[20] + 256 * data[21] == 0x50 ==> wave_payload(
            data,
        ) == Ok::<Option<(int, int)>, ProbeError>(Some((28 + n, m))),
        data[20] + 256 * data[21] != 0x55 && data[20] + 256 * data[21] != 0x50 ==> wave_payload(
            data,
        ) == Ok::<Option<(int, int)>, ProbeError>(None),
{
    assert(data.take(4)[0] == data[0]);
    assert(!has_tag(data, 0));
    assert(four(data, 0) =~= data.take(4));
    assert(four(data, 0) == riff_mark());
    assert(four(data, 8) == wave_mark());
    assert(four(data, 12) == format_mark());
    assert(is_format(data, 12));
    assert(format_mark()[0] != data_mark()[0]);
    assert(four(data, 12) != data_mark());
    assert(next_chunk(data, 12) == 20 + n);
    let format = Some(little16(data, 20));
    assert(four(data, 20 + n) == data_mark());
    assert(four(data, 20 + n) != format_mark());
    assert(chunks(data, 20 + n, format, None) == Ok::<Option<(int, int)>, ProbeError>(
        payload(format, Some((28 + n, m))),
    ));
    assert(chunks(data, 12, None, None) == chunks(data, 20 + n, format, None));
}

/// A file that does not begin with a RIFF/WAVE header has no payload inside.
pub proof fn law_other_files_have_no_payload(data: Seq<u8>)
    requires
        data.len() < 12 || data.take(4) != seq!['R' as u8, 'I' as u8, 'F' as u8, 'F' as u8]
            || data.subrange(8, 12) != seq!['W' as u8, 'A' as u8, 'V' as u8, 'E' as u8],
        data.len() < 10 || data[0] != 'I' as u8,
    ensures
        wave_payload(data) == Ok::<Option<(int, int)>, ProbeError>(None),
{
    assert(!has_tag(data, 0));
    if data.len() >= 12 {
        assert(four(data, 0) =~= data.take(4));
    }
}

/// An odd chunk is followed by a byte of padding.
pub proof fn law_chunks_are_padded(data: Seq<u8>, at: int, n: int)
    requires
        data[at + 4] + 256 * data[at + 5] + 65536 * data[at + 6] + 16777216 * data[at + 7] == n,
    ensures
        n % 2 == 0 ==> next_chunk(data, at) == at + 8 + n,
        n % 2 == 1 ==> next_chunk(data, at) == at + 9 + n,
{
}

/// A file that fails to open is tried again behind its tag, where the tag is blamed, or
/// else from its payload, where it has one. A payload that fails is not tried again.
pub proof fn law_attempts(message: Seq<char>, end: u64, range: (u64, u64), failed: ProbeAttempt)
    ensures
        text::has_part(message, "id3v2"@) || text::has_part(message, "malformed"@) ==> {
            &&& playback_attempt(message, Some(end), Some(range)) == Some(
                ProbeAttempt::AfterTag(end),
            )
            &&& playback_attempt(message, None, Some(range)) == Some(
                ProbeAttempt::Payload(range.0, range.1),
            )
        },
        !text::has_part(message, "id3v2"@) && !text::has_part(message, "malformed"@)
            ==> playback_attempt(message, Some(end), Some(range)) == Some(
            ProbeAttempt::Payload(range.0, range.1),
        ),
        playback_attempt(message, None, None) is None,
        waveform_attempt(ProbeAttempt::Whole, message, Some(end), Some(range)) == playback_attempt(
            message,
            Some(end),
            Some(range),
        ),
        failed is AfterTag ==> waveform_attempt(failed, message, Some(end), Some(range)) == Some(
            ProbeAttempt::Payload(range.0, range.1),
        ),
        failed is AfterTag ==> waveform_attempt(failed, message, Some(end), None) is None,
        failed is Payload ==> waveform_attempt(failed, message, Some(end), Some(range)) is None,
{
}

/// A seek counts from the start, from the end or from the position.
pub proof fn law_seeks_count_from_their_base(s: FileSegment, n: u64, d: i64)
    ensures
        s.target(SeekTarget::Start(n)) == n,
        s.target(SeekTarget::End(d)) - s.len == d,
        s.target(SeekTarget::Current(d)) - s.pos == d,
{
}

/// A read within a segment stops at its end.
pub proof fn law_reads_stop_at_end(s: &FileSegment, room: usize, n: usize)
    requires
        s.valid(),
        call_ensures(FileSegment::read_len, (s, room), n),
    ensures
        n <= room,
        s.pos + n <= s.len,
        n == room || s.pos + n == s.len,
{
}

/// The tag in front of a file ends behind its header and its size.
pub proof fn law_tag_in_front_ends(data: &[u8], r: Option<u64>)
    requires
        call_ensures(id3v2_end_offset, (data,), r),
        data@.len() >= 10,
        data@[6] < 0x80 && data@[7] < 0x80 && data@[8] < 0x80 && data@[9] < 0x80,
    ensures
        r is Some <==> data@[0] == 'I' as u8 && data@[1] == 'D' as u8 && data@[2] == '3' as u8,
        r is Some ==> r->0 == 10 + 2097152 * data@[6] + 16384 * data@[7] + 128 * data@[8]
            + data@[9],
{
    let s = data@.subrange(6, 10);
    assert(s =~= seq![data@[6], data@[7], data@[8], data@[9]]);
    crate::library::tag_writer::layout::law_sizes_are_positional(
        data@[6],
        data@[7],
        data@[8],
        data@[9],
    );
}

} // verus!

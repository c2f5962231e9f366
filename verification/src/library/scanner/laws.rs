//! What is read from a file, and from where.
use vstd::prelude::*;
use vstd::utf8::*;
use crate::digest;
use crate::file_issues;
use crate::file_issues::Duplicate;
use crate::library::tag_writer::{edit, laws as writing, layout, model};
use crate::models::{Id3FrameDebugInfo, MetadataReadResult, TagProperty, TrackMetadata};
use crate::storage::memory;
use crate::storage::memory::{described, laws as stored};
use crate::text;
use super::comments;
use super::duplicates;
use super::frames;
use super::frames::{RawFrame, TagDecodeErrorKind};
use super::raw_tags;
use super::tags;
use super::tags::{FileFacts, Fractions, Info, Picture, TagFields};

verus! {

pub(crate) proof fn lemma_either<A>(a: Seq<A>, b: Seq<A>, x: A)
    ensures
        (a + b).contains(x) <==> a.contains(x) || b.contains(x),
{
    if a.contains(x) {
        let i = choose|i: int| 0 <= i < a.len() && a[i] == x;
        assert((a + b)[i] == x);
    }
    if b.contains(x) {
        let i = choose|i: int| 0 <= i < b.len() && b[i] == x;
        assert((a + b)[a.len() + i] == x);
    }
    if (a + b).contains(x) {
        let i = choose|i: int| 0 <= i < (a + b).len() && (a + b)[i] == x;
        if i < a.len() {
            assert(a[i] == x);
        } else {
            assert(b[i - a.len()] == x);
        }
    }
}

// ── Comments ─────────────────────────────────────────────────────────────────

/// A comment without a hash sign has no hash words, and all of it is plain.
pub proof fn law_plain_comment(s: Seq<char>)
    requires
        !s.contains('#'),
    ensures
        comments::hash_words(s).len() == 0,
        comments::plain_part(s) == s,
{
    text::lemma_first_at(s, '#');
}

/// A hash sign begins a word that goes on to the next blank. The word is one of the tags,
/// unless it is the sign alone, and stays out of the plain part.
pub proof fn law_hash_word_goes_to_blank(
    front: Seq<char>,
    word: Seq<char>,
    blank: char,
    rest: Seq<char>,
)
    requires
        !front.contains('#'),
        forall|i: int| 0 <= i < word.len() ==> !text::is_space(#[trigger] word[i]),
        text::is_space(blank),
    ensures
        comments::hash_words(front + seq!['#'] + word + seq![blank] + rest) == if word.len() > 0 {
            seq![seq!['#'] + word] + comments::hash_words(seq![blank] + rest)
        } else {
            comments::hash_words(seq![blank] + rest)
        },
        comments::plain_part(front + seq!['#'] + word + seq![blank] + rest) == front
            + comments::plain_part(seq![blank] + rest),
        comments::hash_words(front + seq!['#'] + word) == if word.len() > 0 {
            seq![seq!['#'] + word]
        } else {
            Seq::empty()
        },
        comments::plain_part(front + seq!['#'] + word) == front,
{
    lemma_hash_word(front, word, seq![blank] + rest);
    assert(front + seq!['#'] + word + seq![blank] + rest =~= front + seq!['#'] + word + (seq![blank]
        + rest));
    lemma_hash_word(front, word, Seq::empty());
    assert(front + seq!['#'] + word + Seq::<char>::empty() =~= front + seq!['#'] + word);
    assert(!Seq::<char>::empty().contains('#'));
    law_plain_comment(Seq::empty());
    assert(seq![seq!['#'] + word] + comments::hash_words(Seq::empty()) =~= seq![seq!['#'] + word]);
    assert(front + Seq::<char>::empty() =~= front);
}

proof fn lemma_hash_word(front: Seq<char>, word: Seq<char>, tail: Seq<char>)
    requires
        !front.contains('#'),
        forall|i: int| 0 <= i < word.len() ==> !text::is_space(#[trigger] word[i]),
        tail.len() == 0 || text::is_space(tail[0]),
    ensures
        ({
            let s = front + seq!['#'] + word + tail;
            &&& comments::hash_words(s) == if word.len() > 0 {
                seq![seq!['#'] + word] + comments::hash_words(tail)
            } else {
                comments::hash_words(tail)
            }
            &&& comments::plain_part(s) == front + comments::plain_part(tail)
        }),
{
    let s = front + seq!['#'] + word + tail;
    let k = front.len() as int;
    assert forall|i: int| 0 <= i < k implies s[i] != '#' by {
        assert(front.contains(front[i]));
        assert(s[i] == front[i]);
    }
    assert(s[k] == '#');
    text::lemma_first_at_is(s, '#', k);
    comments::lemma_word(s);
    let t = s.skip(k);
    let marks = t.skip(1).map_values(|c: char| text::is_space(c));
    let n = word.len() as int;
    assert forall|i: int| 0 <= i < n implies marks[i] != true by {
        assert(t.skip(1)[i] == word[i]);
    }
    if tail.len() > 0 {
        assert(t.skip(1)[n] == tail[0]);
        assert(marks[n] == true);
    }
    text::lemma_first_at_is(marks, true, n);
    assert(comments::word_len(t) == 1 + n);
    assert(t.take(1 + n) =~= seq!['#'] + word);
    assert(t.skip(1 + n) =~= tail);
    assert(s.take(k) =~= front);
    assert(Seq::<Seq<char>>::empty() + comments::hash_words(tail) =~= comments::hash_words(tail));
}

/// The plain part comes apart at each comma, semicolon and line feed.
pub proof fn law_parts_end_at_separators(a: Seq<char>, b: Seq<char>, separator: char)
    requires
        separator == ',' || separator == ';' || separator == '\n',
        !b.contains(','),
        !b.contains(';'),
        !b.contains('\n'),
    ensures
        comments::parts_of(b) == seq![b],
        comments::parts_of(a + seq![separator] + b) == comments::parts_of(a).push(b),
    decreases b.len(),
{
    let s = a + seq![separator] + b;
    if b.len() == 0 {
        assert(b =~= Seq::empty());
        assert(s =~= a.push(separator));
        assert(s.drop_last() =~= a);
    } else {
        let c = b.last();
        let front = b.drop_last();
        assert(b.contains(c));
        assert forall|x: char| front.contains(x) implies b.contains(x) by {
            let i = choose|i: int| 0 <= i < front.len() && front[i] == x;
            assert(b[i] == x);
        }
        law_parts_end_at_separators(a, front, separator);
        assert(s.drop_last() =~= a + seq![separator] + front);
        assert(front.push(c) =~= b);
        let parts = comments::parts_of(a);
        assert(parts.push(front).drop_last() =~= parts);
        assert(seq![front].drop_last() =~= Seq::empty());
        assert(comments::parts_of(b) =~= seq![b]);
    }
}

/// The tags in a comment are its hash words and the parts of the rest, without blanks
/// around them and where anything is left.
pub proof fn law_comment_tags(s: Seq<char>, tag: Seq<char>)
    ensures
        comments::comment_tags(s).contains(tag) <==> comments::hash_words(s).contains(tag) || (
        tag.len() > 0 && exists|i: int|
            0 <= i < comments::parts_of(comments::plain_part(s)).len() && text::trim(
                #[trigger] comments::parts_of(comments::plain_part(s))[i],
            ) == tag),
{
    let parts = comments::parts_of(comments::plain_part(s));
    let f = |p: Seq<char>| described::clean_part(p);
    lemma_either(comments::hash_words(s), parts.filter_map(f), tag);
    if parts.filter_map(f).contains(tag) {
        text::lemma_filter_map_source(parts, f, tag);
        let i = choose|i: int| 0 <= i < parts.len() && f(#[trigger] parts[i]) == Some(tag);
        assert(text::trim(parts[i]) == tag);
    }
    if tag.len() > 0 && exists|i: int|
        0 <= i < parts.len() && text::trim(#[trigger] parts[i]) == tag {
        let i = choose|i: int| 0 <= i < parts.len() && text::trim(#[trigger] parts[i]) == tag;
        text::lemma_filter_map_keeps(parts, f, i);
    }
}

// ── Duplicates ───────────────────────────────────────────────────────────────

/// Whether a duplicate tells that the value picked for a field is not the first in the
/// file.
pub open spec fn tells_of(
    d: Duplicate,
    found: Seq<(Seq<char>, Seq<char>)>,
    frame: Seq<char>,
    field: Seq<char>,
    picked: Option<String>,
) -> bool {
    &&& d.frame_id == frame
    &&& d.field_name == field
    &&& picked is Some
    &&& d.lofty_value == picked->0@
    &&& stored::first_says(found, frame, d.corrected_value)
    &&& d.corrected_value != d.lofty_value
}

/// The duplicates are just the fields, of title, artist, album artist and album, for
/// which another value was picked than the first in the file.
pub proof fn law_differences_are_told(data: Seq<u8>, meta: TrackMetadata, d: Duplicate)
    ensures
        ({
            let found = edit::collapsed(data);
            duplicates::differences(data, meta).contains(d) <==> tells_of(
                d,
                found,
                "TIT2"@,
                "title"@,
                meta.title,
            ) || tells_of(d, found, "TPE1"@, "artist"@, meta.artist) || tells_of(
                d,
                found,
                "TPE2"@,
                "album artist"@,
                meta.album_artist,
            ) || tells_of(d, found, "TALB"@, "album"@, meta.album)
        }),
{
    let found = edit::collapsed(data);
    let a = duplicates::difference(found, "TIT2"@, text::opt_text(meta.title));
    let b = duplicates::difference(found, "TPE1"@, text::opt_text(meta.artist));
    let c = duplicates::difference(found, "TPE2"@, text::opt_text(meta.album_artist));
    let e = duplicates::difference(found, "TALB"@, text::opt_text(meta.album));
    lemma_either(a + b + c, e, d);
    lemma_either(a + b, c, d);
    lemma_either(a, b, d);
    law_fields_are_named();
    lemma_difference(found, "TIT2"@, "title"@, meta.title, d);
    lemma_difference(found, "TPE1"@, "artist"@, meta.artist, d);
    lemma_difference(found, "TPE2"@, "album artist"@, meta.album_artist, d);
    lemma_difference(found, "TALB"@, "album"@, meta.album, d);
}

proof fn lemma_difference(
    found: Seq<(Seq<char>, Seq<char>)>,
    frame: Seq<char>,
    field: Seq<char>,
    picked: Option<String>,
    d: Duplicate,
)
    requires
        super::field_name(frame) == field,
    ensures
        duplicates::difference(found, frame, text::opt_text(picked)).contains(d) <==> tells_of(
            d,
            found,
            frame,
            field,
            picked,
        ),
{
    stored::law_first_tag_counts(found, frame);
    let s = duplicates::difference(found, frame, text::opt_text(picked));
    let v = memory::tag_value(found, frame);
    if v is Some {
        assert(stored::first_says(found, frame, v->0));
    }
    if s.contains(d) {
        assert(s.len() == 1 && s[0] == d);
    }
    if tells_of(d, found, frame, field, picked) {
        assert(v == Some(d.corrected_value));
        assert(s[0] == d);
    }
}

/// The readable names of the frames of version three, and of their shorter names of
/// version two.
pub proof fn law_fields_are_named()
    ensures
        super::field_name("TIT2"@) == "title"@ && super::field_name("TT2"@) == "title"@,
        super::field_name("TPE1"@) == "artist"@ && super::field_name("TP1"@) == "artist"@,
        super::field_name("TPE2"@) == "album artist"@ && super::field_name("TP2"@)
            == "album artist"@,
        super::field_name("TALB"@) == "album"@ && super::field_name("TAL"@) == "album"@,
        super::field_name("TRCK"@) == "track number"@ && super::field_name("TRK"@)
            == "track number"@,
        super::field_name("TPOS"@) == "disc number"@ && super::field_name("TPA"@)
            == "disc number"@,
        super::field_name("TYER"@) == "year"@ && super::field_name("TYE"@) == "year"@
            && super::field_name("TDRC"@) == "year"@,
        super::field_name("TCON"@) == "genre"@ && super::field_name("TCO"@) == "genre"@,
        super::field_name("TXXX"@) == "user-defined text"@ && super::field_name("TXX"@)
            == "user-defined text"@,
        super::field_name("TBPM"@) == "BPM"@ && super::field_name("TBP"@) == "BPM"@,
        super::field_name("TCOM"@) == "composer"@ && super::field_name("TCM"@) == "composer"@,
        super::field_name("TPUB"@) == "publisher"@ && super::field_name("TPB"@) == "publisher"@,
        super::field_name("TIT1"@) == "content group"@ && super::field_name("TT1"@)
            == "content group"@,
        super::field_name("TIT3"@) == "subtitle"@ && super::field_name("TT3"@) == "subtitle"@,
        super::field_name("TOPE"@) == "original artist"@ && super::field_name("TOA"@)
            == "original artist"@,
        super::field_name("COMM"@) == "comment"@ && super::field_name("COM"@) == "comment"@,
        super::field_name("APIC"@) == "unknown field"@,
{
    lemma_long_names();
    lemma_short_names();
}

proof fn lemma_long_names()
    ensures
        super::field_name("TIT2"@) == "title"@,
        super::field_name("TPE1"@) == "artist"@,
        super::field_name("TPE2"@) == "album artist"@,
        super::field_name("TALB"@) == "album"@,
        super::field_name("TRCK"@) == "track number"@,
        super::field_name("TPOS"@) == "disc number"@,
        super::field_name("TYER"@) == "year"@,
        super::field_name("TDRC"@) == "year"@,
        super::field_name("TCON"@) == "genre"@,
        super::field_name("TXXX"@) == "user-defined text"@,
        super::field_name("TBPM"@) == "BPM"@,
        super::field_name("TCOM"@) == "composer"@,
        super::field_name("TPUB"@) == "publisher"@,
        super::field_name("TIT1"@) == "content group"@,
        super::field_name("TIT3"@) == "subtitle"@,
        super::field_name("TOPE"@) == "original artist"@,
        super::field_name("COMM"@) == "comment"@,
        super::field_name("APIC"@) == "unknown field"@,
{
    lemma_reveal_names();
    assert("TIT2"@[1] == 'I' && "TIT2"@[3] == '2');
    assert("TPE1"@[1] == 'P' && "TPE1"@[2] == 'E' && "TPE1"@[3] == '1');
    assert("TPE2"@[1] == 'P' && "TPE2"@[2] == 'E' && "TPE2"@[3] == '2');
    assert("TALB"@[1] == 'A');
    assert("TRCK"@[1] == 'R');
    assert("TPOS"@[1] == 'P' && "TPOS"@[2] == 'O');
    assert("TYER"@[1] == 'Y');
    assert("TDRC"@[1] == 'D');
    assert("TCON"@[1] == 'C' && "TCON"@[3] == 'N');
    assert("TXXX"@[1] == 'X');
    assert("TBPM"@[1] == 'B');
    assert("TCOM"@[1] == 'C' && "TCOM"@[3] == 'M');
    assert("TCOM"@.len() == 4 && "TCO"@.len() == 3);
    assert("TCOM"@ != "TCON"@ && "TCOM"@ != "TCO"@);
    assert("TPUB"@[1] == 'P' && "TPUB"@[2] == 'U');
    assert("TIT1"@[1] == 'I' && "TIT1"@[3] == '1');
    assert("TIT3"@[1] == 'I' && "TIT3"@[3] == '3');
    assert("TOPE"@[1] == 'O');
    assert("COMM"@[0] == 'C');
    assert("APIC"@[0] == 'A');
}

proof fn lemma_short_names()
    ensures
        super::field_name("TT2"@) == "title"@,
        super::field_name("TP1"@) == "artist"@,
        super::field_name("TP2"@) == "album artist"@,
        super::field_name("TAL"@) == "album"@,
        super::field_name("TRK"@) == "track number"@,
        super::field_name("TPA"@) == "disc number"@,
        super::field_name("TYE"@) == "year"@,
        super::field_name("TCO"@) == "genre"@,
        super::field_name("TXX"@) == "user-defined text"@,
        super::field_name("TBP"@) == "BPM"@,
        super::field_name("TCM"@) == "composer"@,
        super::field_name("TPB"@) == "publisher"@,
        super::field_name("TT1"@) == "content group"@,
        super::field_name("TT3"@) == "subtitle"@,
        super::field_name("TOA"@) == "original artist"@,
        super::field_name("COM"@) == "comment"@,
{
    lemma_reveal_names();
    assert("TT2"@[1] == 'T' && "TT2"@[2] == '2');
    assert("TP1"@[1] == 'P' && "TP1"@[2] == '1');
    assert("TP2"@[1] == 'P' && "TP2"@[2] == '2');
    assert("TAL"@[1] == 'A');
    assert("TRK"@[1] == 'R');
    assert("TPA"@[1] == 'P' && "TPA"@[2] == 'A');
    assert("TYE"@[1] == 'Y');
    assert("TCO"@[1] == 'C' && "TCO"@[2] == 'O');
    assert("TXX"@[1] == 'X');
    assert("TBP"@[1] == 'B');
    assert("TCM"@[1] == 'C' && "TCM"@[2] == 'M');
    assert("TPB"@[1] == 'P' && "TPB"@[2] == 'B');
    assert("TT1"@[1] == 'T' && "TT1"@[2] == '1');
    assert("TT3"@[1] == 'T' && "TT3"@[2] == '3');
    assert("TOA"@[1] == 'O');
    assert("COM"@[0] == 'C');
}

proof fn lemma_reveal_names()
    ensures
        "TIT2"@ == seq!['T', 'I', 'T', '2'],
        "TPE1"@ == seq!['T', 'P', 'E', '1'],
        "TPE2"@ == seq!['T', 'P', 'E', '2'],
        "TALB"@ == seq!['T', 'A', 'L', 'B'],
        "TRCK"@ == seq!['T', 'R', 'C', 'K'],
        "TPOS"@ == seq!['T', 'P', 'O', 'S'],
        "TYER"@ == seq!['T', 'Y', 'E', 'R'],
        "TDRC"@ == seq!['T', 'D', 'R', 'C'],
        "TCON"@ == seq!['T', 'C', 'O', 'N'],
        "TXXX"@ == seq!['T', 'X', 'X', 'X'],
        "TBPM"@ == seq!['T', 'B', 'P', 'M'],
        "TCOM"@ == seq!['T', 'C', 'O', 'M'],
        "TPUB"@ == seq!['T', 'P', 'U', 'B'],
        "TIT1"@ == seq!['T', 'I', 'T', '1'],
        "TIT3"@ == seq!['T', 'I', 'T', '3'],
        "TOPE"@ == seq!['T', 'O', 'P', 'E'],
        "COMM"@ == seq!['C', 'O', 'M', 'M'],
        "APIC"@ == seq!['A', 'P', 'I', 'C'],
        "TT2"@ == seq!['T', 'T', '2'],
        "TP1"@ == seq!['T', 'P', '1'],
        "TP2"@ == seq!['T', 'P', '2'],
        "TAL"@ == seq!['T', 'A', 'L'],
        "TRK"@ == seq!['T', 'R', 'K'],
        "TPA"@ == seq!['T', 'P', 'A'],
        "TYE"@ == seq!['T', 'Y', 'E'],
        "TCO"@ == seq!['T', 'C', 'O'],
        "TXX"@ == seq!['T', 'X', 'X'],
        "TBP"@ == seq!['T', 'B', 'P'],
        "TCM"@ == seq!['T', 'C', 'M'],
        "TPB"@ == seq!['T', 'P', 'B'],
        "TT1"@ == seq!['T', 'T', '1'],
        "TT3"@ == seq!['T', 'T', '3'],
        "TOA"@ == seq!['T', 'O', 'A'],
        "COM"@ == seq!['C', 'O', 'M'],
{
    reveal_strlit("TIT2");
    reveal_strlit("TPE1");
    reveal_strlit("TPE2");
    reveal_strlit("TALB");
    reveal_strlit("TRCK");
    reveal_strlit("TPOS");
    reveal_strlit("TYER");
    reveal_strlit("TDRC");
    reveal_strlit("TCON");
    reveal_strlit("TXXX");
    reveal_strlit("TBPM");
    reveal_strlit("TCOM");
    reveal_strlit("TPUB");
    reveal_strlit("TIT1");
    reveal_strlit("TIT3");
    reveal_strlit("TOPE");
    reveal_strlit("COMM");
    reveal_strlit("APIC");
    reveal_strlit("TT2");
    reveal_strlit("TP1");
    reveal_strlit("TP2");
    reveal_strlit("TAL");
    reveal_strlit("TRK");
    reveal_strlit("TPA");
    reveal_strlit("TYE");
    reveal_strlit("TCO");
    reveal_strlit("TXX");
    reveal_strlit("TBP");
    reveal_strlit("TCM");
    reveal_strlit("TPB");
    reveal_strlit("TT1");
    reveal_strlit("TT3");
    reveal_strlit("TOA");
    reveal_strlit("COM");
}

// ── Frames ───────────────────────────────────────────────────────────────────

/// The byte in front of a text tells its encoding.
pub proof fn law_encodings_are_named(byte: u8)
    ensures
        frames::encoding_name(0) == "ISO-8859-1 / Latin-1"@,
        frames::encoding_name(1) == "UTF-16 with BOM"@,
        frames::encoding_name(2) == "UTF-16BE without BOM"@,
        frames::encoding_name(3) == "UTF-8"@,
        byte > 3 ==> frames::encoding_name(byte) == "unknown"@,
{
}

/// UTF-16 reads back, in either byte order and with a mark; a surrogate without its other
/// half, or half a code unit, is no text.
pub proof fn law_strict_utf16_reads_back(s: Seq<char>)
    ensures
        frames::utf16_bytes_text(writing::little_endian(writing::text_units(s)), true) == Some(s),
        frames::utf16_bytes_text(writing::big_endian(writing::text_units(s)), false) == Some(s),
        frames::utf16_marked_text(
            seq![0xFFu8, 0xFEu8] + writing::little_endian(writing::text_units(s)),
        ) == Some(s),
        frames::utf16_marked_text(
            seq![0xFEu8, 0xFFu8] + writing::big_endian(writing::text_units(s)),
        ) == Some(s),
        forall|bytes: Seq<u8>, little: bool|
            bytes.len() % 2 == 1 ==> #[trigger] frames::utf16_bytes_text(bytes, little) is None,
        forall|unit: u16, rest: Seq<u16>|
            0xDC00 <= unit <= 0xDFFF || (0xD800 <= unit <= 0xDBFF && (rest.len() == 0 || rest[0]
                < 0xDC00 || rest[0] > 0xDFFF)) ==> frames::utf16_text(
                #[trigger] (seq![unit] + rest),
            ) is None,
{
    let units = writing::text_units(s);
    let l = writing::little_endian(units);
    let b = writing::big_endian(units);
    writing::law_units_read_back(units);
    lemma_strict_units(s);
    assert((seq![0xFFu8, 0xFEu8] + l).skip(2) =~= l);
    assert((seq![0xFEu8, 0xFFu8] + b).skip(2) =~= b);
    assert forall|unit: u16, rest: Seq<u16>|
        0xDC00 <= unit <= 0xDFFF || (0xD800 <= unit <= 0xDBFF && (rest.len() == 0 || rest[0]
            < 0xDC00 || rest[0] > 0xDFFF)) implies frames::utf16_text(
        #[trigger] (seq![unit] + rest),
    ) is None by {
        let all = seq![unit] + rest;
        if rest.len() > 0 {
            assert(all[1] == rest[0]);
        }
    }
}

proof fn lemma_strict_units(s: Seq<char>)
    ensures
        frames::utf16_text(writing::text_units(s)) == Some(s),
    decreases s.len(),
{
    if s.len() > 0 {
        let u = writing::char_units(s[0]);
        let rest = writing::text_units(s.skip(1));
        let units = writing::text_units(s);
        writing::lemma_char_units(s[0]);
        lemma_strict_units(s.skip(1));
        assert(units[0] == u[0]);
        assert(units.skip(u.len() as int) =~= rest);
        if u.len() == 2 {
            assert(units[1] == u[1]);
        }
        assert(seq![s[0]] + s.skip(1) =~= s);
    }
}

/// The value of a hexadecimal digit in upper case.
pub open spec fn upper_value(c: char) -> int {
    if '0' <= c <= '9' {
        c as int - '0' as int
    } else if 'A' <= c <= 'F' {
        c as int - 'A' as int + 10
    } else {
        -1
    }
}

proof fn lemma_upper_value(n: int)
    requires
        0 <= n < 16,
    ensures
        upper_value(frames::upper_digit(n)) == n,
{
}

/// Bytes are shown as pairs of hexadecimal digits with a blank between them.
pub proof fn law_hex_pairs_read_back(bytes: Seq<u8>, i: int)
    requires
        0 <= i < bytes.len(),
    ensures
        frames::hex_pairs(bytes).len() == 3 * bytes.len() - 1,
        16 * upper_value(frames::hex_pairs(bytes)[3 * i]) + upper_value(
            frames::hex_pairs(bytes)[3 * i + 1],
        ) == bytes[i],
        0 <= upper_value(frames::hex_pairs(bytes)[3 * i + 1]) < 16,
        i + 1 < bytes.len() ==> frames::hex_pairs(bytes)[3 * i + 2] == ' ',
    decreases bytes.len(),
{
    let front = bytes.drop_last();
    let b = bytes.last() as int;
    lemma_upper_value(b / 16);
    lemma_upper_value(b % 16);
    if front.len() > 0 {
        law_hex_pairs_read_back(front, if i < front.len() {
            i
        } else {
            0
        });
    }
}

/// What is shown of bytes is their front, as far as the limit goes.
pub proof fn law_shown_bytes_are_front(bytes: Seq<u8>, max_len: nat, i: int)
    ensures
        frames::shown(bytes, max_len).len() <= max_len,
        frames::shown(bytes, max_len).len() == bytes.len() || frames::shown(bytes, max_len).len()
            == max_len,
        0 <= i < frames::shown(bytes, max_len).len() ==> frames::shown(bytes, max_len)[i]
            == bytes[i],
{
}

/// The sizes of frames: three bytes in version two, four in version three, and four of
/// seven bits in version four.
pub proof fn law_frame_sizes(data: Seq<u8>, pos: int)
    requires
        0 <= pos,
        pos + 8 <= data.len(),
    ensures
        frames::content_size(data, 2, pos) == 65536 * data[pos + 3] + 256 * data[pos + 4]
            + data[pos + 5],
        frames::content_size(data, 3, pos) == 16777216 * data[pos + 4] + 65536 * data[pos + 5] + 256
            * data[pos + 6] + data[pos + 7],
        data[pos + 4] < 0x80 && data[pos + 5] < 0x80 && data[pos + 6] < 0x80 && data[pos + 7] < 0x80
            ==> frames::content_size(data, 4, pos) == 2097152 * data[pos + 4] + 16384 * data[pos
            + 5] + 128 * data[pos + 6] + data[pos + 7],
        frames::header_len(2) == 6 && frames::id_len(2) == 3,
        frames::header_len(3) == 10 && frames::id_len(3) == 4,
        frames::header_len(4) == 10 && frames::id_len(4) == 4,
{
    let s = data.subrange(pos + 4, pos + 8);
    assert(s =~= seq![data[pos + 4], data[pos + 5], data[pos + 6], data[pos + 7]]);
    layout::law_sizes_are_positional(data[pos + 4], data[pos + 5], data[pos + 6], data[pos + 7]);
}

/// The frames of a tag are read one behind the other: each with its identifier and its
/// content. The last one may be cut short; a zero byte, or less than a header, ends them.
pub proof fn law_frames_are_read_in_turn(data: Seq<u8>, version: u8, pos: int, end: int)
    requires
        version == 3,
        0 <= pos <= end <= data.len(),
    ensures
        pos + 10 > end || data[pos] == 0 ==> frames::frames_from(data, version, pos, end).len()
            == 0,
        pos + 10 <= end && data[pos] != 0 && valid_utf8(data.subrange(pos, pos + 4)) ==> {
            let n = 16777216 * data[pos + 4] + 65536 * data[pos + 5] + 256 * data[pos + 6]
                + data[pos + 7];
            &&& n == 0 ==> frames::frames_from(data, version, pos, end) == frames::frames_from(
                data,
                version,
                pos + 10,
                end,
            )
            &&& n > 0 && pos + 10 + n < end ==> frames::frames_from(data, version, pos, end)
                == seq![
                (data.subrange(pos, pos + 4), data.subrange(pos + 10, pos + 10 + n)),
            ] + frames::frames_from(data, version, pos + 10 + n, end)
            &&& n > 0 && pos + 10 + n >= end ==> frames::frames_from(data, version, pos, end)
                == seq![(data.subrange(pos, pos + 4), data.subrange(pos + 10, end))]
        },
{
    if pos + 10 <= end {
        law_frame_sizes(data, pos);
    }
}

/// A tag that is read begins with `ID3`, and ends where its size says, or with the file.
/// Its frames begin behind the header, or behind the extended header where that is
/// flagged.
pub proof fn law_tag_that_is_read(data: Seq<u8>)
    requires
        data.len() >= 14,
        data[6] < 0x80,
        data[7] < 0x80,
        data[8] < 0x80,
        data[9] < 0x80,
    ensures
        data[0] == 'I' as u8 && data[1] == 'D' as u8 && data[2] == '3' as u8
            <==> frames::begins_tag(data),
        !frames::begins_tag(data) ==> frames::tag_content(data).len() == 0,
        ({
            let end = 10 + 2097152 * data[6] + 16384 * data[7] + 128 * data[8] + data[9];
            frames::tag_end(data) == if end < data.len() {
                end
            } else {
                data.len() as int
            }
        }),
        data[5] & 0x40 == 0 || data[3] < 3 || frames::tag_end(data) < 14 ==> frames::frames_start(
            data,
        ) == 10,
        data[5] & 0x40 != 0 && data[3] == 3 && frames::tag_end(data) >= 14 ==> frames::frames_start(
            data,
        ) == 10 + 16777216 * data[10] + 65536 * data[11] + 256 * data[12] + data[13],
{
    let s = data.subrange(6, 10);
    assert(s =~= seq![data[6], data[7], data[8], data[9]]);
    layout::law_sizes_are_positional(data[6], data[7], data[8], data[9]);
    let t = data.subrange(10, 14);
    assert(t =~= seq![data[10], data[11], data[12], data[13]]);
    layout::law_sizes_are_positional(data[10], data[11], data[12], data[13]);
}

/// The frame with a problem that is told is the first that has it.
pub proof fn law_first_problem_is_told(s: Seq<RawFrame>, kind: TagDecodeErrorKind, id: Seq<char>)
    ensures
        0 <= frames::problem_at(s, kind) <= s.len(),
        forall|i: int|
            0 <= i < frames::problem_at(s, kind) ==> !frames::is_problem(#[trigger] s[i], kind),
        frames::problem_at(s, kind) < s.len() ==> frames::is_problem(
            s[frames::problem_at(s, kind)],
            kind,
        ),
        0 <= frames::frame_at(s, id) <= s.len(),
        forall|i: int| 0 <= i < frames::frame_at(s, id) ==> decode_utf8((#[trigger] s[i]).0) != id,
        frames::frame_at(s, id) < s.len() ==> decode_utf8(s[frames::frame_at(s, id)].0) == id,
    decreases s.len(),
{
    if s.len() > 0 {
        let rest = s.skip(1);
        law_first_problem_is_told(rest, kind, id);
        assert forall|i: int| 0 <= i < frames::problem_at(s, kind) implies !frames::is_problem(
            #[trigger] s[i],
            kind,
        ) by {
            if i > 0 {
                assert(rest[i - 1] == s[i]);
            }
        }
        assert forall|i: int| 0 <= i < frames::frame_at(s, id) implies decode_utf8(
            (#[trigger] s[i]).0,
        ) != id by {
            if i > 0 {
                assert(rest[i - 1] == s[i]);
            }
        }
    }
}

/// A problem is a frame of text, or a comment, that is said to be UTF-16 and has half a
/// code unit, or said to be UTF-8 and is not.
pub proof fn law_problems(id: Seq<u8>, bytes: Seq<u8>, c: Seq<char>)
    requires
        decode_utf8(id) == seq!['T'] + c || decode_utf8(id) == "COMM"@ || decode_utf8(id) == "COM"@,
        bytes.len() > 0,
    ensures
        frames::is_problem((id, seq![1u8] + bytes), TagDecodeErrorKind::Utf16OddLength)
            <==> bytes.len() % 2 == 1,
        frames::is_problem((id, seq![3u8] + bytes), TagDecodeErrorKind::InvalidUtf8)
            <==> !valid_utf8(bytes),
        !frames::is_problem((id, seq![3u8] + bytes), TagDecodeErrorKind::Utf16OddLength),
        !frames::is_problem((id, seq![1u8] + bytes), TagDecodeErrorKind::InvalidUtf8),
        !frames::is_problem((id, seq![0u8] + bytes), TagDecodeErrorKind::Utf16OddLength),
        !frames::is_problem((id, seq![0u8] + bytes), TagDecodeErrorKind::InvalidUtf8),
{
    assert((seq![3u8] + bytes).skip(1) =~= bytes);
}

/// What is told of a failure names the first frame with the problem, where the error
/// speaks of one; otherwise it is the error alone.
pub proof fn law_failures_are_told(data: Seq<u8>, error: Seq<char>)
    requires
        !text::has_part(error, "UTF-16 string has an odd length"@),
        !text::has_part(error, "Expected a UTF-8 string"@),
    ensures
        frames::error_message(data, error) == "Failed to read tags: "@ + error,
{
    reveal_strlit("Failed to read tags");
    reveal_strlit(": ");
    reveal_strlit("Failed to read tags: ");
    assert(frames::error_message(data, error) =~= "Failed to read tags: "@ + error);
}

/// An odd length is told with the frame that has it.
pub proof fn law_odd_length_names_frame(data: Seq<u8>, error: Seq<char>, k: int)
    requires
        text::has_part(error, "UTF-16 string has an odd length"@),
        !text::has_part(error, "Expected a UTF-8 string"@),
        0 <= k < frames::tag_content(data).len(),
        frames::is_problem(frames::tag_content(data)[k], TagDecodeErrorKind::Utf16OddLength),
        forall|i: int|
            0 <= i < k ==> !frames::is_problem(
                #[trigger] frames::tag_content(data)[i],
                TagDecodeErrorKind::Utf16OddLength,
            ),
    ensures
        ({
            let id = decode_utf8(frames::tag_content(data)[k].0);
            frames::error_message(data, error) == "Failed to read tags (frame "@ + id + " / "@
                + super::field_name(id) + "): "@ + error
        }),
{
    let s = frames::tag_content(data);
    let kind = TagDecodeErrorKind::Utf16OddLength;
    law_first_problem_is_told(s, kind, Seq::empty());
    let p = frames::problem_at(s, kind);
    assert(p == k) by {
        if k < p {
            assert(!frames::is_problem(s[k], kind));
        }
        if p < k {
            assert(!frames::is_problem(s[p], kind));
        }
    }
    let id = decode_utf8(s[k].0);
    reveal_strlit("Failed to read tags");
    reveal_strlit(" (frame ");
    reveal_strlit("Failed to read tags (frame ");
    reveal_strlit(")");
    reveal_strlit(": ");
    reveal_strlit("): ");
    assert(frames::error_message(data, error) =~= "Failed to read tags (frame "@ + id + " / "@
        + super::field_name(id) + "): "@ + error);
}

// ── Raw tags ─────────────────────────────────────────────────────────────────

/// A unique identifier is kept under its owner: what stands in front of the first zero
/// byte names the owner, and what stands behind it is the identifier.
pub proof fn law_identifier_is_kept_under_owner(owner: Seq<u8>, id: Seq<u8>)
    requires
        !owner.contains(0u8),
    ensures
        raw_tags::owned_id(owner + seq![0u8] + id) == Some(
            (
                "UFID:"@ + Seq::new(owner.len(), |i: int| owner[i] as char),
                Seq::new(id.len(), |i: int| id[i] as char),
            ),
        ),
        raw_tags::owned_id(owner) is None,
{
    let all = owner + seq![0u8] + id;
    let n = owner.len() as int;
    lemma_zero_at(all, n);
    lemma_zero_at(owner, n);
    assert(all.take(n) =~= owner);
    assert(all.skip(n + 1) =~= id);
    assert(model::latin1(owner) =~= Seq::new(owner.len(), |i: int| owner[i] as char));
    assert(model::latin1(id) =~= Seq::new(id.len(), |i: int| id[i] as char));
}

proof fn lemma_zero_at(bytes: Seq<u8>, n: int)
    requires
        0 <= n <= bytes.len(),
        !bytes.take(n).contains(0u8),
        n < bytes.len() ==> bytes[n] == 0,
    ensures
        raw_tags::zero_at(bytes) == n,
    decreases n,
{
    if n > 0 {
        assert(bytes.take(n).contains(bytes.take(n)[0]));
        let rest = bytes.skip(1);
        assert(!rest.take(n - 1).contains(0u8)) by {
            if rest.take(n - 1).contains(0u8) {
                let t = rest.take(n - 1);
                let i = choose|i: int| 0 <= i < t.len() && t[i] == 0u8;
                assert(bytes.take(n)[i + 1] == 0u8);
            }
        }
        lemma_zero_at(rest, n - 1);
    }
}

/// The tags that are stored of a file with an ID3v2 tag are just its texts, and the
/// identifiers of its frames of that kind.
pub proof fn law_stored_tags_are_texts_and_identifiers(
    data: Seq<u8>,
    meta: TrackMetadata,
    extra: Seq<TagProperty>,
    key: Seq<char>,
    value: Seq<char>,
)
    requires
        model::tag_starts(data, 0),
    ensures
        raw_tags::stored_tags(data, meta, extra).contains((key, value)) <==> model::file_texts(
            data,
        ).contains((key, value)) || exists|i: int|
            0 <= i < frames::tag_content(data).len() && decode_utf8(
                (#[trigger] frames::tag_content(data)[i]).0,
            ) == "UFID"@ && raw_tags::owned_id(frames::tag_content(data)[i].1) == Some(
                (key, value),
            ),
{
    let s = frames::tag_content(data);
    let f = |f: RawFrame| raw_tags::frame_id_tag(f);
    lemma_either(raw_tags::text_tags(data), raw_tags::id_tags(data), (key, value));
    lemma_text_tags(data, key, value);
    if raw_tags::id_tags(data).contains((key, value)) {
        text::lemma_filter_map_source(s, f, (key, value));
        let i = choose|i: int| 0 <= i < s.len() && f(#[trigger] s[i]) == Some((key, value));
        assert(decode_utf8(s[i].0) == "UFID"@);
    }
    if exists|i: int|
        0 <= i < s.len() && decode_utf8((#[trigger] s[i]).0) == "UFID"@ && raw_tags::owned_id(
            s[i].1,
        ) == Some((key, value)) {
        let i = choose|i: int|
            0 <= i < s.len() && decode_utf8((#[trigger] s[i]).0) == "UFID"@ && raw_tags::owned_id(
                s[i].1,
            ) == Some((key, value));
        text::lemma_filter_map_keeps(s, f, i);
    }
}

proof fn lemma_text_tags(data: Seq<u8>, key: Seq<char>, value: Seq<char>)
    ensures
        raw_tags::text_tags(data).contains((key, value)) <==> model::file_texts(data).contains(
            (key, value),
        ),
{
    let texts = model::file_texts(data);
    let keys = model::keys_of(texts);
    let groups = model::grouped(texts);
    let d = text::distinct(keys);
    let table = groups.map_values(|g: (Seq<char>, Seq<Seq<char>>)| raw_tags::group_tags(g));
    text::lemma_distinct(keys);
    if raw_tags::text_tags(data).contains((key, value)) {
        text::lemma_flatten_contains(table, (key, value));
        let k = choose|k: int| 0 <= k < table.len() && (#[trigger] table[k]).contains((key, value));
        let j = choose|j: int| 0 <= j < table[k].len() && table[k][j] == (key, value);
        let values = model::values_of(texts, d[k]);
        assert(groups[k] == (d[k], text::distinct(values)));
        assert(table[k][j] == (d[k], text::distinct(values)[j]));
        assert(text::distinct(values).contains(value));
        text::lemma_distinct(values);
        layout::lemma_value_listed(texts, key, value);
    }
    if texts.contains((key, value)) {
        let i = choose|i: int| 0 <= i < texts.len() && texts[i] == (key, value);
        assert(keys[i] == key);
        assert(keys.contains(key));
        assert(d.contains(key));
        let k = choose|k: int| 0 <= k < d.len() && d[k] == key;
        let values = model::values_of(texts, key);
        layout::lemma_value_listed(texts, key, value);
        text::lemma_distinct(values);
        assert(text::distinct(values).contains(value));
        let j = choose|j: int|
            0 <= j < text::distinct(values).len() && text::distinct(values)[j] == value;
        assert(groups[k] == (key, text::distinct(values)));
        assert(table[k][j] == (key, value));
        layout::lemma_in_files(table, k, j);
    }
}

// ── Tags ─────────────────────────────────────────────────────────────────────

/// Whether a tag tells of a field.
pub open spec fn of_field(
    x: Info,
    frame: Seq<char>,
    field: Seq<char>,
    value: Option<Seq<char>>,
) -> bool {
    value is Some && x == (frame, field, value->0)
}

/// The digits of a number.
pub open spec fn digits(n: Option<u32>) -> Option<Seq<char>> {
    match n {
        Some(n) => Some(text::decimal(n as nat)),
        None => None,
    }
}

proof fn lemma_maybe(x: Info, frame: Seq<char>, field: Seq<char>, value: Option<Seq<char>>)
    ensures
        tags::maybe(frame, field, value).contains(x) <==> of_field(x, frame, field, value),
{
    let s = tags::maybe(frame, field, value);
    if of_field(x, frame, field, value) {
        assert(s[0] == x);
    }
}

/// What is known of a track is told as tags, field by field, and nothing else.
pub proof fn law_metadata_is_told(m: TrackMetadata, x: Info)
    ensures
        tags::metadata_tags(m).contains(x) <==> of_field(
            x,
            "TIT2"@,
            "title"@,
            text::opt_text(m.title),
        ) || of_field(x, "TPE1"@, "artist"@, text::opt_text(m.artist)) || of_field(
            x,
            "TPE2"@,
            "album_artist"@,
            text::opt_text(m.album_artist),
        ) || of_field(x, "TALB"@, "album"@, text::opt_text(m.album)) || of_field(
            x,
            "TCON"@,
            "genre"@,
            text::opt_text(m.genre),
        ) || of_field(x, "COMM"@, "comment"@, text::opt_text(m.comment)) || of_field(
            x,
            "TYER"@,
            "year"@,
            digits(m.year),
        ) || of_field(x, "TRCK"@, "track_number"@, digits(m.track_number)) || of_field(
            x,
            "TRCK"@,
            "track_total"@,
            digits(m.track_total),
        ) || of_field(x, "TPOS"@, "disc_number"@, digits(m.disc_number)),
{
    let a = tags::maybe("TIT2"@, "title"@, text::opt_text(m.title));
    let b = tags::maybe("TPE1"@, "artist"@, text::opt_text(m.artist));
    let c = tags::maybe("TPE2"@, "album_artist"@, text::opt_text(m.album_artist));
    let d = tags::maybe("TALB"@, "album"@, text::opt_text(m.album));
    let e = tags::maybe("TCON"@, "genre"@, text::opt_text(m.genre));
    let f = tags::maybe("COMM"@, "comment"@, text::opt_text(m.comment));
    let g = tags::maybe("TYER"@, "year"@, tags::number_text(m.year));
    let h = tags::maybe("TRCK"@, "track_number"@, tags::number_text(m.track_number));
    let i = tags::maybe("TRCK"@, "track_total"@, tags::number_text(m.track_total));
    let j = tags::maybe("TPOS"@, "disc_number"@, tags::number_text(m.disc_number));
    lemma_maybe(x, "TIT2"@, "title"@, text::opt_text(m.title));
    lemma_maybe(x, "TPE1"@, "artist"@, text::opt_text(m.artist));
    lemma_maybe(x, "TPE2"@, "album_artist"@, text::opt_text(m.album_artist));
    lemma_maybe(x, "TALB"@, "album"@, text::opt_text(m.album));
    lemma_maybe(x, "TCON"@, "genre"@, text::opt_text(m.genre));
    lemma_maybe(x, "COMM"@, "comment"@, text::opt_text(m.comment));
    lemma_maybe(x, "TYER"@, "year"@, tags::number_text(m.year));
    lemma_maybe(x, "TRCK"@, "track_number"@, tags::number_text(m.track_number));
    lemma_maybe(x, "TRCK"@, "track_total"@, tags::number_text(m.track_total));
    lemma_maybe(x, "TPOS"@, "disc_number"@, tags::number_text(m.disc_number));
    lemma_either(a + b + c + d + e + f + g + h + i, j, x);
    lemma_either(a + b + c + d + e + f + g + h, i, x);
    lemma_either(a + b + c + d + e + f + g, h, x);
    lemma_either(a + b + c + d + e + f, g, x);
    lemma_either(a + b + c + d + e, f, x);
    lemma_either(a + b + c + d, e, x);
    lemma_either(a + b + c, d, x);
    lemma_either(a + b, c, x);
    lemma_either(a, b, x);
}

/// The fields of a tag are told, field by field; the further fields under their own names;
/// and of the items those of the user that have a text.
pub proof fn law_fields_are_told(f: TagFields, x: Info)
    ensures
        tags::all_tags(f).contains(x) <==> of_field(x, "TIT2"@, "title"@, text::opt_text(f.title))
            || of_field(x, "TPE1"@, "artist"@, text::opt_text(f.artist)) || of_field(
            x,
            "TALB"@,
            "album"@,
            text::opt_text(f.album),
        ) || of_field(x, "TCON"@, "genre"@, text::opt_text(f.genre)) || of_field(
            x,
            "COMM"@,
            "comment"@,
            text::opt_text(f.comment),
        ) || of_field(x, "TYER"@, "year"@, digits(f.year)) || of_field(
            x,
            "TRCK"@,
            "track_number"@,
            digits(f.track),
        ) || of_field(x, "TRCK"@, "track_total"@, digits(f.track_total)) || of_field(
            x,
            "TPOS"@,
            "disc_number"@,
            digits(f.disk),
        ) || (exists|i: int|
            0 <= i < f.extended@.len() && x == (
                (#[trigger] f.extended@[i]).0@,
                f.extended@[i].0@,
                f.extended@[i].1@,
            )) || (exists|i: int|
            0 <= i < f.items@.len() && (#[trigger] f.items@[i]).1 is Some && (text::has_part(
                f.items@[i].0@,
                "TXXX"@,
            ) || text::has_part(f.items@[i].0@, "UserText"@)) && x == (
                f.items@[i].0@,
                "user_text"@,
                f.items@[i].1->0@,
            )),
{
    lemma_common(f, x);
    let further = f.extended@.map_values(|e: (String, String)| (e.0@, e.0@, e.1@));
    let pick = |i: (String, Option<String>)| tags::item_tag(i);
    let items = f.items@.filter_map(pick);
    lemma_either(tags::common_tags(f) + further, items, x);
    lemma_either(tags::common_tags(f), further, x);
    if further.contains(x) {
        let i = choose|i: int| 0 <= i < further.len() && further[i] == x;
        assert(x == (f.extended@[i].0@, f.extended@[i].0@, f.extended@[i].1@));
    }
    if exists|i: int|
        0 <= i < f.extended@.len() && x == (
            (#[trigger] f.extended@[i]).0@,
            f.extended@[i].0@,
            f.extended@[i].1@,
        ) {
        let i = choose|i: int|
            0 <= i < f.extended@.len() && x == (
                (#[trigger] f.extended@[i]).0@,
                f.extended@[i].0@,
                f.extended@[i].1@,
            );
        assert(further[i] == x);
    }
    if items.contains(x) {
        text::lemma_filter_map_source(f.items@, pick, x);
        let i = choose|i: int| 0 <= i < f.items@.len() && pick(#[trigger] f.items@[i]) == Some(x);
        assert(f.items@[i].1 is Some);
    }
    if exists|i: int|
        0 <= i < f.items@.len() && (#[trigger] f.items@[i]).1 is Some && (text::has_part(
            f.items@[i].0@,
            "TXXX"@,
        ) || text::has_part(f.items@[i].0@, "UserText"@)) && x == (
            f.items@[i].0@,
            "user_text"@,
            f.items@[i].1->0@,
        ) {
        let i = choose|i: int|
            0 <= i < f.items@.len() && (#[trigger] f.items@[i]).1 is Some && (text::has_part(
                f.items@[i].0@,
                "TXXX"@,
            ) || text::has_part(f.items@[i].0@, "UserText"@)) && x == (
                f.items@[i].0@,
                "user_text"@,
                f.items@[i].1->0@,
            );
        text::lemma_filter_map_keeps(f.items@, pick, i);
    }
}

proof fn lemma_common(m: TagFields, x: Info)
    ensures
        tags::common_tags(m).contains(x) <==> of_field(
            x,
            "TIT2"@,
            "title"@,
            text::opt_text(m.title),
        ) || of_field(x, "TPE1"@, "artist"@, text::opt_text(m.artist)) || of_field(
            x,
            "TALB"@,
            "album"@,
            text::opt_text(m.album),
        ) || of_field(x, "TCON"@, "genre"@, text::opt_text(m.genre)) || of_field(
            x,
            "COMM"@,
            "comment"@,
            text::opt_text(m.comment),
        ) || of_field(x, "TYER"@, "year"@, digits(m.year)) || of_field(
            x,
            "TRCK"@,
            "track_number"@,
            digits(m.track),
        ) || of_field(x, "TRCK"@, "track_total"@, digits(m.track_total)) || of_field(
            x,
            "TPOS"@,
            "disc_number"@,
            digits(m.disk),
        ),
{
    let a = tags::maybe("TIT2"@, "title"@, text::opt_text(m.title));
    let b = tags::maybe("TPE1"@, "artist"@, text::opt_text(m.artist));
    let d = tags::maybe("TALB"@, "album"@, text::opt_text(m.album));
    let e = tags::maybe("TCON"@, "genre"@, text::opt_text(m.genre));
    let f = tags::maybe("COMM"@, "comment"@, text::opt_text(m.comment));
    let g = tags::maybe("TYER"@, "year"@, tags::number_text(m.year));
    let h = tags::maybe("TRCK"@, "track_number"@, tags::number_text(m.track));
    let i = tags::maybe("TRCK"@, "track_total"@, tags::number_text(m.track_total));
    let j = tags::maybe("TPOS"@, "disc_number"@, tags::number_text(m.disk));
    lemma_maybe(x, "TIT2"@, "title"@, text::opt_text(m.title));
    lemma_maybe(x, "TPE1"@, "artist"@, text::opt_text(m.artist));
    lemma_maybe(x, "TALB"@, "album"@, text::opt_text(m.album));
    lemma_maybe(x, "TCON"@, "genre"@, text::opt_text(m.genre));
    lemma_maybe(x, "COMM"@, "comment"@, text::opt_text(m.comment));
    lemma_maybe(x, "TYER"@, "year"@, tags::number_text(m.year));
    lemma_maybe(x, "TRCK"@, "track_number"@, tags::number_text(m.track));
    lemma_maybe(x, "TRCK"@, "track_total"@, tags::number_text(m.track_total));
    lemma_maybe(x, "TPOS"@, "disc_number"@, tags::number_text(m.disk));
    lemma_either(a + b + d + e + f + g + h + i, j, x);
    lemma_either(a + b + d + e + f + g + h, i, x);
    lemma_either(a + b + d + e + f + g, h, x);
    lemma_either(a + b + d + e + f, g, x);
    lemma_either(a + b + d + e, f, x);
    lemma_either(a + b + d, e, x);
    lemma_either(a + b, d, x);
    lemma_either(a, b, x);
}

/// The files that are music, by their extensions.
pub proof fn law_music_extensions(e: Seq<char>)
    ensures
        tags::audio_extension(e) <==> seq![
            "mp3"@,
            "ogg"@,
            "flac"@,
            "wav"@,
            "m4a"@,
            "aac"@,
            "opus"@,
            "wma"@,
            "ape"@,
        ].contains(e),
{
    let s = seq![
        "mp3"@,
        "ogg"@,
        "flac"@,
        "wav"@,
        "m4a"@,
        "aac"@,
        "opus"@,
        "wma"@,
        "ape"@,
    ];
    assert(s[0] == "mp3"@ && s[1] == "ogg"@ && s[2] == "flac"@ && s[3] == "wav"@ && s[4] == "m4a"@
        && s[5] == "aac"@ && s[6] == "opus"@ && s[7] == "wma"@ && s[8] == "ape"@);
    if s.contains(e) {
        let i = choose|i: int| 0 <= i < s.len() && s[i] == e;
        assert(i == 0 || i == 1 || i == 2 || i == 3 || i == 4 || i == 5 || i == 6 || i == 7 || i
            == 8);
    }
}

/// Properties that only repeat a field are not told again; all others are, under their
/// own keys.
pub proof fn law_properties_are_told(p: TagProperty)
    ensures
        ({
            let repeated = seq![
                "TITLE"@,
                "ARTIST"@,
                "ALBUM"@,
                "GENRE"@,
                "COMMENT"@,
                "DATE"@,
                "YEAR"@,
                "TRACKNUMBER"@,
                "TRACKTOTAL"@,
                "DISCNUMBER"@,
                "ALBUMARTIST"@,
                "ALBUM ARTIST"@,
                "BPM"@,
            ];
            &&& repeated.contains(p.key@) ==> tags::property_tag(p) is None
            &&& !repeated.contains(p.key@) ==> tags::property_tag(p) == Some(
                (p.key@, "tag"@, p.value@),
            )
        }),
{
    let s = seq![
        "TITLE"@,
        "ARTIST"@,
        "ALBUM"@,
        "GENRE"@,
        "COMMENT"@,
        "DATE"@,
        "YEAR"@,
        "TRACKNUMBER"@,
        "TRACKTOTAL"@,
        "DISCNUMBER"@,
        "ALBUMARTIST"@,
        "ALBUM ARTIST"@,
        "BPM"@,
    ];
    assert(s[0] == "TITLE"@ && s[1] == "ARTIST"@ && s[2] == "ALBUM"@ && s[3] == "GENRE"@ && s[4]
        == "COMMENT"@ && s[5] == "DATE"@ && s[6] == "YEAR"@ && s[7] == "TRACKNUMBER"@ && s[8]
        == "TRACKTOTAL"@ && s[9] == "DISCNUMBER"@ && s[10] == "ALBUMARTIST"@ && s[11]
        == "ALBUM ARTIST"@ && s[12] == "BPM"@);
    if s.contains(p.key@) {
        let i = choose|i: int| 0 <= i < s.len() && s[i] == p.key@;
        assert(i == 0 || i == 1 || i == 2 || i == 3 || i == 4 || i == 5 || i == 6 || i == 7 || i
            == 8 || i == 9 || i == 10 || i == 11 || i == 12);
    }
}

/// The number of a gain stands in front of its unit, with or without a blank.
pub proof fn law_gain_drops_unit(n: Seq<char>)
    requires
        text::trim(n) == n,
        n.len() > 0,
        !text::is_space(n[0]),
        !text::is_space(n.last()),
        n.last() != 'B',
    ensures
        tags::gain_number(n) == n,
        tags::gain_number(n + "dB"@) == n,
        tags::gain_number(n + " dB"@) == n,
{
    reveal_strlit("dB");
    reveal_strlit(" dB");
    assert("dB"@ =~= seq!['d', 'B']);
    let unit = "dB"@;
    text::law_blanks('B');
    assert(!unit.is_suffix_of(n)) by {
        if unit.is_suffix_of(n) {
            assert(n.last() == unit[1]);
        }
    }
    assert(tags::without_suffix(n, unit) == n);
    lemma_trimmed(n);
    let a = n + unit;
    assert(a.last() == 'B' && a[0] == n[0]);
    lemma_trimmed(a);
    assert(unit.is_suffix_of(a));
    assert(a.take(a.len() - unit.len()) =~= n);
    let b = n + " dB"@;
    assert(b.last() == 'B' && b[0] == n[0]);
    lemma_trimmed(b);
    assert(unit.is_suffix_of(b));
    let c = b.take(b.len() - unit.len());
    assert(c =~= n.push(' '));
    assert(!unit.is_suffix_of(c)) by {
        if unit.is_suffix_of(c) {
            assert(c.last() == unit[1]);
        }
    }
    assert(tags::without_suffix(c, unit) == c);
    assert(tags::without_suffix(b, unit) == c);
    assert(text::trim_start(c) == c);
    assert(c.drop_last() =~= n);
    assert(text::trim_end(c) == text::trim_end(n));
    assert(text::trim_end(n) == n);
}

proof fn lemma_trimmed(s: Seq<char>)
    requires
        s.len() > 0,
        !text::is_space(s[0]),
        !text::is_space(s.last()),
    ensures
        text::trim(s) == s,
        text::trim_start(s) == s,
        text::trim_end(s) == s,
{
}

/// What is known of a track comes from its tag, field by field; a track without a title
/// is called by its file; without a tag nothing else is known.
pub proof fn law_metadata_comes_from_tag(
    m: TrackMetadata,
    f: TagFields,
    n: Fractions,
    facts: FileFacts,
    album_artist: Seq<char>,
)
    ensures
        tags::tells_metadata(m, Some(f), n, facts) ==> {
            &&& m.duration_ms == facts.duration_ms
            &&& f.title is Some ==> text::opt_text(m.title) == text::opt_text(f.title)
            &&& f.title is None ==> text::opt_text(m.title) == text::opt_text(facts.stem)
            &&& text::opt_text(m.artist) == text::opt_text(f.artist)
            &&& text::opt_text(m.album) == text::opt_text(f.album)
            &&& text::opt_text(m.genre) == text::opt_text(f.genre)
            &&& text::opt_text(m.comment) == text::opt_text(f.comment)
            &&& m.year == f.year
            &&& m.track_number == f.track
            &&& m.track_total == f.track_total
            &&& m.disc_number == f.disk
            &&& m.bpm_bits == n.bpm_bits
            &&& m.replay_gain_track_db_bits == n.replay_gain_track_db_bits
            &&& m.replay_gain_track_peak_bits == n.replay_gain_track_peak_bits
            &&& m.replay_gain_album_db_bits == n.replay_gain_album_db_bits
            &&& m.replay_gain_album_peak_bits == n.replay_gain_album_peak_bits
            &&& stored::first_says(text::pairs(f.extended@), "album_artist"@, album_artist)
                ==> text::opt_text(m.album_artist) == Some(album_artist)
            &&& stored::lacks(text::pairs(f.extended@), "album_artist"@) ==> m.album_artist is None
        },
        tags::tells_metadata(m, None, n, facts) ==> {
            &&& m.duration_ms == facts.duration_ms
            &&& text::opt_text(m.title) == text::opt_text(facts.stem)
            &&& m.artist is None && m.album is None && m.album_artist is None
            &&& m.genre is None && m.comment is None && m.year is None
            &&& m.track_number is None && m.track_total is None && m.disc_number is None
            &&& m.bpm_bits is None
        },
        tags::tells_metadata(m, Some(f), n, facts) || tags::tells_metadata(m, None, n, facts) ==> (
        facts.extension is Some ==> m.format@ == text::lowercase(facts.extension->0@)) && (
        facts.extension is None ==> m.format@ == text::lowercase("unknown"@)),
{
    stored::law_first_tag_counts(text::pairs(f.extended@), "album_artist"@);
}

/// The picture that is shown is the first that is a front cover, or else the first.
pub proof fn law_front_cover_is_shown(pictures: Seq<Picture>, k: int)
    requires
        0 <= k < pictures.len(),
        forall|i: int| 0 <= i < k ==> !(#[trigger] pictures[i]).is_front,
    ensures
        pictures[k].is_front ==> tags::shown_picture(pictures) == k,
        k + 1 == pictures.len() && !pictures[k].is_front ==> tags::shown_picture(pictures) == 0,
{
    let marks = pictures.map_values(|p: Picture| p.is_front);
    assert forall|i: int| 0 <= i < k implies marks[i] != true by {
        assert(!pictures[i].is_front);
    }
    if pictures[k].is_front {
        text::lemma_first_at_is(marks, true, k);
    } else if k + 1 == pictures.len() {
        text::lemma_first_at_is(marks, true, k + 1);
    }
}

/// A picture is handed out as a data URL in base64, as JPEG where its type is not known.
pub proof fn law_picture_url(p: Picture)
    ensures
        p.mime is Some ==> tags::data_url(p) == "data:"@ + p.mime->0@ + ";base64,"@
            + digest::base64_text(p.data@),
        p.mime is None ==> tags::data_url(p) == "data:image/jpeg;base64,"@ + digest::base64_text(
            p.data@,
        ),
{
    reveal_strlit("data:");
    reveal_strlit("image/jpeg");
    reveal_strlit(";base64,");
    reveal_strlit("data:image/jpeg;base64,");
    assert("data:"@ + "image/jpeg"@ + ";base64,"@ =~= "data:image/jpeg;base64,"@);
}

// ── Reports ──────────────────────────────────────────────────────────────────

/// A frame is reported with the byte of its encoding, and with what the bytes behind it
/// are in each encoding.
pub proof fn law_frame_is_reported(
    info: Id3FrameDebugInfo,
    id: Seq<u8>,
    encoding: u8,
    bytes: Seq<u8>,
    version: u8,
    name: Seq<char>,
)
    requires
        frames::reports_frame(info, (id, seq![encoding] + bytes), version, name),
    ensures
        info.frame_id@ == name,
        info.field_name@ == super::field_name(name),
        info.version_major == version,
        info.declared_encoding_byte == encoding,
        info.declared_encoding_name@ == frames::encoding_name(encoding),
        info.payload_len == bytes.len(),
        info.raw_payload_hex_preview@ == frames::hex_pairs(frames::shown(bytes, 64)),
        valid_utf8(bytes) ==> text::opt_text(info.utf8) == Some(decode_utf8(bytes)),
        !valid_utf8(bytes) ==> info.utf8 is None,
        text::opt_text(info.latin1) == Some(Seq::new(bytes.len(), |i: int| bytes[i] as char)),
        text::opt_text(info.utf16_with_bom) == frames::utf16_marked_text(bytes),
        text::opt_text(info.utf16be_without_bom) == frames::utf16_bytes_text(bytes, false),
        text::opt_text(info.utf16le_without_bom) == frames::utf16_bytes_text(bytes, true),
{
    assert((seq![encoding] + bytes).skip(1) =~= bytes);
    assert(model::latin1(bytes) =~= Seq::new(bytes.len(), |i: int| bytes[i] as char));
}

/// A frame that is not UTF-8, where it says so, is summed up in the message of its
/// failure.
pub proof fn law_bad_utf8_is_summed_up(data: Seq<u8>, error: Seq<char>, k: int)
    requires
        text::has_part(error, "Expected a UTF-8 string"@),
        !text::has_part(error, "UTF-16 string has an odd length"@),
        0 <= k < frames::tag_content(data).len(),
        frames::is_problem(frames::tag_content(data)[k], TagDecodeErrorKind::InvalidUtf8),
        forall|i: int|
            0 <= i < k ==> decode_utf8((#[trigger] frames::tag_content(data)[i]).0) != decode_utf8(
                frames::tag_content(data)[k].0,
            ) && !frames::is_problem(
                frames::tag_content(data)[i],
                TagDecodeErrorKind::InvalidUtf8,
            ),
    ensures
        ({
            let f = frames::tag_content(data)[k];
            let id = decode_utf8(f.0);
            let bytes = f.1.skip(1);
            frames::error_message(data, error) == "Failed to read tags (frame "@ + id + " / "@
                + super::field_name(id) + "): "@ + error + " [ID3 debug: frame "@ + id + " / "@
                + super::field_name(id) + " declared encoding=3 (UTF-8) payload_len="@
                + text::decimal(bytes.len()) + " utf8=invalid latin1="@ + file_issues::quoted(
                model::latin1(bytes),
            ) + " hex="@ + frames::hex_pairs(frames::shown(bytes, 64)) + "]"@
        }),
{
    let s = frames::tag_content(data);
    let kind = TagDecodeErrorKind::InvalidUtf8;
    let f = s[k];
    let id = decode_utf8(f.0);
    let bytes = f.1.skip(1);
    law_first_problem_is_told(s, kind, id);
    let p = frames::problem_at(s, kind);
    assert(p == k) by {
        if k < p {
            assert(!frames::is_problem(s[k], kind));
        }
        if p < k {
            assert(!frames::is_problem(s[p], kind));
        }
    }
    let a = frames::frame_at(s, id);
    assert(a == k) by {
        if k < a {
            assert(decode_utf8(s[k].0) != id);
        }
        if a < k {
            assert(decode_utf8(s[a].0) != id);
        }
    }
    assert(frames::problem_kind(error) == Some(kind));
    let name = super::field_name(id);
    let sum = frames::frame_summary(f, id);
    assert(frames::utf8_report(data) == Some(sum));
    let rest = id + " / "@ + name + " declared encoding=3 (UTF-8) payload_len="@ + text::decimal(
        bytes.len(),
    ) + " utf8=invalid latin1="@ + file_issues::quoted(model::latin1(bytes)) + " hex="@
        + frames::hex_pairs(frames::shown(bytes, 64));
    lemma_bad_utf8_summary(f, id);
    lemma_failure_words();
    lemma_failure_text(
        "Failed to read tags"@,
        " (frame "@,
        id,
        " / "@,
        name,
        ")"@,
        ": "@,
        error,
        " ["@,
        "ID3 debug: frame "@,
        rest,
        "]"@,
    );
    lemma_rest_text(
        "Failed to read tags (frame "@ + id + " / "@ + name + "): "@ + error
            + " [ID3 debug: frame "@,
        id,
        " / "@,
        name,
        " declared encoding=3 (UTF-8) payload_len="@,
        text::decimal(bytes.len()),
        " utf8=invalid latin1="@,
        file_issues::quoted(model::latin1(bytes)),
        " hex="@,
        frames::hex_pairs(frames::shown(bytes, 64)),
    );
}

proof fn lemma_failure_words()
    ensures
        "Failed to read tags"@ + " (frame "@ == "Failed to read tags (frame "@,
        ")"@ + ": "@ == "): "@,
        " ["@ + "ID3 debug: frame "@ == " [ID3 debug: frame "@,
{
    reveal_strlit("Failed to read tags");
    reveal_strlit(" (frame ");
    reveal_strlit("Failed to read tags (frame ");
    reveal_strlit(")");
    reveal_strlit(": ");
    reveal_strlit("): ");
    reveal_strlit(" [");
    reveal_strlit("ID3 debug: frame ");
    reveal_strlit(" [ID3 debug: frame ");
    assert("Failed to read tags"@ + " (frame "@ =~= "Failed to read tags (frame "@);
    assert(")"@ + ": "@ =~= "): "@);
    assert(" ["@ + "ID3 debug: frame "@ =~= " [ID3 debug: frame "@);
}

proof fn lemma_failure_text(
    a: Seq<char>,
    b: Seq<char>,
    id: Seq<char>,
    c: Seq<char>,
    name: Seq<char>,
    d: Seq<char>,
    e: Seq<char>,
    error: Seq<char>,
    f: Seq<char>,
    g: Seq<char>,
    rest: Seq<char>,
    h: Seq<char>,
)
    ensures
        a + (b + id + c + name + d) + e + error + (f + (g + rest) + h) == (a + b) + id + c + name + (
        d + e) + error + (f + g) + rest + h,
{
    assert(a + (b + id + c + name + d) =~= (a + b) + id + c + name + d);
    let x = (a + b) + id + c + name;
    assert(x + d + e =~= x + (d + e));
    let y = x + (d + e) + error;
    assert(y + (f + (g + rest) + h) =~= y + (f + g) + rest + h);
}

proof fn lemma_rest_text(
    front: Seq<char>,
    a: Seq<char>,
    b: Seq<char>,
    c: Seq<char>,
    d: Seq<char>,
    e: Seq<char>,
    f: Seq<char>,
    g: Seq<char>,
    h: Seq<char>,
    i: Seq<char>,
)
    ensures
        front + (a + b + c + d + e + f + g + h + i) == front + a + b + c + d + e + f + g + h + i,
{
    assert(front + (a + b) =~= front + a + b);
    assert(front + (a + b + c) =~= front + (a + b) + c);
    assert(front + (a + b + c + d) =~= front + (a + b + c) + d);
    assert(front + (a + b + c + d + e) =~= front + (a + b + c + d) + e);
    assert(front + (a + b + c + d + e + f) =~= front + (a + b + c + d + e) + f);
    assert(front + (a + b + c + d + e + f + g) =~= front + (a + b + c + d + e + f) + g);
    assert(front + (a + b + c + d + e + f + g + h) =~= front + (a + b + c + d + e + f + g) + h);
    assert(front + (a + b + c + d + e + f + g + h + i) =~= front + (a + b + c + d + e + f + g + h)
        + i);
}

/// The summary of a frame of bad UTF-8.
proof fn lemma_bad_utf8_summary(f: RawFrame, id: Seq<char>)
    requires
        f.1.len() > 1,
        f.1[0] == 3,
        !valid_utf8(f.1.skip(1)),
    ensures
        ({
            let bytes = f.1.skip(1);
            frames::frame_summary(f, id) == "ID3 debug: frame "@ + (id + " / "@
                + super::field_name(id) + " declared encoding=3 (UTF-8) payload_len="@
                + text::decimal(bytes.len()) + " utf8=invalid latin1="@ + file_issues::quoted(
                model::latin1(bytes),
            ) + " hex="@ + frames::hex_pairs(frames::shown(bytes, 64)))
        }),
{
    let bytes = f.1.skip(1);
    let name = super::field_name(id);
    let front = "ID3 debug: frame "@ + id + " / "@ + name;
    let n = text::decimal(bytes.len());
    let q = file_issues::quoted(model::latin1(bytes));
    let x = frames::hex_pairs(frames::shown(bytes, 64));
    text::law_decimal_reads_back(3);
    assert(text::decimal(3) =~= seq!['3']);
    reveal_strlit(" declared encoding=");
    reveal_strlit(" (");
    reveal_strlit("UTF-8");
    reveal_strlit(") payload_len=");
    reveal_strlit(" declared encoding=3 (UTF-8) payload_len=");
    reveal_strlit(" utf8=");
    reveal_strlit("invalid");
    reveal_strlit(" latin1=");
    reveal_strlit(" utf8=invalid latin1=");
    let w = " declared encoding="@ + text::decimal(3) + " ("@ + "UTF-8"@ + ") payload_len="@;
    assert(w =~= " declared encoding=3 (UTF-8) payload_len="@);
    let v = " utf8="@ + "invalid"@ + " latin1="@;
    assert(v =~= " utf8=invalid latin1="@);
    assert(front + " declared encoding="@ + text::decimal(3) + " ("@ + "UTF-8"@
        + ") payload_len="@ =~= front + w);
    let y = front + w + n;
    assert(y + " utf8="@ + "invalid"@ + " latin1="@ =~= y + v);
    assert(frames::frame_summary(f, id) == y + v + q + " hex="@ + x);
    lemma_rest_text("ID3 debug: frame "@, id, " / "@, name, w, n, v, q, " hex="@, x);
}

/// Files are music by their extension, in whatever case.
pub proof fn law_music_is_told_by_extension(e: Option<&str>, r: bool)
    requires
        call_ensures(tags::is_audio_file, (e,), r),
    ensures
        e is None ==> !r,
        e matches Some(x) ==> (r <==> tags::audio_extension(text::lowercase(x@))),
{
}

/// What was read first counts; where that failed, what the helper read; and where it
/// could not help, the first failure.
pub proof fn law_helper_stands_in(
    primary: Result<TrackMetadata, String>,
    helped: Option<MetadataReadResult>,
    r: Result<MetadataReadResult, String>,
)
    requires
        call_ensures(tags::settle_metadata, (primary, helped), r),
    ensures
        primary matches Ok(meta) ==> r matches Ok(read) && read.meta == meta,
        primary is Err && helped is Some ==> r is Ok && r->Ok_0 == helped->0,
        primary is Err && helped is None ==> r is Err && r->Err_0@ == primary->Err_0@,
{
}

/// A cover is shown where there is a picture.
pub proof fn law_cover_is_first_front(pictures: &Vec<Picture>, r: Option<String>, k: int)
    requires
        call_ensures(tags::cover_art_url, (pictures,), r),
    ensures
        r is Some <==> pictures@.len() > 0,
        0 <= k < pictures@.len() && pictures@[k].is_front && (forall|i: int|
            0 <= i < k ==> !(#[trigger] pictures@[i]).is_front) ==> text::opt_text(r) == Some(
            tags::data_url(pictures@[k]),
        ),
{
    if 0 <= k < pictures@.len() && pictures@[k].is_front && (forall|i: int|
        0 <= i < k ==> !(#[trigger] pictures@[i]).is_front) {
        law_front_cover_is_shown(pictures@, k);
    }
}

} // verus!

//! What the catalogue says of the tags that files carry.
use vstd::prelude::*;
use crate::models::MeanRating;
use crate::text;
use super::described;
use super::described::Tags;
use super::{MemRecording, RawSource};

verus! {

// ── Tags ─────────────────────────────────────────────────────────────────────

/// Whether `v` is the value of the first tag under a key.
pub open spec fn first_says(t: Tags, key: Seq<char>, v: Seq<char>) -> bool {
    exists|i: int|
        0 <= i < t.len() && #[trigger] t[i] == (key, v) && forall|j: int|
            0 <= j < i ==> (#[trigger] t[j]).0 != key
}

/// Whether no tag stands under a key.
pub open spec fn lacks(t: Tags, key: Seq<char>) -> bool {
    forall|i: int| 0 <= i < t.len() ==> (#[trigger] t[i]).0 != key
}

/// Of several tags under a key the first counts; without one there is no value.
pub proof fn law_first_tag_counts(t: Tags, key: Seq<char>)
    ensures
        forall|v: Seq<char>|
            #[trigger] first_says(t, key, v) <==> super::tag_value(t, key) == Some(v),
        lacks(t, key) <==> super::tag_value(t, key) is None,
    decreases t.len(),
{
    if t.len() > 0 {
        let rest = t.skip(1);
        law_first_tag_counts(rest, key);
        if t[0].0 == key {
            assert forall|v: Seq<char>| #[trigger] first_says(t, key, v) implies v == t[0].1 by {
                let i = choose|i: int|
                    0 <= i < t.len() && #[trigger] t[i] == (key, v) && forall|j: int|
                        0 <= j < i ==> (#[trigger] t[j]).0 != key;
                if i > 0 {
                    assert(t[0].0 != key);
                }
            }
            assert(t[0] == (key, t[0].1));
            assert(first_says(t, key, t[0].1));
        } else {
            assert forall|v: Seq<char>|
                #[trigger] first_says(t, key, v) <==> first_says(rest, key, v) by {
                if first_says(t, key, v) {
                    let i = choose|i: int|
                        0 <= i < t.len() && #[trigger] t[i] == (key, v) && forall|j: int|
                            0 <= j < i ==> (#[trigger] t[j]).0 != key;
                    assert(rest[i - 1] == (key, v));
                    assert forall|j: int| 0 <= j < i - 1 implies (#[trigger] rest[j]).0 != key by {
                        assert(t[j + 1].0 != key);
                    }
                }
                if first_says(rest, key, v) {
                    let i = choose|i: int|
                        0 <= i < rest.len() && #[trigger] rest[i] == (key, v) && forall|j: int|
                            0 <= j < i ==> (#[trigger] rest[j]).0 != key;
                    assert(t[i + 1] == (key, v));
                    assert forall|j: int| 0 <= j < i + 1 implies (#[trigger] t[j]).0 != key by {
                        if j > 0 {
                            assert(rest[j - 1].0 != key);
                        }
                    }
                }
            }
            if lacks(t, key) {
                assert forall|i: int| 0 <= i < rest.len() implies (#[trigger] rest[i]).0 != key by {
                    assert(t[i + 1].0 != key);
                }
            }
            if lacks(rest, key) {
                assert forall|i: int| 0 <= i < t.len() implies (#[trigger] t[i]).0 != key by {
                    if i > 0 {
                        assert(rest[i - 1].0 != key);
                    }
                }
            }
        }
    }
}

// ── Ratings ──────────────────────────────────────────────────────────────────

proof fn lemma_ratings_len(s: Seq<RawSource>)
    ensures
        super::source_ratings(s).len() <= s.len(),
    decreases s.len(),
{
    let f = |x: RawSource| x.rating;
    if s.len() > 0 {
        let n = s.len() - 1;
        lemma_ratings_len(s.take(n));
        s.lemma_filter_map_take_succ(f, n);
        assert(s.take(n + 1) =~= s);
    } else {
        assert(super::source_ratings(s) =~= Seq::empty());
    }
}

/// A recording is rated by the mean of the ratings of its sources: one source more
/// adds its stars and counts once, if it is rated, and changes nothing otherwise.
pub proof fn law_rating_is_mean(r: MemRecording, more: MemRecording, s: RawSource)
    requires
        more.sources@ == r.sources@.push(s),
        super::sum_of(super::source_ratings(more.sources@)) <= i128::MAX,
        super::sum_of(super::source_ratings(more.sources@)) >= i128::MIN,
        super::sum_of(super::source_ratings(r.sources@)) <= i128::MAX,
        super::sum_of(super::source_ratings(r.sources@)) >= i128::MIN,
        more.sources@.len() <= u64::MAX,
    ensures
        s.rating is None ==> super::recording_rating(more) == super::recording_rating(r),
        s.rating is Some && super::recording_rating(r) is None ==> super::recording_rating(more)
            == Some(MeanRating { sum: s.rating->0 as i128, count: 1 }),
        s.rating is Some && super::recording_rating(r) is Some ==> (super::recording_rating(
            more,
        ) matches Some(m) && m.sum == super::recording_rating(r)->0.sum + s.rating->0 && m.count
            == super::recording_rating(r)->0.count + 1),
{
    let f = |x: RawSource| x.rating;
    let a = super::source_ratings(r.sources@);
    let all = more.sources@;
    let n = r.sources@.len() as int;
    all.lemma_filter_map_take_succ(f, n);
    assert(all.take(n) =~= r.sources@);
    assert(all.take(n + 1) =~= all);
    lemma_ratings_len(r.sources@);
    lemma_ratings_len(all);
    if s.rating is Some {
        let b = super::source_ratings(all);
        assert(b =~= a.push(s.rating->0));
        assert(b.drop_last() =~= a);
    } else {
        assert(super::source_ratings(all) =~= a);
    }
}

/// A recording without sources has no rating.
pub proof fn law_nothing_is_unrated(r: MemRecording)
    requires
        forall|i: int| 0 <= i < r.sources@.len() ==> (#[trigger] r.sources@[i]).rating is None,
    ensures
        super::recording_rating(r) is None,
{
    let f = |x: RawSource| x.rating;
    let a = super::source_ratings(r.sources@);
    if a.len() > 0 {
        assert(a.contains(a[0]));
        text::lemma_filter_map_source(r.sources@, f, a[0]);
    }
}

/// A mean is rounded to the nearest whole number, and halves away from zero.
pub proof fn law_rounding_is_nearest(m: MeanRating)
    requires
        m.count > 0,
    ensures
        m.sum >= 0 ==> 2 * super::rounded(m) * m.count <= 2 * m.sum + m.count < 2 * (super::rounded(
            m,
        ) + 1) * m.count,
        m.sum < 0 ==> 2 * super::rounded(m) * m.count >= 2 * m.sum - m.count > 2 * (super::rounded(
            m,
        ) - 1) * m.count,
{
    let c = m.count as int;
    let size = if m.sum >= 0 {
        m.sum as int
    } else {
        -m.sum
    };
    let q = size / c;
    let rest = size % c;
    vstd::arithmetic::div_mod::lemma_fundamental_div_mod(size, c);
    assert(0 <= rest < c);
    let up = if 2 * rest >= c {
        1int
    } else {
        0int
    };
    let r = q + up;
    assert(2 * r * c == 2 * (c * q) + 2 * up * c) by (nonlinear_arith)
        requires
            r == q + up,
    ;
    assert(2 * (r + 1) * c == 2 * (c * q) + 2 * up * c + 2 * c) by (nonlinear_arith)
        requires
            r == q + up,
    ;
    assert(2 * up * c == if 2 * rest >= c {
        2 * c
    } else {
        0
    }) by (nonlinear_arith)
        requires
            up == if 2 * rest >= c {
                1int
            } else {
                0int
            },
    ;
    if m.sum < 0 {
        assert(super::rounded(m) == -r);
        assert(2 * (-r) * c == -(2 * r * c)) by (nonlinear_arith);
        assert(2 * (-r - 1) * c == -(2 * (r + 1) * c)) by (nonlinear_arith);
    }
}

// ── Numbers ──────────────────────────────────────────────────────────────────

proof fn lemma_trimmed_number(n: i64)
    ensures
        text::trim(text::signed_decimal(n as int)) == text::signed_decimal(n as int),
        !text::signed_decimal(n as int).contains('/'),
{
    let size: nat = if n < 0 {
        (-(n as int)) as nat
    } else {
        n as nat
    };
    text::law_decimal_reads_back(size);
    let d = text::decimal(size);
    let s = text::signed_decimal(n as int);
    assert forall|i: int| 0 <= i < s.len() implies '!' <= #[trigger] s[i] <= '~' && s[i] != '/' by {
        if n < 0 && i > 0 {
            assert(s[i] == d[i - 1]);
        } else if n >= 0 {
            assert(s[i] == d[i]);
        }
    }
    text::law_blanks(s[0]);
    text::law_blanks(s.last());
    assert(text::trim_start(s) == s);
    assert(text::trim_end(s) == s);
}

/// A position is written before a slash, and the number of positions behind it.
pub proof fn law_position_and_total(a: i64, b: i64)
    ensures
        ({
            let x = text::signed_decimal(a as int);
            let y = text::signed_decimal(b as int);
            let both = x + seq!['/'] + y;
            &&& super::slash_number(x, 0) == Some(a)
            &&& super::slash_number(x, 1) is None
            &&& super::slash_number(both, 0) == Some(a)
            &&& super::slash_number(both, 1) == Some(b)
            &&& super::before_slash(x) == Some(a)
            &&& super::before_slash(both) == Some(a)
        }),
{
    let x = text::signed_decimal(a as int);
    let y = text::signed_decimal(b as int);
    let both = x + seq!['/'] + y;
    lemma_trimmed_number(a);
    lemma_trimmed_number(b);
    text::law_number_reads_back(a);
    text::law_number_reads_back(b);
    assert forall|i: int| 0 <= i < x.len() implies x[i] != '/' by {
        assert(x.contains(x[i]));
    }
    text::lemma_first_at_is(x, '/', x.len() as int);
    text::lemma_first_at_is(both, '/', x.len() as int);
    assert(both.take(x.len() as int) =~= x);
    assert(both.skip(x.len() + 1int) =~= y);
    reveal_with_fuel(text::split_limited, 3);
    assert(text::split_limited(x, '/', 2) =~= seq![x]);
    assert(text::split_limited(both, '/', 2) =~= seq![x, y]);
    assert(text::split(x, '/') =~= seq![x]);
    assert(text::split(both, '/')[0] == x);
}

// ── Names ────────────────────────────────────────────────────────────────────

/// A leading article moves behind the name; other names are sorted as they are.
pub proof fn law_article_moves_behind(name: Seq<char>)
    ensures
        name.len() >= 4 && "the "@.is_prefix_of(text::lowercase(name)) ==> super::sort_name_of(name)
            == name.skip(4) + ", The"@,
        name.len() >= 2 && "a "@.is_prefix_of(text::lowercase(name)) ==> super::sort_name_of(name)
            == name.skip(2) + ", A"@,
        name.len() >= 3 && "an "@.is_prefix_of(text::lowercase(name)) ==> super::sort_name_of(name)
            == name.skip(3) + ", An"@,
        !"the "@.is_prefix_of(text::lowercase(name)) && !"a "@.is_prefix_of(text::lowercase(name))
            && !"an "@.is_prefix_of(text::lowercase(name)) ==> super::sort_name_of(name) == name,
{
    reveal_strlit("the ");
    reveal_strlit("a ");
    reveal_strlit("an ");
    let l = text::lowercase(name);
    if "the "@.is_prefix_of(l) {
        assert(l.subrange(0, 4)[0] == 't');
    }
    if "a "@.is_prefix_of(l) {
        assert(l.subrange(0, 2)[0] == 'a' && l.subrange(0, 2)[1] == ' ');
    }
    if "an "@.is_prefix_of(l) {
        assert(l.subrange(0, 3)[0] == 'a' && l.subrange(0, 3)[1] == 'n');
    }
}

/// The title is that of the first title tag.
pub proof fn law_title_is_tagged(t: Tags, v: Seq<char>)
    ensures
        first_says(t, "TIT2"@, v) ==> described::title_of(t) == v,
        lacks(t, "TIT2"@) ==> described::title_of(t) == "(Unknown)"@,
{
    law_first_tag_counts(t, "TIT2"@);
}

/// Whether `n` is one of the names of a list that is separated by semicolons, without
/// the blanks around it.
pub open spec fn listed_in(list: Seq<char>, n: Seq<char>) -> bool {
    n.len() > 0 && exists|k: int|
        0 <= k < text::split(list, ';').len() && n == text::trim(
            #[trigger] text::split(list, ';')[k],
        )
}

/// A recording has just the artists that its tags name, the lead artist and those of
/// the list, each once, and the lead artist comes first.
pub proof fn law_tags_name_artists(t: Tags, n: Seq<char>)
    ensures
        described::names_of(t).no_duplicates(),
        described::names_of(t).contains(n) <==> first_says(t, "TPE1"@, n) || exists|list: Seq<char>|
            #[trigger] first_says(t, "TXXX:ARTISTS"@, list) && listed_in(list, n),
        first_says(t, "TPE1"@, n) ==> described::names_of(t)[0] == n,
{
    law_first_tag_counts(t, "TPE1"@);
    law_first_tag_counts(t, "TXXX:ARTISTS"@);
    let lead = described::lead_names(t);
    let listed = described::listed_names(t);
    let all = lead + listed;
    text::lemma_distinct(all);
    if first_says(t, "TPE1"@, n) {
        assert(all[0] == n);
        assert(all.contains(n));
        assert(all =~= Seq::empty().push(n) + listed);
        lemma_first_stays(n, listed);
    }
    let f = |s: Seq<char>| described::clean_part(s);
    if let Some(list) = super::tag_value(t, "TXXX:ARTISTS"@) {
        let parts = text::split(list, ';');
        assert(first_says(t, "TXXX:ARTISTS"@, list));
        if listed_in(list, n) {
            let k = choose|k: int|
                0 <= k < parts.len() && n == text::trim(#[trigger] parts[k]);
            text::lemma_filter_map_keeps(parts, f, k);
            assert(listed.contains(n));
            let j = choose|j: int| 0 <= j < listed.len() && listed[j] == n;
            assert(all[lead.len() + j] == n);
        }
        if listed.contains(n) {
            text::lemma_filter_map_source(parts, f, n);
            let k = choose|k: int| 0 <= k < parts.len() && f(#[trigger] parts[k]) == Some(n);
            assert(n == text::trim(parts[k]));
            assert(listed_in(list, n));
        }
    }
    assert(described::names_of(t).contains(n) <==> all.contains(n));
    if described::names_of(t).contains(n) {
        let j = choose|j: int| 0 <= j < all.len() && all[j] == n;
        if j < lead.len() {
            assert(first_says(t, "TPE1"@, n));
        } else {
            assert(listed[j - lead.len()] == n);
            assert(listed.contains(n));
            assert(super::tag_value(t, "TXXX:ARTISTS"@) is Some);
        }
    }
}

proof fn lemma_first_stays(x: Seq<char>, rest: Seq<Seq<char>>)
    ensures
        text::distinct(seq![x] + rest).len() > 0,
        text::distinct(seq![x] + rest)[0] == x,
    decreases rest.len(),
{
    let all = seq![x] + rest;
    if rest.len() == 0 {
        assert(all =~= Seq::empty().push(x));
        text::lemma_distinct_push(Seq::empty(), x);
        assert(text::distinct(Seq::<Seq<char>>::empty()) =~= Seq::empty());
    } else {
        lemma_first_stays(x, rest.drop_last());
        assert(all =~= (seq![x] + rest.drop_last()).push(rest.last()));
        text::lemma_distinct_push(seq![x] + rest.drop_last(), rest.last());
    }
}

/// The lead artist is known by the identifier of the tags, where they give one, and
/// sorted by the name of the tags, where they give one.
pub proof fn law_lead_artist_is_identified(t: Tags, id: Seq<char>, sort: Seq<char>)
    requires
        described::names_of(t).len() > 0,
    ensures
        described::credits_of(t).len() == described::names_of(t).len(),
        described::credits_of(t)[0].1 == described::names_of(t)[0],
        first_says(t, "TXXX:MusicBrainz Artist Id"@, id) ==> described::credits_of(t)[0].0 == id,
        first_says(t, "TSOP"@, sort) ==> described::credits_of(t)[0].2 == sort,
{
    law_first_tag_counts(t, "TXXX:MusicBrainz Artist Id"@);
    law_first_tag_counts(t, "TSOP"@);
}

/// Artists with the same name are the same artist wherever no identifier tells them
/// apart, and all but the lead artist are known by their names.
pub proof fn law_artists_are_known_by_name(t: Tags, i: int, u: Tags, j: int)
    requires
        0 <= i < described::names_of(t).len(),
        0 <= j < described::names_of(u).len(),
        described::names_of(t)[i] == described::names_of(u)[j],
        i > 0 || lacks(t, "TXXX:MusicBrainz Artist Id"@),
        j > 0 || lacks(u, "TXXX:MusicBrainz Artist Id"@),
    ensures
        described::credits_of(t)[i].0 == described::credits_of(u)[j].0,
        described::credits_of(t)[i].1 == described::names_of(t)[i],
        i > 0 ==> described::credits_of(t)[i].2 == super::sort_name_of(described::names_of(t)[i]),
{
    law_first_tag_counts(t, "TXXX:MusicBrainz Artist Id"@);
    law_first_tag_counts(u, "TXXX:MusicBrainz Artist Id"@);
}

// ── Release groups ───────────────────────────────────────────────────────────

/// Files with the same album and the same album artist are in one release group,
/// whatever artists they name, and the release group is credited to the album artist.
pub proof fn law_album_artist_makes_the_group(
    t: Tags,
    u: Tags,
    album: Seq<char>,
    artist: Seq<char>,
)
    requires
        first_says(t, "TALB"@, album),
        first_says(u, "TALB"@, album),
        first_says(t, "TPE2"@, artist),
        first_says(u, "TPE2"@, artist),
        lacks(t, "TXXX:MusicBrainz Release Group Id"@),
        lacks(u, "TXXX:MusicBrainz Release Group Id"@),
    ensures
        described::group_of(t) is Some,
        described::group_of(t) == described::group_of(u),
        described::album_artist(t) == Some(artist),
        described::album_artist(u) == Some(artist),
{
    law_first_tag_counts(t, "TALB"@);
    law_first_tag_counts(u, "TALB"@);
    law_first_tag_counts(t, "TPE2"@);
    law_first_tag_counts(u, "TPE2"@);
    law_first_tag_counts(t, "TXXX:MusicBrainz Release Group Id"@);
    law_first_tag_counts(u, "TXXX:MusicBrainz Release Group Id"@);
}

/// Without an album artist the lead artist takes their place: a file that names the
/// lead artist alone is in the release group of one that names them as album artist.
pub proof fn law_lead_artist_stands_for_album_artist(
    t: Tags,
    u: Tags,
    album: Seq<char>,
    artist: Seq<char>,
)
    requires
        first_says(t, "TALB"@, album),
        first_says(u, "TALB"@, album),
        first_says(t, "TPE1"@, artist),
        lacks(t, "TPE2"@),
        first_says(u, "TPE2"@, artist),
        lacks(t, "TXXX:MusicBrainz Release Group Id"@),
        lacks(u, "TXXX:MusicBrainz Release Group Id"@),
    ensures
        described::group_of(t) is Some,
        described::group_of(t) == described::group_of(u),
        described::album_artist(t) == Some(artist),
{
    law_first_tag_counts(t, "TALB"@);
    law_first_tag_counts(u, "TALB"@);
    law_first_tag_counts(t, "TPE1"@);
    law_first_tag_counts(t, "TPE2"@);
    law_first_tag_counts(u, "TPE2"@);
    law_first_tag_counts(t, "TXXX:MusicBrainz Release Group Id"@);
    law_first_tag_counts(u, "TXXX:MusicBrainz Release Group Id"@);
}

/// A file that gives the identifier of its release group is in that one. A file
/// without an album, or without any artist, is in none.
pub proof fn law_identifier_makes_the_group(t: Tags, id: Seq<char>)
    ensures
        first_says(t, "TXXX:MusicBrainz Release Group Id"@, id) && !lacks(t, "TALB"@) && (!lacks(
            t,
            "TPE2"@,
        ) || !lacks(t, "TPE1"@)) ==> described::group_of(t) == Some(id),
        lacks(t, "TALB"@) ==> described::group_of(t) is None,
        lacks(t, "TPE1"@) && lacks(t, "TPE2"@) ==> described::group_of(t) is None,
        !lacks(t, "TALB"@) && (!lacks(t, "TPE2"@) || !lacks(t, "TPE1"@)) ==> described::group_of(
            t,
        ) is Some,
{
    law_first_tag_counts(t, "TALB"@);
    law_first_tag_counts(t, "TPE1"@);
    law_first_tag_counts(t, "TPE2"@);
    law_first_tag_counts(t, "TXXX:MusicBrainz Release Group Id"@);
}

/// The identifier of a release group without one of its own is made from the text
/// `album|artist`, without regard to case and to blanks around it.
pub proof fn law_group_is_named_by_album_and_artist(t: Tags, album: Seq<char>, artist: Seq<char>)
    requires
        first_says(t, "TALB"@, album),
        first_says(t, "TPE2"@, artist),
        lacks(t, "TXXX:MusicBrainz Release Group Id"@),
    ensures
        described::group_of(t) == Some(super::hashed_name("rg"@, album + "|"@ + artist)),
{
    law_first_tag_counts(t, "TALB"@);
    law_first_tag_counts(t, "TPE2"@);
    law_first_tag_counts(t, "TXXX:MusicBrainz Release Group Id"@);
}

/// The year is the front of the recording date, or else of the year tag: no more than
/// four characters.
pub proof fn law_year_is_front_of_date(t: Tags, v: Seq<char>)
    ensures
        first_says(t, "TDRC"@, v) || (lacks(t, "TDRC"@) && first_says(t, "TYER"@, v)) ==> (
        described::year_of(t) matches Some(y) && y.len() <= 4 && y.is_prefix_of(v) && (v.len() >= 4
            ==> y.len() == 4) && (v.len() < 4 ==> y == v)),
        lacks(t, "TDRC"@) && lacks(t, "TYER"@) ==> described::year_of(t) is None,
{
    law_first_tag_counts(t, "TDRC"@);
    law_first_tag_counts(t, "TYER"@);
}

/// Track and disc are told by their tags, as numbers before a slash.
pub proof fn law_tags_place_tracks(t: Tags, track: i64, total: i64, disc: i64, discs: i64)
    requires
        first_says(
            t,
            "TRCK"@,
            text::signed_decimal(track as int) + seq!['/'] + text::signed_decimal(total as int),
        ),
        first_says(
            t,
            "TPOS"@,
            text::signed_decimal(disc as int) + seq!['/'] + text::signed_decimal(discs as int),
        ),
    ensures
        described::track_of(t) == Some(track),
        super::appears::total_of(t) == Some(total),
        described::disc_of(t) == Some(disc),
        described::group_of(t) matches Some(id) ==> super::appears::placement(t) == Some(
            (id, Some(track), Some(disc), Some(total)),
        ),
{
    law_first_tag_counts(t, "TRCK"@);
    law_first_tag_counts(t, "TPOS"@);
    law_position_and_total(track, total);
    law_position_and_total(disc, discs);
}

/// A track number alone tells no total, and without the tags nothing is told.
pub proof fn law_plain_numbers_place_tracks(t: Tags, track: i64, disc: i64)
    ensures
        first_says(t, "TRCK"@, text::signed_decimal(track as int)) ==> described::track_of(t)
            == Some(track) && super::appears::total_of(t) is None,
        first_says(t, "TPOS"@, text::signed_decimal(disc as int)) ==> described::disc_of(t) == Some(
            disc,
        ),
        lacks(t, "TRCK"@) ==> described::track_of(t) is None && super::appears::total_of(t) is None,
        lacks(t, "TPOS"@) ==> described::disc_of(t) is None,
{
    law_first_tag_counts(t, "TRCK"@);
    law_first_tag_counts(t, "TPOS"@);
    law_position_and_total(track, 0);
    law_position_and_total(disc, 0);
}

} // verus!

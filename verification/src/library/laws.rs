//! What the library finds in its files, and what it does with them.
use vstd::prelude::*;
use crate::storage::memory::{described, rows};
use crate::text;
use super::artist_fixes;
use super::fix_merges;
use super::fix_merges::MergeSource;
use super::import;
use super::import::ExistingSource;

verus! {

// ── Compound artists ─────────────────────────────────────────────────────────

/// The names in a list are what stands between its semicolons, without blanks around it,
/// where anything is left.
pub proof fn law_names_stand_between_semicolons(list: Seq<char>, name: Seq<char>)
    ensures
        artist_fixes::listed_names(list).contains(name) <==> name.len() > 0 && exists|i: int|
            0 <= i < text::split(list, ';').len() && text::trim(
                #[trigger] text::split(list, ';')[i],
            ) == name,
{
    let parts = text::split(list, ';');
    let f = |s: Seq<char>| described::clean_part(s);
    if artist_fixes::listed_names(list).contains(name) {
        text::lemma_filter_map_source(parts, f, name);
        let i = choose|i: int| 0 <= i < parts.len() && f(#[trigger] parts[i]) == Some(name);
        assert(text::trim(parts[i]) == name);
    }
    if name.len() > 0 && exists|i: int|
        0 <= i < parts.len() && text::trim(#[trigger] parts[i]) == name {
        let i = choose|i: int| 0 <= i < parts.len() && text::trim(#[trigger] parts[i]) == name;
        text::lemma_filter_map_keeps(parts, f, i);
    }
}

/// Names that are joined with semicolons are listed again, in order.
pub proof fn law_joined_names_are_listed(names: Seq<Seq<char>>)
    requires
        names.len() > 0,
        forall|i: int|
            0 <= i < names.len() ==> (#[trigger] names[i]).len() > 0 && text::trim(names[i])
                == names[i] && !names[i].contains(';'),
    ensures
        artist_fixes::listed_names(text::joined(names, seq![';'])) == names,
        artist_fixes::evidence(Some(text::joined(names, seq![';']))) is Some <==> names.len() >= 2,
        names.len() >= 2 ==> artist_fixes::evidence(Some(text::joined(names, seq![';'])))
            == Some(names),
        artist_fixes::evidence(None) is None,
{
    let f = |s: Seq<char>| described::clean_part(s);
    text::law_joined_parts_split_again(names, ';');
    lemma_all_kept(names, f);
}

proof fn lemma_all_kept(s: Seq<Seq<char>>, f: spec_fn(Seq<char>) -> Option<Seq<char>>)
    requires
        forall|i: int| 0 <= i < s.len() ==> f(#[trigger] s[i]) == Some(s[i]),
    ensures
        s.filter_map(f) == s,
    decreases s.len(),
{
    if s.len() > 0 {
        let n = s.len() - 1;
        let front = s.take(n);
        assert forall|i: int| 0 <= i < front.len() implies f(#[trigger] front[i]) == Some(
            front[i],
        ) by {
            assert(s[i] == front[i]);
        }
        lemma_all_kept(front, f);
        s.lemma_filter_map_take_succ(f, n);
        assert(s.take(n + 1) =~= s);
        assert(f(s[n]) == Some(s[n]));
        assert(front.push(s[n]) =~= s);
    } else {
        assert(s.filter_map(f) =~= s);
    }
}

/// The artists in a compound one are just the names that a list of several gives, other
/// than its own in whatever case, each once.
pub proof fn law_parts_of_compound_are_listed(
    artist: Seq<char>,
    lists: Seq<Option<Seq<char>>>,
    name: Seq<char>,
)
    ensures
        artist_fixes::individual_names(artist, lists).no_duplicates(),
        artist_fixes::individual_names(artist, lists).contains(name) <==> text::lowercase(name)
            != text::lowercase(artist) && exists|i: int|
            0 <= i < lists.len() && (#[trigger] lists[i]) is Some && artist_fixes::listed_names(
                lists[i]->0,
            ).len() >= 2 && artist_fixes::listed_names(lists[i]->0).contains(name),
{
    let f = |o: Option<Seq<char>>| artist_fixes::evidence(o);
    let keep = artist_fixes::other_name(artist);
    let table = artist_fixes::all_evidence(lists);
    let d = text::distinct(table.flatten());
    let found = d.filter(keep);
    text::lemma_distinct(table.flatten());
    lemma_filter_keeps_distinct(d, keep);
    if found.contains(name) {
        d.lemma_filter_contains_rev(keep, name);
        let k = choose|k: int| 0 <= k < found.len() && found[k] == name;
        d.lemma_filter_pred(keep, k);
        assert(table.flatten().contains(name));
        text::lemma_flatten_contains(table, name);
        let j = choose|j: int| 0 <= j < table.len() && (#[trigger] table[j]).contains(name);
        assert(table.contains(table[j]));
        text::lemma_filter_map_source(lists, f, table[j]);
        let i = choose|i: int| 0 <= i < lists.len() && f(#[trigger] lists[i]) == Some(table[j]);
        assert(lists[i] is Some);
    }
    if text::lowercase(name) != text::lowercase(artist) && exists|i: int|
        0 <= i < lists.len() && (#[trigger] lists[i]) is Some && artist_fixes::listed_names(
            lists[i]->0,
        ).len() >= 2 && artist_fixes::listed_names(lists[i]->0).contains(name) {
        let i = choose|i: int|
            0 <= i < lists.len() && (#[trigger] lists[i]) is Some && artist_fixes::listed_names(
                lists[i]->0,
            ).len() >= 2 && artist_fixes::listed_names(lists[i]->0).contains(name);
        text::lemma_filter_map_keeps(lists, f, i);
        let row = artist_fixes::listed_names(lists[i]->0);
        let k = choose|k: int| 0 <= k < table.len() && table[k] == row;
        let j = choose|j: int| 0 <= j < row.len() && row[j] == name;
        super::tag_writer::layout::lemma_in_files(table, k, j);
        assert(d.contains(name));
        let m = choose|m: int| 0 <= m < d.len() && d[m] == name;
        d.lemma_filter_contains(keep, m);
    }
}

proof fn lemma_filter_keeps_distinct<A>(s: Seq<A>, keep: spec_fn(A) -> bool)
    requires
        s.no_duplicates(),
    ensures
        s.filter(keep).no_duplicates(),
    decreases s.len(),
{
    reveal(Seq::filter);
    if s.len() > 0 {
        let front = s.drop_last();
        lemma_filter_keeps_distinct(front, keep);
        let f = front.filter(keep);
        assert forall|i: int| 0 <= i < f.len() implies f[i] != s.last() by {
            assert(f.contains(f[i]));
            front.lemma_filter_contains_rev(keep, f[i]);
            let j = choose|j: int| 0 <= j < front.len() && front[j] == f[i];
            assert(s[j] != s[s.len() - 1]);
        }
    }
}

/// At most three examples are given: the first.
pub proof fn law_examples_are_the_first(paths: Seq<Seq<char>>, i: int)
    ensures
        artist_fixes::examples(paths).len() <= 3,
        artist_fixes::examples(paths).len() == 3 || artist_fixes::examples(paths).len()
            == paths.len(),
        0 <= i < artist_fixes::examples(paths).len() ==> artist_fixes::examples(paths)[i]
            == paths[i],
{
}

// ── Merged recordings ────────────────────────────────────────────────────────

/// Whether a list gives a MusicBrainz identifier.
pub open spec fn gives_identifier(list: Seq<Seq<char>>) -> bool {
    list.len() >= 2 && list[0] == "UFID:http://musicbrainz.org"@ && list[1].len() > 0
}

/// The identifier of a stored file is that of the first list that gives one.
pub proof fn law_first_identifier_counts(lists: Seq<Seq<Seq<char>>>, k: int)
    requires
        0 <= k <= lists.len(),
        forall|i: int| 0 <= i < k ==> !gives_identifier(#[trigger] lists[i]),
    ensures
        k < lists.len() && gives_identifier(lists[k]) ==> fix_merges::first_mbid(lists) == Some(
            lists[k][1],
        ),
        k == lists.len() ==> fix_merges::first_mbid(lists) is None,
    decreases lists.len(),
{
    if lists.len() > 0 && k > 0 {
        let rest = lists.skip(1);
        assert(!gives_identifier(lists[0]));
        assert forall|i: int| 0 <= i < k - 1 implies !gives_identifier(#[trigger] rest[i]) by {
            assert(rest[i] == lists[i + 1]);
        }
        law_first_identifier_counts(rest, k - 1);
        if k < lists.len() {
            assert(rest[k - 1] == lists[k]);
        }
    }
}

/// The files that share an identifier are just those that carry it.
pub proof fn law_files_with_identifier(
    files: Seq<MergeSource>,
    mbid: Seq<char>,
    id: Seq<char>,
    path: Seq<char>,
)
    ensures
        fix_merges::sources_with(files, mbid).contains((id, path)) <==> exists|i: int|
            0 <= i < files.len() && (#[trigger] files[i]).mbid is Some && files[i].mbid->0@ == mbid
                && files[i].id@ == id && files[i].file_path@ == path,
{
    let f = |r: MergeSource|
        if text::opt_text(r.mbid) == Some(mbid) {
            Some((r.id@, r.file_path@))
        } else {
            None
        };
    if fix_merges::sources_with(files, mbid).contains((id, path)) {
        text::lemma_filter_map_source(files, f, (id, path));
        let i = choose|i: int| 0 <= i < files.len() && f(#[trigger] files[i]) == Some((id, path));
        assert(files[i].mbid is Some);
    }
    if exists|i: int|
        0 <= i < files.len() && (#[trigger] files[i]).mbid is Some && files[i].mbid->0@ == mbid
            && files[i].id@ == id && files[i].file_path@ == path {
        let i = choose|i: int|
            0 <= i < files.len() && (#[trigger] files[i]).mbid is Some && files[i].mbid->0@ == mbid
                && files[i].id@ == id && files[i].file_path@ == path;
        text::lemma_filter_map_keeps(files, f, i);
    }
}

/// Two files with one identifier make a group, under that identifier and with all files
/// that carry it; a group is never of one file.
pub proof fn law_shared_identifier_makes_group(files: Seq<MergeSource>, i: int, j: int)
    requires
        0 <= i < j < files.len(),
        files[i].mbid is Some,
        text::opt_text(files[i].mbid) == text::opt_text(files[j].mbid),
    ensures
        fix_merges::groups_of(files).contains(
            (files[i].mbid->0@, fix_merges::sources_with(files, files[i].mbid->0@)),
        ),
        forall|k: int|
            0 <= k < fix_merges::groups_of(files).len() ==> (#[trigger] fix_merges::groups_of(
                files,
            )[k]).1.len() > 1 && fix_merges::groups_of(files)[k].1 == fix_merges::sources_with(
                files,
                fix_merges::groups_of(files)[k].0,
            ),
{
    let mbid = files[i].mbid->0@;
    let ids = fix_merges::mbids(files);
    let pick = |r: MergeSource| text::opt_text(r.mbid);
    let g = |m: Seq<char>|
        if fix_merges::sources_with(files, m).len() > 1 {
            Some((m, fix_merges::sources_with(files, m)))
        } else {
            None
        };
    text::lemma_distinct(files.filter_map(pick));
    text::lemma_filter_map_keeps(files, pick, i);
    assert(files.filter_map(pick).contains(mbid));
    assert(ids.contains(mbid));
    let m = choose|m: int| 0 <= m < ids.len() && ids[m] == mbid;
    lemma_two_files(files, mbid, i, j);
    text::lemma_filter_map_keeps(ids, g, m);
    let groups = fix_merges::groups_of(files);
    assert forall|k: int| 0 <= k < groups.len() implies (#[trigger] groups[k]).1.len() > 1
        && groups[k].1 == fix_merges::sources_with(files, groups[k].0) by {
        assert(groups.contains(groups[k]));
        text::lemma_filter_map_source(ids, g, groups[k]);
        let n = choose|n: int| 0 <= n < ids.len() && g(#[trigger] ids[n]) == Some(groups[k]);
        assert(g(ids[n]) is Some);
    }
}

proof fn lemma_two_files(files: Seq<MergeSource>, mbid: Seq<char>, i: int, j: int)
    requires
        0 <= i < j < files.len(),
        text::opt_text(files[i].mbid) == Some(mbid),
        text::opt_text(files[j].mbid) == Some(mbid),
    ensures
        fix_merges::sources_with(files, mbid).len() > 1,
    decreases files.len(),
{
    let f = |r: MergeSource|
        if text::opt_text(r.mbid) == Some(mbid) {
            Some((r.id@, r.file_path@))
        } else {
            None
        };
    let n = files.len() - 1;
    let front = files.take(n);
    files.lemma_filter_map_take_succ(f, n);
    assert(files.take(n + 1) =~= files);
    if j < n {
        lemma_two_files(front, mbid, i, j);
    } else {
        text::lemma_filter_map_keeps(front, f, i);
        let s = front.filter_map(f);
        let x = f(front[i])->0;
        let k = choose|k: int| 0 <= k < s.len() && s[k] == x;
        assert(s.len() > 0);
    }
}

/// Of marked files just the marked ones are taken, in order.
pub proof fn law_marked_are_taken(
    s: Seq<(Seq<char>, Seq<char>)>,
    marks: Seq<bool>,
    x: (Seq<char>, Seq<char>),
)
    requires
        marks.len() == s.len(),
    ensures
        fix_merges::marked(Seq::empty(), Seq::empty()).len() == 0,
        fix_merges::marked(s.push(x), marks.push(true)) == fix_merges::marked(s, marks).push(x),
        fix_merges::marked(s.push(x), marks.push(false)) == fix_merges::marked(s, marks),
{
    assert(s.push(x).drop_last() =~= s);
    assert(marks.push(true).drop_last() =~= marks);
    assert(marks.push(false).drop_last() =~= marks);
}

// ── Importing ────────────────────────────────────────────────────────────────

/// A file that is new is read whole. One that has not changed is read again only where
/// something of it is not known yet, and only for that.
pub proof fn law_only_what_is_missing_is_read(
    existing: ExistingSource,
    size: i64,
    mtime_ms: i64,
)
    ensures
        import::planned(None, size, mtime_ms) matches Some(plan) && plan.needs_hash
            && plan.needs_fingerprint,
        existing.file_size == Some(size) && existing.file_mtime_ms == Some(mtime_ms) ==> {
            let plan = import::planned(Some(existing), size, mtime_ms);
            &&& plan is None <==> existing.file_hash is Some && existing.fingerprint is Some
                && existing.has_raw_tags
            &&& plan is Some ==> (plan->0.needs_hash <==> existing.file_hash is None)
            &&& plan is Some ==> (plan->0.needs_fingerprint <==> existing.fingerprint is None)
        },
{
}

/// An identifier that was found comes before the one in the tags.
pub proof fn law_found_identifier_comes_first(mbid: Seq<char>, tags: described::Tags, i: int)
    ensures
        import::settled_mbid(Some(mbid), tags) == Some(mbid),
        0 <= i < tags.len() && tags[i].0 == "UFID:http://musicbrainz.org"@ ==> import::settled_tags(
            Some(mbid),
            tags,
        ) == tags,
        (forall|j: int|
            0 <= j < tags.len() ==> (#[trigger] tags[j]).0 != "UFID:http://musicbrainz.org"@)
            ==> import::settled_tags(Some(mbid), tags) == tags.push(
            ("UFID:http://musicbrainz.org"@, mbid),
        ),
        (forall|j: int|
            0 <= j < tags.len() ==> (#[trigger] tags[j]).0 != "UFID:http://musicbrainz.org"@)
            ==> import::settled_tags(None, tags) == tags,
{
    if forall|j: int|
        0 <= j < tags.len() ==> (#[trigger] tags[j]).0 != "UFID:http://musicbrainz.org"@ {
        rows::law_no_mbid(tags);
    }
}

/// Taking the identifier out of tags leaves all others as they stand.
pub proof fn law_other_tags_stay(tags: described::Tags, t: (Seq<char>, Seq<char>))
    ensures
        import::without_mbid(Seq::empty()).len() == 0,
        t.0 == "UFID:http://musicbrainz.org"@ ==> import::without_mbid(tags.push(t))
            == import::without_mbid(tags),
        t.0 != "UFID:http://musicbrainz.org"@ ==> import::without_mbid(tags.push(t))
            == import::without_mbid(tags).push(t),
{
    reveal(Seq::filter);
    assert(tags.push(t).drop_last() =~= tags);
}

/// The identifier of a stored file is the first in its lists; a file without tags, or
/// with tags that cannot be read, has none.
pub proof fn law_stored_identifier(json: String, lists: Seq<Seq<Seq<char>>>, k: int)
    ensures
        fix_merges::stored_mbid(None) is None,
        json@.len() == 0 ==> fix_merges::stored_mbid(Some(json)) is None,
        fix_merges::lists_in_json(json@) is None ==> fix_merges::stored_mbid(Some(json)) is None,
        json@.len() > 0 && fix_merges::lists_in_json(json@) == Some(lists) && 0 <= k < lists.len()
            && gives_identifier(lists[k]) && (forall|i: int|
            0 <= i < k ==> !gives_identifier(#[trigger] lists[i])) ==> fix_merges::stored_mbid(
            Some(json),
        ) == Some(lists[k][1]),
{
    if 0 <= k < lists.len() && (forall|i: int|
        0 <= i < k ==> !gives_identifier(#[trigger] lists[i])) {
        law_first_identifier_counts(lists, k);
    }
}

/// Stored files are read one by one, each with its own identifier.
pub proof fn law_stored_files_are_read(
    files: Seq<MergeSource>,
    stored: Seq<fix_merges::StoredFile>,
    i: int,
)
    requires
        fix_merges::reads_files(files, stored),
        0 <= i < stored.len(),
    ensures
        files.len() == stored.len(),
        files[i].id@ == stored[i].id@,
        files[i].file_path@ == stored[i].file_path@,
        text::opt_text(files[i].mbid) == fix_merges::stored_mbid(stored[i].raw_tags_json),
{
    assert(files[i].id == stored[i].id);
}

/// A file is known by its size and time, as far as they can be counted.
pub proof fn law_files_are_known_by_size_and_time(
    len: u64,
    ms: u128,
    r: Result<(i64, i64), import::IdentityError>,
)
    requires
        call_ensures(import::file_identity, (len, ms), r),
    ensures
        r is Ok <==> len <= i64::MAX && ms <= i64::MAX,
        r matches Ok(id) ==> id.0 == len && id.1 == ms,
        len > i64::MAX ==> r is Err && r->Err_0 is TooLarge,
        len <= i64::MAX && ms > i64::MAX ==> r is Err && r->Err_0 is TimeOutOfRange,
{
}

/// A hash is known again only while neither size nor time has changed.
pub proof fn law_hash_holds_while_unchanged(
    existing: &Option<ExistingSource>,
    size: i64,
    mtime_ms: i64,
    r: Option<String>,
)
    requires
        call_ensures(import::known_hash, (existing, size, mtime_ms), r),
    ensures
        *existing is None ==> r is None,
        *existing is Some && (existing->0.file_size != Some(size) || existing->0.file_mtime_ms
            != Some(mtime_ms)) ==> r is None,
        *existing is Some && existing->0.file_size == Some(size) && existing->0.file_mtime_ms
            == Some(mtime_ms) ==> text::opt_text(r) == text::opt_text(existing->0.file_hash),
{
}

/// An artist is compound where some list of several names gives another name. Nothing is
/// found for an artist or sources that are not there.
pub proof fn law_compound_artists_are_found(
    name: Option<&str>,
    paths: &Vec<String>,
    lists: &Vec<Option<String>>,
    r: crate::models::CompoundArtistCheck,
)
    requires
        call_ensures(artist_fixes::check_artist_compound, (name, paths, lists), r),
    ensures
        name is None || paths@.len() == 0 ==> !r.is_compound && r.evidence_count == 0
            && r.total_sources_checked == 0 && r.individual_artist_names@.len() == 0,
        name is Some && paths@.len() > 0 ==> {
            &&& r.total_sources_checked == paths@.len()
            &&& text::texts(r.individual_artist_names@) == artist_fixes::individual_names(
                name->0@,
                artist_fixes::lists_view(lists@),
            )
            &&& r.is_compound <==> r.evidence_count > 0 && r.individual_artist_names@.len() > 0
            &&& text::texts(r.source_examples@) == artist_fixes::examples(text::texts(paths@))
        },
{
    assert(text::texts(r.individual_artist_names@).len() == r.individual_artist_names@.len());
}

} // verus!

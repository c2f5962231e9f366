//! Finding artists whose name stands for several artists.
use vstd::prelude::*;
use crate::models::CompoundArtistCheck;
use crate::storage::memory::described;
use crate::text;
use crate::text::{
    chars_of, contains_text, same_text, split_chars, string_from_chars, lower_text, trim_chars,
};

verus! {

// ── Meaning ──────────────────────────────────────────────────────────────────

/// The names in a list separated by semicolons.
pub open spec fn listed_names(artists: Seq<char>) -> Seq<Seq<char>> {
    text::split(artists, ';').filter_map(|s: Seq<char>| described::clean_part(s))
}

/// The names in the list of a source, where it names two or more.
pub open spec fn evidence(artists: Option<Seq<char>>) -> Option<Seq<Seq<char>>> {
    match artists {
        Some(a) => if listed_names(a).len() >= 2 {
            Some(listed_names(a))
        } else {
            None
        },
        None => None,
    }
}

/// The lists of sources.
pub open spec fn lists_view(v: Seq<Option<String>>) -> Seq<Option<Seq<char>>> {
    v.map_values(|o: Option<String>| text::opt_text(o))
}

/// The evidence that sources give.
pub open spec fn all_evidence(lists: Seq<Option<Seq<char>>>) -> Seq<Seq<Seq<char>>> {
    lists.filter_map(|o: Option<Seq<char>>| evidence(o))
}

/// Whether a name is another than that of the artist, whatever the case.
pub open spec fn other_name(artist: Seq<char>) -> spec_fn(Seq<char>) -> bool {
    |n: Seq<char>| text::lowercase(n) != text::lowercase(artist)
}

/// The names that sources give beside that of the artist, each once.
pub open spec fn individual_names(artist: Seq<char>, lists: Seq<Option<Seq<char>>>) -> Seq<
    Seq<char>,
> {
    text::distinct(all_evidence(lists).flatten()).filter(other_name(artist))
}

/// The first of texts, at most three.
pub open spec fn examples(paths: Seq<Seq<char>>) -> Seq<Seq<char>> {
    if paths.len() <= 3 {
        paths
    } else {
        paths.take(3)
    }
}

// ── Executable ───────────────────────────────────────────────────────────────

fn names_in(artists: &str) -> (r: Vec<String>)
    ensures
        text::texts(r@) == listed_names(artists@),
{
    let cs = chars_of(artists);
    let parts = split_chars(&cs, ';');
    let ghost all = text::split(artists@, ';');
    let ghost f = |s: Seq<char>| described::clean_part(s);
    let mut r: Vec<String> = Vec::new();
    let mut i: usize = 0;
    proof {
        assert(text::pieces(parts@).len() == parts@.len());
        assert(all.take(0) =~= Seq::empty());
        assert(text::texts(r@) =~= all.take(0).filter_map(f));
    }
    while i < parts.len()
        invariant
            i <= parts@.len(),
            parts@.len() == all.len(),
            text::pieces(parts@) == all,
            f == (|s: Seq<char>| described::clean_part(s)),
            text::texts(r@) == all.take(i as int).filter_map(f),
        decreases parts@.len() - i,
    {
        let ghost before = text::texts(r@);
        proof {
            all.lemma_filter_map_take_succ(f, i as int);
            assert(text::pieces(parts@)[i as int] == parts@[i as int]@);
        }
        let name = trim_chars(&parts[i]);
        if name.len() > 0 {
            r.push(string_from_chars(&name));
            assert(text::texts(r@) =~= before.push(name@));
        }
        assert(text::texts(r@) =~= all.take(i + 1).filter_map(f));
        i = i + 1;
    }
    assert(all.take(all.len() as int) =~= all);
    r
}

/// Adds the names that are not there yet.
fn add_names(names: &mut Vec<String>, more: &Vec<String>, Ghost(seen): Ghost<Seq<Seq<char>>>)
    requires
        text::texts(old(names)@) == text::distinct(seen),
    ensures
        text::texts(final(names)@) == text::distinct(seen + text::texts(more@)),
{
    let ghost all = text::texts(more@);
    let mut i: usize = 0;
    assert(seen + all.take(0) =~= seen);
    while i < more.len()
        invariant
            i <= more@.len(),
            all == text::texts(more@),
            text::texts(names@) == text::distinct(seen + all.take(i as int)),
        decreases more@.len() - i,
    {
        let ghost so_far = seen + all.take(i as int);
        proof {
            assert(all[i as int] == more@[i as int]@);
            assert(seen + all.take(i + 1) =~= so_far.push(all[i as int]));
            text::lemma_distinct_push(so_far, all[i as int]);
            text::lemma_distinct(so_far);
        }
        if !contains_text(names, &more[i]) {
            let ghost before = text::texts(names@);
            names.push(more[i].clone());
            assert(text::texts(names@) =~= before.push(all[i as int]));
        }
        i = i + 1;
    }
    assert(all.take(all.len() as int) =~= all);
}

/// The names that are other than that of the artist.
fn others(names: &Vec<String>, artist: &str) -> (r: Vec<String>)
    ensures
        text::texts(r@) == text::texts(names@).filter(other_name(artist@)),
{
    let ghost all = text::texts(names@);
    let ghost keep = other_name(artist@);
    let lower = lower_text(artist);
    let mut r: Vec<String> = Vec::new();
    let mut i: usize = 0;
    proof {
        assert(all.take(0) =~= Seq::empty());
        all.take(0).lemma_filter_len(keep);
        assert(text::texts(r@) =~= all.take(0).filter(keep));
    }
    while i < names.len()
        invariant
            i <= names@.len(),
            all == text::texts(names@),
            keep == other_name(artist@),
            lower@ == text::lowercase(artist@),
            text::texts(r@) == all.take(i as int).filter(keep),
        decreases names@.len() - i,
    {
        proof {
            assert(all[i as int] == names@[i as int]@);
            assert(all.take(i + 1) =~= all.take(i as int).push(all[i as int]));
            all.take(i as int).lemma_filter_push(all[i as int], keep);
        }
        if !same_text(&lower_text(&names[i]), &lower) {
            let ghost before = text::texts(r@);
            r.push(names[i].clone());
            assert(text::texts(r@) =~= before.push(all[i as int]));
        }
        i = i + 1;
    }
    assert(all.take(all.len() as int) =~= all);
    r
}

fn first_three(paths: &Vec<String>) -> (r: Vec<String>)
    ensures
        text::texts(r@) == examples(text::texts(paths@)),
{
    let mut r: Vec<String> = Vec::new();
    let mut i: usize = 0;
    while i < paths.len() && i < 3
        invariant
            i <= paths@.len(),
            i <= 3,
            text::texts(r@) == text::texts(paths@).take(i as int),
        decreases paths@.len() - i,
    {
        let ghost before = text::texts(r@);
        r.push(paths[i].clone());
        proof {
            assert(text::texts(r@) =~= before.push(paths@[i as int]@));
            assert(text::texts(paths@)[i as int] == paths@[i as int]@);
            assert(before.push(paths@[i as int]@) =~= text::texts(paths@).take(i + 1));
        }
        i = i + 1;
    }
    assert(text::texts(r@) =~= examples(text::texts(paths@)));
    r
}

/// Whether the sources of an artist show that the name stands for several artists.
/// `artist_name` is the artist, if known; `lists` holds the list of artists of each
/// source, as far as it could be read.
pub fn check_artist_compound(
    artist_name: Option<&str>,
    paths: &Vec<String>,
    lists: &Vec<Option<String>>,
) -> (r: CompoundArtistCheck)
    ensures
        match artist_name {
            Some(name) => if paths@.len() > 0 {
                let names = individual_names(name@, lists_view(lists@));
                let count = all_evidence(lists_view(lists@)).len();
                &&& r.is_compound == (count > 0 && names.len() > 0)
                &&& r.evidence_count == count
                &&& r.total_sources_checked == paths@.len()
                &&& text::texts(r.individual_artist_names@) == names
                &&& text::texts(r.source_examples@) == examples(text::texts(paths@))
            } else {
                finds_nothing(r)
            },
            None => finds_nothing(r),
        },
{
    let name = match artist_name {
        None => {
            return nothing_found();
        },
        Some(n) => n,
    };
    if paths.len() == 0 {
        return nothing_found();
    }
    let ghost all = lists_view(lists@);
    let ghost f = |o: Option<Seq<char>>| evidence(o);
    let mut names: Vec<String> = Vec::new();
    let mut evidence_count: usize = 0;
    let mut i: usize = 0;
    proof {
        assert(all.take(0) =~= Seq::empty());
        assert(all.take(0).filter_map(f).flatten() =~= Seq::empty());
        assert(text::texts(names@) =~= text::distinct(all.take(0).filter_map(f).flatten()));
    }
    while i < lists.len()
        invariant
            i <= lists@.len(),
            evidence_count <= i,
            all == lists_view(lists@),
            f == (|o: Option<Seq<char>>| evidence(o)),
            evidence_count == all.take(i as int).filter_map(f).len(),
            text::texts(names@) == text::distinct(all.take(i as int).filter_map(f).flatten()),
        decreases lists@.len() - i,
    {
        let ghost found = all.take(i as int).filter_map(f);
        proof {
            all.lemma_filter_map_take_succ(f, i as int);
            assert(all[i as int] == text::opt_text(lists@[i as int]));
        }
        match &lists[i] {
            Some(artists) => {
                let more = names_in(artists);
                assert(text::texts(more@).len() == more@.len());
                if more.len() >= 2 {
                    proof {
                        let e = text::texts(more@);
                        assert(found + seq![e] =~= found.push(e));
                        found.lemma_flatten_push(e);
                    }
                    evidence_count = evidence_count + 1;
                    add_names(&mut names, &more, Ghost(found.flatten()));
                } else {
                    assert(found + Seq::<Seq<Seq<char>>>::empty() =~= found);
                }
            },
            None => {
                assert(found + Seq::<Seq<Seq<char>>>::empty() =~= found);
            },
        }
        i = i + 1;
    }
    assert(all.take(all.len() as int) =~= all);
    let individual = others(&names, name);
    assert(text::texts(individual@).len() == individual@.len());
    CompoundArtistCheck {
        is_compound: evidence_count > 0 && individual.len() > 0,
        evidence_count,
        total_sources_checked: paths.len(),
        individual_artist_names: individual,
        source_examples: first_three(paths),
    }
}

/// Whether a check found nothing to look at.
pub open spec fn finds_nothing(r: CompoundArtistCheck) -> bool {
    &&& !r.is_compound
    &&& r.evidence_count == 0
    &&& r.total_sources_checked == 0
    &&& r.individual_artist_names@.len() == 0
    &&& r.source_examples@.len() == 0
}

fn nothing_found() -> (r: CompoundArtistCheck)
    ensures
        finds_nothing(r),
{
    CompoundArtistCheck {
        is_compound: false,
        evidence_count: 0,
        total_sources_checked: 0,
        individual_artist_names: Vec::new(),
        source_examples: Vec::new(),
    }
}

/// The artist itself is never among the individual names.
pub proof fn law_artist_is_not_its_own_part(artist: Seq<char>, lists: Seq<Option<Seq<char>>>)
    ensures
        !individual_names(artist, lists).contains(artist),
{
    let names = text::distinct(all_evidence(lists).flatten());
    let keep = other_name(artist);
    if names.filter(keep).contains(artist) {
        let k = choose|k: int| 0 <= k < names.filter(keep).len() && names.filter(keep)[k] == artist;
        names.lemma_filter_pred(keep, k);
        assert(keep(artist));
    }
}

} // verus!

//! Choosing the file that is played.
use vstd::prelude::*;
use crate::storage::memory;
use crate::storage::memory::described;
use crate::storage::memory::described::tag_copy;
use crate::storage::memory::laws;
use crate::storage::memory::rows;
use crate::storage::memory::rows::read_tags;
use crate::text;
use crate::text::same_text;

verus! {

/// What is stored of a source that is to be played.
#[derive(Debug)]
pub struct PlaySource {
    pub source_id: String,
    pub file_path: String,
    pub raw_tags_json: Option<String>,
    pub fingerprint: Option<String>,
    /// Whether the file is there.
    pub exists_on_disk: bool,
}

/// Another source that may be played instead.
#[derive(Debug)]
pub struct Alternative {
    pub source_id: String,
    pub file_path: String,
    pub raw_tags_json: Option<String>,
    /// Whether the file is there.
    pub exists_on_disk: bool,
}

/// Which file is played.
#[derive(Debug, Clone, Copy, PartialEq, Eq, Structural)]
pub enum PlayChoice {
    /// The source itself.
    Own,
    /// An alternative with the same fingerprint.
    SameFingerprint(usize),
    /// An alternative with the same MusicBrainz identifier.
    SameMbid(usize),
    /// None: the file is gone and nothing can stand in for it.
    Unavailable,
}

/// Another source that may be played instead, with its tags.
#[derive(Debug)]
pub struct TaggedAlternative {
    pub tags: Vec<(String, String)>,
    /// Whether the file is there.
    pub exists_on_disk: bool,
}

/// What is known of an alternative: whether its file is there, and its tags.
pub type Known = (bool, described::Tags);

/// The MusicBrainz identifier of tags: the first, even when it is empty.
pub open spec fn first_mbid(tags: described::Tags) -> Option<Seq<char>> {
    memory::tag_value(tags, "UFID:http://musicbrainz.org"@)
}

/// Whether tags hold an identifier.
pub open spec fn holds_mbid(tags: described::Tags, mbid: Seq<char>) -> bool {
    tags.contains(("UFID:http://musicbrainz.org"@, mbid))
}

/// The place of the first alternative with an identifier whose file is there, or
/// their number.
pub open spec fn first_present_with(v: Seq<Known>, mbid: Seq<char>) -> int {
    text::first_at(v.map_values(|a: Known| a.0 && holds_mbid(a.1, mbid)), true)
}

/// Which file is played: that of the source, where it is there; or else one with the
/// same fingerprint, where the source has one; or else one with the same identifier.
/// `same_print` tells of the sources with the fingerprint whether their files are
/// there, `others` are all other sources.
pub open spec fn choice(
    is_there: bool,
    has_print: bool,
    tags: described::Tags,
    same_print: Seq<bool>,
    others: Seq<Known>,
) -> PlayChoice {
    let k = text::first_at(same_print, true);
    if is_there {
        PlayChoice::Own
    } else if has_print && k < same_print.len() {
        PlayChoice::SameFingerprint(k as usize)
    } else {
        match first_mbid(tags) {
            Some(mbid) => if first_present_with(others, mbid) < others.len() {
                PlayChoice::SameMbid(first_present_with(others, mbid) as usize)
            } else {
                PlayChoice::Unavailable
            },
            None => PlayChoice::Unavailable,
        }
    }
}

/// Of alternatives, whether their files are there.
pub open spec fn presence(v: Seq<Alternative>) -> Seq<bool> {
    v.map_values(|a: Alternative| a.exists_on_disk)
}

/// What is known of alternatives with their tags.
pub open spec fn known(v: Seq<TaggedAlternative>) -> Seq<Known> {
    v.map_values(|a: TaggedAlternative| (a.exists_on_disk, text::pairs(a.tags@)))
}

/// What is known of stored alternatives.
pub open spec fn stored_known(v: Seq<Alternative>) -> Seq<Known> {
    v.map_values(|a: Alternative| (a.exists_on_disk, rows::stored_tags(a.raw_tags_json)))
}

fn find_present(v: &Vec<bool>) -> (r: Option<usize>)
    ensures
        match r {
            Some(i) => i < v@.len() && i == text::first_at(v@, true),
            None => text::first_at(v@, true) >= v@.len(),
        },
{
    let mut i: usize = 0;
    while i < v.len()
        invariant
            i <= v@.len(),
            forall|k: int| 0 <= k < i ==> v@[k] != true,
        decreases v@.len() - i,
    {
        if v[i] {
            proof {
                text::lemma_first_at_is(v@, true, i as int);
            }
            return Some(i);
        }
        i = i + 1;
    }
    proof {
        text::lemma_first_at_is(v@, true, i as int);
    }
    None
}

fn does_hold_mbid(tags: &Vec<(String, String)>, mbid: &str) -> (r: bool)
    ensures
        r == holds_mbid(text::pairs(tags@), mbid@),
{
    let ghost all = text::pairs(tags@);
    let ghost wanted = ("UFID:http://musicbrainz.org"@, mbid@);
    let mut i: usize = 0;
    while i < tags.len()
        invariant
            i <= tags@.len(),
            all == text::pairs(tags@),
            wanted == ("UFID:http://musicbrainz.org"@, mbid@),
            forall|k: int| 0 <= k < i ==> all[k] != wanted,
        decreases tags@.len() - i,
    {
        assert(all[i as int] == (tags@[i as int].0@, tags@[i as int].1@));
        if same_text(&tags[i].0, "UFID:http://musicbrainz.org") && same_text(&tags[i].1, mbid) {
            return true;
        }
        i = i + 1;
    }
    assert(all.len() == tags@.len());
    false
}

fn find_present_with(v: &Vec<TaggedAlternative>, mbid: &str) -> (r: Option<usize>)
    ensures
        match r {
            Some(i) => i < v@.len() && i == first_present_with(known(v@), mbid@),
            None => first_present_with(known(v@), mbid@) >= v@.len(),
        },
{
    let ghost marks = known(v@).map_values(|a: Known| a.0 && holds_mbid(a.1, mbid@));
    let mut i: usize = 0;
    while i < v.len()
        invariant
            i <= v@.len(),
            marks == known(v@).map_values(|a: Known| a.0 && holds_mbid(a.1, mbid@)),
            forall|k: int| 0 <= k < i ==> marks[k] != true,
        decreases v@.len() - i,
    {
        assert(known(v@)[i as int] == (v@[i as int].exists_on_disk, text::pairs(
            v@[i as int].tags@,
        )));
        if v[i].exists_on_disk && does_hold_mbid(&v[i].tags, mbid) {
            proof {
                text::lemma_first_at_is(marks, true, i as int);
            }
            return Some(i);
        }
        i = i + 1;
    }
    proof {
        text::lemma_first_at_is(marks, true, i as int);
    }
    None
}

/// Chooses the file that is played, from the tags of the sources.
pub fn choose_by_tags(
    is_there: bool,
    has_print: bool,
    tags: &Vec<(String, String)>,
    same_print: &Vec<bool>,
    others: &Vec<TaggedAlternative>,
) -> (r: PlayChoice)
    ensures
        r == choice(is_there, has_print, text::pairs(tags@), same_print@, known(others@)),
{
    if is_there {
        return PlayChoice::Own;
    }
    if has_print {
        if let Some(k) = find_present(same_print) {
            return PlayChoice::SameFingerprint(k);
        }
    }
    match tag_copy(tags, "UFID:http://musicbrainz.org") {
        Some(mbid) => match find_present_with(others, &mbid) {
            Some(k) => PlayChoice::SameMbid(k),
            None => PlayChoice::Unavailable,
        },
        None => PlayChoice::Unavailable,
    }
}

/// Chooses the file that is played, from what is stored.
pub fn choose_source(
    source: &PlaySource,
    same_print: &Vec<Alternative>,
    others: &Vec<Alternative>,
) -> (r: PlayChoice)
    ensures
        r == choice(
            source.exists_on_disk,
            source.fingerprint is Some,
            rows::stored_tags(source.raw_tags_json),
            presence(same_print@),
            stored_known(others@),
        ),
        source.exists_on_disk <==> r is Own,
        !source.exists_on_disk && source.fingerprint is Some ==> ((exists|k: int|
            0 <= k < same_print@.len() && (#[trigger] same_print@[k]).exists_on_disk)
            <==> r is SameFingerprint),
        source.fingerprint is None ==> !(r is SameFingerprint),
        match r {
            PlayChoice::SameFingerprint(k) => k < same_print@.len()
                && same_print@[k as int].exists_on_disk,
            PlayChoice::SameMbid(k) => k < others@.len() && others@[k as int].exists_on_disk,
            _ => true,
        },
{
    proof {
        assert(same_print.len() <= usize::MAX && others.len() <= usize::MAX);
        law_stored_sources_are_told(same_print@, others@);
        law_chosen_file_is_there(
            source.exists_on_disk,
            source.fingerprint is Some,
            rows::stored_tags(source.raw_tags_json),
            presence(same_print@),
            stored_known(others@),
        );
        text::lemma_first_at(presence(same_print@), true);
        if exists|k: int| 0 <= k < same_print@.len() && (#[trigger] same_print@[k]).exists_on_disk {
            let k = choose|k: int|
                0 <= k < same_print@.len() && (#[trigger] same_print@[k]).exists_on_disk;
            assert(presence(same_print@)[k]);
        }
    }
    let tags = read_tags(&source.raw_tags_json);
    let mut there: Vec<bool> = Vec::new();
    let mut i: usize = 0;
    while i < same_print.len()
        invariant
            i <= same_print@.len(),
            there@ == presence(same_print@).take(i as int),
        decreases same_print@.len() - i,
    {
        there.push(same_print[i].exists_on_disk);
        i = i + 1;
        assert(there@ =~= presence(same_print@).take(i as int));
    }
    assert(there@ =~= presence(same_print@));
    let mut tagged: Vec<TaggedAlternative> = Vec::new();
    let mut j: usize = 0;
    while j < others.len()
        invariant
            j <= others@.len(),
            known(tagged@) == stored_known(others@).take(j as int),
        decreases others@.len() - j,
    {
        let ghost before = known(tagged@);
        let a = TaggedAlternative {
            tags: read_tags(&others[j].raw_tags_json),
            exists_on_disk: others[j].exists_on_disk,
        };
        let ghost said = (a.exists_on_disk, text::pairs(a.tags@));
        tagged.push(a);
        assert(known(tagged@) =~= before.push(said));
        j = j + 1;
        assert(known(tagged@) =~= stored_known(others@).take(j as int));
    }
    assert(known(tagged@) =~= stored_known(others@));
    choose_by_tags(source.exists_on_disk, source.fingerprint.is_some(), &tags, &there, &tagged)
}

/// The title and the artist that tags give.
pub fn title_and_artist_of(tags: &Vec<(String, String)>) -> (r: (Option<String>, Option<String>))
    ensures
        text::opt_text(r.0) == memory::tag_value(text::pairs(tags@), "TIT2"@),
        text::opt_text(r.1) == memory::tag_value(text::pairs(tags@), "TPE1"@),
{
    (tag_copy(tags, "TIT2"), tag_copy(tags, "TPE1"))
}

/// The title and the artist that stored tags give.
pub fn title_and_artist(raw_tags_json: &Option<String>) -> (r: (Option<String>, Option<String>))
    ensures
        text::opt_text(r.0) == memory::tag_value(rows::stored_tags(*raw_tags_json), "TIT2"@),
        text::opt_text(r.1) == memory::tag_value(rows::stored_tags(*raw_tags_json), "TPE1"@),
{
    let tags = read_tags(raw_tags_json);
    title_and_artist_of(&tags)
}

/// The message for a file that is gone.
pub fn unavailable(file_path: &str) -> (r: String)
    ensures
        r@ == "File not found and no working alternative source exists: "@ + file_path@,
{
    let mut r = "File not found and no working alternative source exists: ".to_owned();
    r.append(file_path);
    r
}

/// By what the loudness of a track is evened out.
#[derive(Debug, Clone, Copy, PartialEq, Eq, Structural)]
pub enum LoudnessMeasure {
    ReplayGain,
    Lufs,
    Unknown,
}

impl LoudnessMeasure {
    /// The measure that is used: a stored gain comes before a measured loudness.
    pub fn of_track(has_replay_gain: bool, has_lufs: bool) -> (r: LoudnessMeasure)
        ensures
            r == if has_replay_gain {
                LoudnessMeasure::ReplayGain
            } else if has_lufs {
                LoudnessMeasure::Lufs
            } else {
                LoudnessMeasure::Unknown
            },
    {
        if has_replay_gain {
            LoudnessMeasure::ReplayGain
        } else if has_lufs {
            LoudnessMeasure::Lufs
        } else {
            LoudnessMeasure::Unknown
        }
    }

    /// The label of the measure.
    pub fn label(&self) -> (r: &'static str)
        ensures
            r@ == match *self {
                LoudnessMeasure::ReplayGain => "ReplayGain"@,
                LoudnessMeasure::Lufs => "LUFS"@,
                LoudnessMeasure::Unknown => "None"@,
            },
    {
        match self {
            LoudnessMeasure::ReplayGain => "ReplayGain",
            LoudnessMeasure::Lufs => "LUFS",
            LoudnessMeasure::Unknown => "None",
        }
    }
}

/// Whatever is chosen is a file that is there.
pub proof fn law_chosen_file_is_there(
    is_there: bool,
    has_print: bool,
    tags: described::Tags,
    same_print: Seq<bool>,
    others: Seq<Known>,
)
    requires
        same_print.len() <= usize::MAX,
        others.len() <= usize::MAX,
    ensures
        match choice(is_there, has_print, tags, same_print, others) {
            PlayChoice::Own => is_there,
            PlayChoice::SameFingerprint(k) => k < same_print.len() && same_print[k as int],
            PlayChoice::SameMbid(k) => k < others.len() && others[k as int].0 && first_mbid(
                tags,
            ) is Some && holds_mbid(others[k as int].1, first_mbid(tags).unwrap()),
            PlayChoice::Unavailable => !is_there,
        },
{
    text::lemma_first_at(same_print, true);
    if let Some(mbid) = first_mbid(tags) {
        text::lemma_first_at(
            others.map_values(|a: Known| a.0 && holds_mbid(a.1, mbid)),
            true,
        );
    }
}

/// A file that is there is played itself. One that is gone is stood in for by the
/// first file with the same fingerprint that is there, where the source has a
/// fingerprint.
pub proof fn law_fingerprint_stands_in(
    is_there: bool,
    has_print: bool,
    tags: described::Tags,
    same_print: Seq<bool>,
    others: Seq<Known>,
    k: int,
)
    requires
        same_print.len() <= usize::MAX,
        0 <= k < same_print.len(),
        same_print[k],
    ensures
        is_there <==> choice(is_there, has_print, tags, same_print, others) is Own,
        !is_there && has_print ==> (choice(
            is_there,
            has_print,
            tags,
            same_print,
            others,
        ) matches PlayChoice::SameFingerprint(j) && j <= k && same_print[j as int] && forall|
            m: int,
        |
            0 <= m < j ==> !(#[trigger] same_print[m])),
        !has_print ==> !(choice(is_there, has_print, tags, same_print, others) is SameFingerprint),
{
    text::lemma_first_at(same_print, true);
}

/// A file that is gone, and for which no file with the same fingerprint can stand in,
/// is stood in for by the first file that is there and carries the MusicBrainz
/// identifier that the source's tags give first.
pub proof fn law_identifier_stands_in(
    has_print: bool,
    tags: described::Tags,
    same_print: Seq<bool>,
    others: Seq<Known>,
    mbid: Seq<char>,
    k: int,
)
    requires
        others.len() <= usize::MAX,
        has_print ==> forall|m: int| 0 <= m < same_print.len() ==> !(#[trigger] same_print[m]),
        laws::first_says(tags, "UFID:http://musicbrainz.org"@, mbid),
        0 <= k < others.len(),
        others[k].0,
        others[k].1.contains(("UFID:http://musicbrainz.org"@, mbid)),
    ensures
        choice(false, has_print, tags, same_print, others) matches PlayChoice::SameMbid(j) && j <= k
            && others[j as int].0 && others[j as int].1.contains(
            ("UFID:http://musicbrainz.org"@, mbid),
        ) && forall|m: int|
            0 <= m < j ==> !((#[trigger] others[m]).0 && others[m].1.contains(
                ("UFID:http://musicbrainz.org"@, mbid),
            )),
{
    let key = "UFID:http://musicbrainz.org"@;
    laws::law_first_tag_counts(tags, key);
    text::lemma_first_at(same_print, true);
    let marks = others.map_values(|a: Known| a.0 && holds_mbid(a.1, mbid));
    text::lemma_first_at(marks, true);
    assert(marks[k]);
    let j = text::first_at(marks, true);
    assert(marks[j]);
    assert forall|m: int| 0 <= m < j implies !((#[trigger] others[m]).0 && others[m].1.contains(
        (key, mbid),
    )) by {
        assert(marks[m] != true);
    }
}

/// Nothing is played only where the file is gone, no file with the same fingerprint
/// is there, and none that is there carries the identifier.
pub proof fn law_unavailable_only_without_stand_in(
    is_there: bool,
    has_print: bool,
    tags: described::Tags,
    same_print: Seq<bool>,
    others: Seq<Known>,
)
    requires
        same_print.len() <= usize::MAX,
        others.len() <= usize::MAX,
        choice(is_there, has_print, tags, same_print, others) is Unavailable,
    ensures
        !is_there,
        has_print ==> forall|k: int| 0 <= k < same_print.len() ==> !(#[trigger] same_print[k]),
        forall|mbid: Seq<char>, k: int|
            #![trigger others[k].1.contains(("UFID:http://musicbrainz.org"@, mbid))]
            laws::first_says(tags, "UFID:http://musicbrainz.org"@, mbid) && 0 <= k < others.len()
                && others[k].0 ==> !others[k].1.contains(
                ("UFID:http://musicbrainz.org"@, mbid),
            ),
{
    text::lemma_first_at(same_print, true);
    assert forall|mbid: Seq<char>, k: int|
        #![trigger others[k].1.contains(("UFID:http://musicbrainz.org"@, mbid))]
        laws::first_says(tags, "UFID:http://musicbrainz.org"@, mbid) && 0 <= k < others.len()
            && others[k].0 implies !others[k].1.contains(
        ("UFID:http://musicbrainz.org"@, mbid),
    ) by {
        if others[k].1.contains(("UFID:http://musicbrainz.org"@, mbid)) {
            law_identifier_stands_in(has_print, tags, same_print, others, mbid, k);
        }
    }
}

/// The choice from what is stored follows the stored sources: whether their files are
/// there, and what their stored tags say.
pub proof fn law_stored_sources_are_told(same_print: Seq<Alternative>, others: Seq<Alternative>)
    ensures
        presence(same_print).len() == same_print.len(),
        stored_known(others).len() == others.len(),
        forall|k: int|
            0 <= k < same_print.len() ==> #[trigger] presence(same_print)[k]
                == same_print[k].exists_on_disk,
        forall|k: int|
            #![trigger stored_known(others)[k]]
            0 <= k < others.len() ==> {
                &&& stored_known(others)[k].0 == others[k].exists_on_disk
                &&& others[k].raw_tags_json is None ==> stored_known(others)[k].1.len() == 0
                &&& others[k].raw_tags_json is Some && rows::tags_in_json(
                    others[k].raw_tags_json->0@,
                ) is Some ==> Some(stored_known(others)[k].1) == rows::tags_in_json(
                    others[k].raw_tags_json->0@,
                )
            },
{
}

/// The loudness of a track is measured by its replay gain, or else by its LUFS.
pub proof fn law_replay_gain_comes_first(
    has_replay_gain: bool,
    has_lufs: bool,
    r: LoudnessMeasure,
    name: &'static str,
)
    requires
        call_ensures(LoudnessMeasure::of_track, (has_replay_gain, has_lufs), r),
        call_ensures(LoudnessMeasure::label, (&r,), name),
    ensures
        has_replay_gain ==> name@ == "ReplayGain"@,
        !has_replay_gain && has_lufs ==> name@ == "LUFS"@,
        !has_replay_gain && !has_lufs ==> name@ == "None"@,
{
}

} // verus!

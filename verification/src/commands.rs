//! What the commands of the player check and work out.
use vstd::prelude::*;
use crate::models::{
    AppBootstrap, AppConfig, ExternalCommand, ImportProgress, LibrarySummary, RecordingRow,
};
use crate::query;
use crate::query::QuerySyntaxError;
use crate::text;
use crate::text::{
    chars_between, chars_of, contains_text, decimal_string, join, parse_number, same_text,
    starts_with_chars, string_from_chars, trimmed,
};

verus! {

// ── External commands ────────────────────────────────────────────────────────

/// What has been read of a command line: the words that are complete, the word that
/// is being read, and the quotation mark that is open.
#[verifier::ext_equal]
pub struct Words {
    pub done: Seq<Seq<char>>,
    pub current: Seq<char>,
    pub quote: Option<char>,
}

/// What has been read of a command line after some characters.
pub open spec fn read_words(s: Seq<char>) -> Words
    decreases s.len(),
{
    if s.len() == 0 {
        Words { done: Seq::empty(), current: Seq::empty(), quote: None }
    } else {
        let w = read_words(s.drop_last());
        let c = s.last();
        match w.quote {
            Some(q) => if c == q {
                Words { quote: None, ..w }
            } else {
                Words { current: w.current.push(c), ..w }
            },
            None => if c == '"' || c == '\'' {
                Words { quote: Some(c), ..w }
            } else if c == ' ' || c == '\t' {
                if w.current.len() == 0 {
                    w
                } else {
                    Words { done: w.done.push(w.current), current: Seq::empty(), quote: None }
                }
            } else {
                Words { current: w.current.push(c), ..w }
            },
        }
    }
}

/// The words of a command line.
pub open spec fn words_of(s: Seq<char>) -> Seq<Seq<char>> {
    let w = read_words(s);
    if w.current.len() == 0 {
        w.done
    } else {
        w.done.push(w.current)
    }
}

/// The words of a command line: they are separated by blanks, and quotation marks
/// hold blanks together.
pub fn shell_words(s: &str) -> (r: Vec<String>)
    ensures
        text::texts(r@) == words_of(s@),
{
    let cs = chars_of(s);
    let mut r: Vec<String> = Vec::new();
    let mut current: Vec<char> = Vec::new();
    let mut quote: Option<char> = None;
    let mut i: usize = 0;
    proof {
        assert(text::texts(r@) =~= Seq::empty());
        assert(current@ =~= Seq::empty());
    }
    while i < cs.len()
        invariant
            i <= cs@.len(),
            cs@ == s@,
            text::texts(r@) == read_words(s@.take(i as int)).done,
            current@ == read_words(s@.take(i as int)).current,
            quote == read_words(s@.take(i as int)).quote,
        decreases cs@.len() - i,
    {
        let c = cs[i];
        let ghost before = text::texts(r@);
        let ghost word = current@;
        proof {
            assert(s@.take(i + 1).drop_last() =~= s@.take(i as int));
            assert(s@.take(i + 1).last() == c);
        }
        match quote {
            Some(q) => {
                if c == q {
                    quote = None;
                } else {
                    current.push(c);
                }
            },
            None => {
                if c == '"' || c == '\'' {
                    quote = Some(c);
                } else if c == ' ' || c == '\t' {
                    if current.len() > 0 {
                        r.push(string_from_chars(&current));
                        current = Vec::new();
                        proof {
                            assert(text::texts(r@) =~= before.push(word));
                            assert(current@ =~= Seq::empty());
                        }
                    }
                } else {
                    current.push(c);
                }
            },
        }
        i = i + 1;
    }
    assert(s@.take(s@.len() as int) =~= s@);
    if current.len() > 0 {
        let ghost before = text::texts(r@);
        r.push(string_from_chars(&current));
        assert(text::texts(r@) =~= before.push(current@));
    }
    r
}

/// A text with every occurrence of a part replaced, from the left.
pub open spec fn replaced(s: Seq<char>, part: Seq<char>, by: Seq<char>) -> Seq<char>
    decreases s.len(),
{
    if s.len() == 0 {
        s
    } else if part.len() > 0 && part.is_prefix_of(s) {
        by + replaced(s.skip(part.len() as int), part, by)
    } else {
        seq![s[0]] + replaced(s.skip(1), part, by)
    }
}

fn replace_part(s: &str, part: &str, by: &str) -> (r: String)
    requires
        part@.len() > 0,
    ensures
        r@ == replaced(s@, part@, by@),
{
    let cs = chars_of(s);
    let ps = chars_of(part);
    let bs = chars_of(by);
    let mut out: Vec<char> = Vec::new();
    let mut i: usize = 0;
    proof {
        assert(cs@.skip(0) =~= cs@);
        assert(out@ + replaced(cs@.skip(0), part@, by@) =~= replaced(s@, part@, by@));
    }
    while i < cs.len()
        invariant
            i <= cs@.len(),
            cs@ == s@,
            ps@ == part@,
            bs@ == by@,
            part@.len() > 0,
            out@ + replaced(cs@.skip(i as int), part@, by@) == replaced(s@, part@, by@),
        decreases cs@.len() - i,
    {
        let rest = vstd::slice::slice_subrange(cs.as_slice(), i, cs.len());
        let ghost before = out@;
        assert(rest@ =~= cs@.skip(i as int));
        if starts_with_chars(rest, &ps) {
            let mut more = chars_between(&bs, 0, bs.len());
            assert(more@ =~= by@);
            out.append(&mut more);
            proof {
                assert(rest@.skip(part@.len() as int) =~= cs@.skip(i + part@.len()));
                let after = replaced(cs@.skip(i + part@.len()), part@, by@);
                assert(before + (by@ + after) =~= out@ + after);
            }
            i = i + ps.len();
        } else {
            out.push(cs[i]);
            proof {
                assert(rest@.skip(1) =~= cs@.skip(i + 1));
                let after = replaced(cs@.skip(i + 1), part@, by@);
                assert(before + (seq![rest@[0]] + after) =~= out@ + after);
            }
            i = i + 1;
        }
    }
    proof {
        assert(cs@.skip(cs@.len() as int) =~= Seq::empty());
        assert(out@ + Seq::<char>::empty() =~= out@);
    }
    string_from_chars(&out)
}

/// The words of an external command for a file: `%%` stands for its path.
pub open spec fn command_words(template: Seq<char>, file_path: Seq<char>) -> Seq<Seq<char>> {
    words_of(template).map_values(|w: Seq<char>| replaced(w, "%%"@, file_path))
}

/// The program and the arguments of an external command for a file.
pub fn external_command(template: &str, file_path: &str) -> (r: Result<
    (String, Vec<String>),
    String,
>)
    ensures
        match r {
            Ok(c) => {
                let words = command_words(template@, file_path@);
                &&& words.len() > 0
                &&& c.0@ == words[0]
                &&& text::texts(c.1@) == words.skip(1)
            },
            Err(e) => words_of(template@).len() == 0 && e@ == "Empty command"@,
        },
{
    let words = shell_words(template);
    let ghost all = command_words(template@, file_path@);
    assert(text::texts(words@).len() == words@.len());
    if words.len() == 0 {
        return Err("Empty command".to_owned());
    }
    proof {
        reveal_strlit("%%");
        assert(text::texts(words@)[0] == words@[0]@);
    }
    let program = replace_part(&words[0], "%%", file_path);
    let mut args: Vec<String> = Vec::new();
    let mut i: usize = 1;
    while i < words.len()
        invariant
            1 <= i <= words@.len(),
            "%%"@.len() == 2,
            text::texts(words@) == words_of(template@),
            all == command_words(template@, file_path@),
            args@.len() == i - 1,
            forall|k: int| 0 <= k < args@.len() ==> (#[trigger] args@[k])@ == all[k + 1],
        decreases words@.len() - i,
    {
        assert(text::texts(words@)[i as int] == words@[i as int]@);
        args.push(replace_part(&words[i], "%%", file_path));
        i = i + 1;
    }
    assert(text::texts(args@) =~= all.skip(1));
    Ok((program, args))
}

/// The message for a command that could not be started.
pub fn spawn_failure(program: &str, error: &str) -> (r: String)
    ensures
        r@ == "Failed to spawn '"@ + program@ + "': "@ + error@,
{
    let mut r = "Failed to spawn '".to_owned();
    r.append(program);
    r.append("': ");
    r.append(error);
    r
}

// ── Ratings ──────────────────────────────────────────────────────────────────

/// Whether a rating is one of one to five stars, or none.
pub fn validate_rating(stars: Option<i64>) -> (r: Result<(), String>)
    ensures
        match r {
            Ok(()) => stars matches Some(n) ==> 1 <= n <= 5,
            Err(e) => {
                &&& stars matches Some(n) && !(1 <= n <= 5)
                &&& e@ == "Rating must be between 1 and 5."@
            },
        },
{
    match stars {
        Some(n) => if 1 <= n && n <= 5 {
            Ok(())
        } else {
            Err("Rating must be between 1 and 5.".to_owned())
        },
        None => Ok(()),
    }
}

// ── Listing ──────────────────────────────────────────────────────────────────

/// A part of a list: so many of its elements after so many others.
pub open spec fn page<A>(s: Seq<A>, offset: usize, limit: usize) -> Seq<A> {
    let from = if offset < s.len() {
        offset as int
    } else {
        s.len() as int
    };
    let rest = s.skip(from);
    if limit < rest.len() {
        rest.take(limit as int)
    } else {
        rest
    }
}

/// A part of the recordings: by default the first two hundred. A negative number
/// counts as a very large one.
pub fn list_page(rows: Vec<RecordingRow>, limit: Option<i64>, offset: Option<i64>) -> (r: Vec<
    RecordingRow,
>)
    ensures
        r@ == page(
            rows@,
            (match offset {
                Some(n) => n,
                None => 0,
            }) as usize,
            (match limit {
                Some(n) => n,
                None => 200,
            }) as usize,
        ),
{
    let limit: usize = (match limit {
        Some(n) => n,
        None => 200,
    }) as usize;
    let offset: usize = (match offset {
        Some(n) => n,
        None => 0,
    }) as usize;
    let mut rows = rows;
    let ghost all = rows@;
    let from: usize = if offset < rows.len() {
        offset
    } else {
        rows.len()
    };
    let mut rest = rows.split_off(from);
    assert(rest@ =~= all.skip(from as int));
    if limit < rest.len() {
        rest.truncate(limit);
        assert(rest@ =~= all.skip(from as int).take(limit as int));
    }
    rest
}

/// A search text that is not blank.
pub fn search_text(search: Option<&str>) -> (r: Option<String>)
    ensures
        text::opt_text(r) == match search {
            Some(s) => if text::trim(s@).len() > 0 {
                Some(text::trim(s@))
            } else {
                None
            },
            None => None,
        },
{
    match search {
        Some(s) => {
            let t = trimmed(s);
            if t.as_str().is_empty() {
                None
            } else {
                Some(t)
            }
        },
        None => None,
    }
}

/// The message that something is not there.
pub fn not_found(what: &str, id: &str) -> (r: String)
    ensures
        r@ == what@ + " "@ + id@ + " not found"@,
{
    let mut r = what.to_owned();
    r.append(" ");
    r.append(id);
    r.append(" not found");
    r
}

/// The place of the first recording with some id, or the number of recordings.
pub open spec fn recording_at(rows: Seq<RecordingRow>, id: Seq<char>) -> int
    decreases rows.len(),
{
    if rows.len() == 0 || rows[0].id@ == id {
        0
    } else {
        1 + recording_at(rows.skip(1), id)
    }
}

/// The paths of a recording's files.
pub open spec fn file_paths(row: RecordingRow) -> Seq<Seq<char>> {
    text::texts(row.source_paths@).filter(|p: Seq<char>| p.len() > 0)
}

/// The files of a recording that are to be read again.
pub fn recording_paths(rows: &Vec<RecordingRow>, id: &str) -> (r: Result<Vec<String>, String>)
    ensures
        0 <= recording_at(rows@, id@) <= rows@.len(),
        ({
            let at = recording_at(rows@, id@);
            match r {
                Ok(v) => {
                    &&& at < rows@.len()
                    &&& text::texts(v@) == file_paths(rows@[at])
                    &&& v@.len() > 0
                },
                Err(e) => if at < rows@.len() {
                    &&& file_paths(rows@[at]).len() == 0
                    &&& e@ == "No local sources found for this recording."@
                } else {
                    e@ == "Recording not found in catalog."@
                },
            }
        }),
{
    let mut at: usize = 0;
    assert(rows@.skip(0) =~= rows@);
    while at < rows.len() && !same_text(&rows[at].id, id)
        invariant
            at <= rows@.len(),
            recording_at(rows@, id@) == at + recording_at(rows@.skip(at as int), id@),
        decreases rows@.len() - at,
    {
        proof {
            assert(rows@.skip(at as int).skip(1) =~= rows@.skip(at + 1));
            assert(rows@.skip(at as int)[0] == rows@[at as int]);
        }
        at = at + 1;
    }
    if at == rows.len() {
        return Err("Recording not found in catalog.".to_owned());
    }
    assert(rows@.skip(at as int)[0] == rows@[at as int]);
    let paths = &rows[at].source_paths;
    let ghost all = text::texts(paths@);
    let ghost f = |p: Seq<char>| p.len() > 0;
    let mut r: Vec<String> = Vec::new();
    let mut i: usize = 0;
    proof {
        assert(all.take(0) =~= Seq::empty());
        reveal(Seq::filter);
        assert(text::texts(r@) =~= all.take(0).filter(f));
    }
    while i < paths.len()
        invariant
            i <= paths@.len(),
            all == text::texts(paths@),
            f == (|p: Seq<char>| p.len() > 0),
            text::texts(r@) == all.take(i as int).filter(f),
        decreases paths@.len() - i,
    {
        let ghost before = text::texts(r@);
        proof {
            reveal(Seq::filter);
            assert(all.take(i + 1).drop_last() =~= all.take(i as int));
            assert(all[i as int] == paths@[i as int]@);
        }
        if !paths[i].as_str().is_empty() {
            let path = paths[i].clone();
            r.push(path);
            assert(text::texts(r@) =~= before.push(path@));
        }
        i = i + 1;
    }
    assert(all.take(all.len() as int) =~= all);
    if r.len() == 0 {
        return Err("No local sources found for this recording.".to_owned());
    }
    Ok(r)
}

// ── Splitting a recording ────────────────────────────────────────────────────

/// Whether a source of a recording is not among those that leave it.
pub open spec fn one_stays(ids: Seq<Seq<char>>, all: Seq<Seq<char>>) -> bool {
    exists|i: int| 0 <= i < all.len() && !ids.contains(#[trigger] all[i])
}

/// The sources that leave a recording: at least one, and at least one of `all` its
/// sources stays.
pub fn sources_to_move(ids: Vec<String>, all: &Vec<String>) -> (r: Result<Vec<String>, String>)
    ensures
        match r {
            Ok(v) => ids@.len() > 0 && one_stays(text::texts(ids@), text::texts(all@)) && v == ids,
            Err(e) => if ids@.len() == 0 {
                e@ == "No sources selected to move"@
            } else {
                &&& !one_stays(text::texts(ids@), text::texts(all@))
                &&& e@ == "At least one source must stay with the recording"@
            },
        },
{
    if ids.len() == 0 {
        return Err("No sources selected to move".to_owned());
    }
    let ghost every = text::texts(all@);
    let mut i: usize = 0;
    while i < all.len()
        invariant
            i <= all@.len(),
            ids@.len() > 0,
            every == text::texts(all@),
            forall|k: int| 0 <= k < i ==> text::texts(ids@).contains(#[trigger] every[k]),
        decreases all@.len() - i,
    {
        assert(every[i as int] == all@[i as int]@);
        if !contains_text(&ids, &all[i]) {
            return Ok(ids);
        }
        i = i + 1;
    }
    Err("At least one source must stay with the recording".to_owned())
}

/// The id of the first recording that shows some source, if there is one.
pub open spec fn recording_showing(rows: Seq<RecordingRow>, source: Seq<char>) -> Option<Seq<char>>
    decreases rows.len(),
{
    if rows.len() == 0 {
        None
    } else if text::opt_text(rows[0].primary_source_id) == Some(source) {
        Some(rows[0].id@)
    } else {
        recording_showing(rows.skip(1), source)
    }
}

/// The recording that a source went to when it left another: the one that shows it.
pub fn recording_of_moved(rows: &Vec<RecordingRow>, source_id: &str) -> (r: Option<String>)
    ensures
        text::opt_text(r) == recording_showing(rows@, source_id@),
{
    let mut i: usize = 0;
    assert(rows@.skip(0) =~= rows@);
    while i < rows.len()
        invariant
            i <= rows@.len(),
            recording_showing(rows@, source_id@) == recording_showing(
                rows@.skip(i as int),
                source_id@,
            ),
        decreases rows@.len() - i,
    {
        proof {
            assert(rows@.skip(i as int).skip(1) =~= rows@.skip(i + 1));
            assert(rows@.skip(i as int)[0] == rows@[i as int]);
        }
        if let Some(shown) = &rows[i].primary_source_id {
            if same_text(shown, source_id) {
                return Some(rows[i].id.clone());
            }
        }
        i = i + 1;
    }
    None
}

// ── Configuration ────────────────────────────────────────────────────────────

/// The limit of the queue history that is stored: between one and a hundred.
pub fn queue_history_limit(wanted: i64) -> (r: i64)
    ensures
        r == if wanted < 1 {
            1
        } else if wanted > 100 {
            100
        } else {
            wanted as int
        },
{
    if wanted < 1 {
        1
    } else if wanted > 100 {
        100
    } else {
        wanted
    }
}

/// The limit of the queue history that a stored text says; five when it says none.
pub fn stored_history_limit(stored: Option<&str>) -> (r: i64)
    ensures
        r == match stored {
            Some(s) => match text::number(s@) {
                Some(n) => n,
                None => 5,
            },
            None => 5,
        },
{
    match stored {
        Some(s) => match parse_number(&chars_of(s)) {
            Some(n) => n,
            None => 5,
        },
        None => 5,
    }
}

/// The stored configuration.
pub fn app_config(
    music_root: Option<String>,
    history_limit: Option<&str>,
    external_commands: Vec<ExternalCommand>,
) -> (r: AppConfig)
    ensures
        r.music_root == music_root,
        r.queue_history_limit == match history_limit {
            Some(s) => match text::number(s@) {
                Some(n) => n,
                None => 5,
            },
            None => 5,
        },
        r.external_commands == external_commands,
{
    let queue_history_limit: i64 = stored_history_limit(history_limit);
    AppConfig { music_root, queue_history_limit, external_commands }
}

/// What the player shows when it starts: it asks for a music folder while none is
/// configured.
pub fn app_bootstrap(
    config: AppConfig,
    import_progress: ImportProgress,
    library_summary: LibrarySummary,
) -> (r: AppBootstrap)
    ensures
        r.needs_setup == (config.music_root is None),
        r.config == config,
        r.import_progress == import_progress,
        r.library_summary == library_summary,
{
    let needs_setup = config.music_root.is_none();
    AppBootstrap { needs_setup, config, import_progress, library_summary }
}

/// The directory that a user gave as the root of their music.
pub fn music_root(path: &str) -> (r: Result<String, String>)
    ensures
        match r {
            Ok(root) => text::trim(path@).len() > 0 && root@ == text::trim(path@),
            Err(e) => text::trim(path@).len() == 0 && e@ == "Music root cannot be empty."@,
        },
{
    let root = trimmed(path);
    if root.as_str().is_empty() {
        Err("Music root cannot be empty.".to_owned())
    } else {
        Ok(root)
    }
}

// ── Rescans ──────────────────────────────────────────────────────────────────

/// The path of a source that is to be read again.
pub fn rescan_path(path: &str) -> (r: Result<String, String>)
    ensures
        match r {
            Ok(p) => text::trim(path@).len() > 0 && p@ == text::trim(path@),
            Err(e) => text::trim(path@).len() == 0 && e@ == "Source path cannot be empty."@,
        },
{
    let p = trimmed(path);
    if p.as_str().is_empty() {
        Err("Source path cannot be empty.".to_owned())
    } else {
        Ok(p)
    }
}

/// The paths that are not blank, without blanks around them.
pub open spec fn clean_paths(paths: Seq<Seq<char>>) -> Seq<Seq<char>> {
    paths.filter_map(|p: Seq<char>| crate::storage::memory::described::clean_part(p))
}

/// The paths of sources that are to be read again.
pub fn rescan_paths(paths: &Vec<String>) -> (r: Result<Vec<String>, String>)
    ensures
        match r {
            Ok(v) => paths@.len() > 0 && text::texts(v@) == clean_paths(text::texts(paths@)),
            Err(e) => paths@.len() == 0 && e@ == "At least one source path is required."@,
        },
{
    if paths.len() == 0 {
        return Err("At least one source path is required.".to_owned());
    }
    let ghost all = text::texts(paths@);
    let ghost f = |p: Seq<char>| crate::storage::memory::described::clean_part(p);
    let mut r: Vec<String> = Vec::new();
    let mut i: usize = 0;
    proof {
        assert(all.take(0) =~= Seq::empty());
        assert(text::texts(r@) =~= all.take(0).filter_map(f));
    }
    while i < paths.len()
        invariant
            i <= paths@.len(),
            all == text::texts(paths@),
            f == (|p: Seq<char>| crate::storage::memory::described::clean_part(p)),
            text::texts(r@) == all.take(i as int).filter_map(f),
        decreases paths@.len() - i,
    {
        let ghost before = text::texts(r@);
        proof {
            all.lemma_filter_map_take_succ(f, i as int);
            assert(all[i as int] == paths@[i as int]@);
        }
        let p = trimmed(&paths[i]);
        if !p.as_str().is_empty() {
            r.push(p);
            assert(text::texts(r@) =~= before.push(p@));
        }
        assert(text::texts(r@) =~= all.take(i + 1).filter_map(f));
        i = i + 1;
    }
    assert(all.take(all.len() as int) =~= all);
    Ok(r)
}

/// The paths to read again of something that is known to have some.
pub fn require_sources(paths: Vec<String>, of_what: &str) -> (r: Result<Vec<String>, String>)
    ensures
        match r {
            Ok(v) => paths@.len() > 0 && v == paths,
            Err(e) => paths@.len() == 0 && e@ == "No local sources found "@ + of_what@ + "."@,
        },
{
    if paths.len() == 0 {
        let mut e = "No local sources found ".to_owned();
        e.append(of_what);
        e.append(".");
        Err(e)
    } else {
        Ok(paths)
    }
}

/// Why a source could not be read again.
pub fn rescan_failure(shown_path: &str, error: Option<&str>) -> (r: String)
    ensures
        r@ == shown_path@ + match error {
            Some(e) => ":\n"@ + e@,
            None => ": Source file is missing"@,
        },
{
    let mut r = shown_path.to_owned();
    let ghost front = r@;
    match error {
        Some(e) => {
            r.append(":\n");
            r.append(e);
            assert(r@ =~= front + (":\n"@ + e@));
        },
        None => {
            r.append(": Source file is missing");
        },
    }
    r
}

/// What came of reading several sources again.
pub fn rescan_result(failures: &Vec<String>) -> (r: Result<(), String>)
    ensures
        match r {
            Ok(()) => failures@.len() == 0,
            Err(e) => failures@.len() > 0 && e@ == "Failed to rescan "@ + text::decimal(
                failures@.len(),
            ) + " source(s):\n"@ + text::joined(text::texts(failures@), "\n\n"@),
        },
{
    if failures.len() == 0 {
        Ok(())
    } else {
        let mut e = "Failed to rescan ".to_owned();
        e.append(&decimal_string(failures.len() as u64));
        e.append(" source(s):\n");
        e.append(&join(failures, "\n\n"));
        Err(e)
    }
}

// ── Playlists ────────────────────────────────────────────────────────────────

/// Why a smart playlist cannot be saved.
#[derive(Debug)]
pub enum PlaylistError {
    InvalidQuery(QuerySyntaxError),
    EmptyName,
}

/// The name under which a smart playlist is saved: its query has to be one, and its
/// name must not be blank.
pub fn playlist_name(name: &str, query_text: &str) -> (r: Result<String, PlaylistError>)
    ensures
        match r {
            Ok(n) => query::grammar::query(query_text@) is Some && text::trim(name@).len() > 0 && n@
                == text::trim(name@),
            Err(PlaylistError::InvalidQuery(_)) => query::grammar::query(query_text@) is None,
            Err(PlaylistError::EmptyName) => query::grammar::query(query_text@) is Some && text::trim(
                name@,
            ).len() == 0,
        },
{
    match query::parse(query_text) {
        Err(e) => Err(PlaylistError::InvalidQuery(e)),
        Ok(_) => {
            let n = trimmed(name);
            if n.as_str().is_empty() {
                Err(PlaylistError::EmptyName)
            } else {
                Ok(n)
            }
        },
    }
}

// ── Laws ─────────────────────────────────────────────────────────────────────

/// Reading a text that holds no quotation marks of a kind, inside such marks, makes
/// one word of it.
pub proof fn law_quotes_hold_together(t: Seq<char>, quote: char)
    requires
        quote == '"' || quote == '\'',
        t.len() > 0,
        !t.contains(quote),
    ensures
        words_of(seq![quote] + t + seq![quote]) == seq![t],
{
    let open = seq![quote] + t;
    lemma_inside_quotes(t, quote);
    let whole = open + seq![quote];
    assert(whole.drop_last() =~= open);
    assert(whole.last() == quote);
    assert(Seq::<Seq<char>>::empty().push(t) =~= seq![t]);
}

proof fn lemma_inside_quotes(t: Seq<char>, quote: char)
    requires
        quote == '"' || quote == '\'',
        !t.contains(quote),
    ensures
        read_words(seq![quote] + t) == (Words {
            done: Seq::empty(),
            current: t,
            quote: Some(quote),
        }),
    decreases t.len(),
{
    let all = seq![quote] + t;
    if t.len() == 0 {
        assert(all.drop_last() =~= Seq::empty());
        assert(all.last() == quote);
        let none = read_words(all.drop_last());
        assert(none.quote is None);
        assert(read_words(all) =~= Words { done: Seq::empty(), current: t, quote: Some(quote) });
    } else {
        let front = t.drop_last();
        assert(!front.contains(quote)) by {
            if front.contains(quote) {
                let i = choose|i: int| 0 <= i < front.len() && front[i] == quote;
                assert(t[i] == quote);
            }
        }
        lemma_inside_quotes(front, quote);
        assert(all.drop_last() =~= seq![quote] + front);
        assert(all.last() == t.last());
        assert(t.last() != quote) by {
            assert(t[t.len() - 1] == t.last());
        }
        assert(front.push(t.last()) =~= t);
        assert(read_words(all) =~= Words { done: Seq::empty(), current: t, quote: Some(quote) });
    }
}

/// No word of a command line is empty.
pub proof fn law_words_are_not_empty(s: Seq<char>)
    ensures
        forall|i: int| 0 <= i < words_of(s).len() ==> (#[trigger] words_of(s)[i]).len() > 0,
{
    lemma_done_words(s);
}

proof fn lemma_done_words(s: Seq<char>)
    ensures
        forall|i: int|
            0 <= i < read_words(s).done.len() ==> (#[trigger] read_words(s).done[i]).len() > 0,
    decreases s.len(),
{
    if s.len() > 0 {
        lemma_done_words(s.drop_last());
    }
}

/// Whether a character parts words, opens a quotation or closes one.
pub open spec fn is_plain_char(c: char) -> bool {
    c != ' ' && c != '\t' && c != '"' && c != '\''
}

/// Blanks part words, however many there are; other characters make them up.
pub proof fn law_blanks_part_words(s: Seq<char>, word: Seq<char>, blank: char)
    requires
        read_words(s).quote is None,
        read_words(s).current.len() == 0,
        word.len() > 0,
        forall|i: int| 0 <= i < word.len() ==> is_plain_char(#[trigger] word[i]),
        blank == ' ' || blank == '\t',
    ensures
        words_of(s + word) == words_of(s).push(word),
        read_words(s + word + seq![blank]).done == words_of(s).push(word),
        read_words(s + word + seq![blank]).current.len() == 0,
        read_words(s + word + seq![blank]).quote is None,
        read_words(s + seq![blank]) == read_words(s),
        read_words(Seq::empty()).done.len() == 0 && read_words(Seq::empty()).current.len() == 0
            && read_words(Seq::empty()).quote is None,
{
    lemma_word_read(s, word);
    let t = s + word;
    assert((t + seq![blank]).drop_last() =~= t);
    assert((t + seq![blank]).last() == blank);
    assert((s + seq![blank]).drop_last() =~= s);
    assert((s + seq![blank]).last() == blank);
}

proof fn lemma_word_read(s: Seq<char>, word: Seq<char>)
    requires
        read_words(s).quote is None,
        read_words(s).current.len() == 0,
        forall|i: int| 0 <= i < word.len() ==> is_plain_char(#[trigger] word[i]),
    ensures
        read_words(s + word).done == read_words(s).done,
        read_words(s + word).current == word,
        read_words(s + word).quote is None,
    decreases word.len(),
{
    if word.len() == 0 {
        assert(s + word =~= s);
        assert(read_words(s).current =~= word);
    } else {
        let front = word.drop_last();
        assert forall|i: int| 0 <= i < front.len() implies is_plain_char(#[trigger] front[i]) by {
            assert(word[i] == front[i]);
        }
        lemma_word_read(s, front);
        assert((s + word).drop_last() =~= s + front);
        assert((s + word).last() == word.last());
        assert(is_plain_char(word[word.len() - 1]));
        assert(front.push(word.last()) =~= word);
    }
}

/// A quotation inside a word belongs to it, blanks and marks of the other kind included,
/// and its own marks are left out.
pub proof fn law_quotation_belongs_to_word(s: Seq<char>, inner: Seq<char>, quote: char)
    requires
        read_words(s).quote is None,
        quote == '"' || quote == '\'',
        !inner.contains(quote),
    ensures
        read_words(s + seq![quote] + inner + seq![quote]).done == read_words(s).done,
        read_words(s + seq![quote] + inner + seq![quote]).current == read_words(s).current + inner,
        read_words(s + seq![quote] + inner + seq![quote]).quote is None,
{
    lemma_quotation_read(s, inner, quote);
    let open = s + seq![quote] + inner;
    assert((open + seq![quote]).drop_last() =~= open);
    assert((open + seq![quote]).last() == quote);
}

proof fn lemma_quotation_read(s: Seq<char>, inner: Seq<char>, quote: char)
    requires
        read_words(s).quote is None,
        quote == '"' || quote == '\'',
        !inner.contains(quote),
    ensures
        read_words(s + seq![quote] + inner).done == read_words(s).done,
        read_words(s + seq![quote] + inner).current == read_words(s).current + inner,
        read_words(s + seq![quote] + inner).quote == Some(quote),
    decreases inner.len(),
{
    let all = s + seq![quote] + inner;
    if inner.len() == 0 {
        assert(all.drop_last() =~= s);
        assert(all.last() == quote);
        assert(read_words(s).current + inner =~= read_words(s).current);
    } else {
        let front = inner.drop_last();
        assert(inner.contains(inner.last()));
        assert(!front.contains(quote)) by {
            if front.contains(quote) {
                let i = choose|i: int| 0 <= i < front.len() && front[i] == quote;
                assert(inner[i] == quote);
            }
        }
        lemma_quotation_read(s, front, quote);
        assert(all.drop_last() =~= s + seq![quote] + front);
        assert(all.last() == inner.last());
        assert((read_words(s).current + front).push(inner.last()) =~= read_words(s).current
            + inner);
    }
}

/// A part is replaced wherever it stands, from the front on, and all else stays: first
/// where it stands behind a text without its first character, then in the rest.
pub proof fn law_parts_are_replaced(front: Seq<char>, c: char, rest: Seq<char>, by: Seq<char>)
    requires
        !front.contains(c),
    ensures
        replaced(front, seq![c, c], by) == front,
        replaced(front + seq![c, c] + rest, seq![c, c], by) == front + by + replaced(
            rest,
            seq![c, c],
            by,
        ),
    decreases front.len(),
{
    let part = seq![c, c];
    let s = front + part + rest;
    if front.len() == 0 {
        assert(part.is_prefix_of(s)) by {
            assert(s.take(2) =~= part);
        }
        assert(s.skip(2) =~= rest);
        assert(front + by + replaced(rest, part, by) =~= by + replaced(rest, part, by));
    } else {
        let tail = front.skip(1);
        assert(front.contains(front[0]));
        assert(!tail.contains(c)) by {
            if tail.contains(c) {
                let i = choose|i: int| 0 <= i < tail.len() && tail[i] == c;
                assert(front[i + 1] == c);
            }
        }
        law_parts_are_replaced(tail, c, rest, by);
        assert(s[0] == front[0]);
        assert(!part.is_prefix_of(s)) by {
            if part.is_prefix_of(s) {
                assert(s.take(2)[0] == part[0]);
            }
        }
        assert(!part.is_prefix_of(front)) by {
            if part.is_prefix_of(front) {
                assert(front.take(2)[0] == part[0]);
            }
        }
        assert(s.skip(1) =~= tail + part + rest);
        assert(seq![front[0]] + tail =~= front);
        assert(seq![s[0]] + (tail + by + replaced(rest, part, by)) =~= front + by + replaced(
            rest,
            part,
            by,
        ));
    }
}

/// A command has the words of its template, with the path of the file in place of each
/// `%%`.
pub proof fn law_command_names_file(template: Seq<char>, file_path: Seq<char>, i: int)
    requires
        0 <= i < words_of(template).len(),
    ensures
        command_words(template, file_path).len() == words_of(template).len(),
        command_words(template, file_path)[i] == replaced(
            words_of(template)[i],
            seq!['%', '%'],
            file_path,
        ),
        words_of(template)[i] == seq!['%', '%'] ==> command_words(template, file_path)[i]
            == file_path,
        !words_of(template)[i].contains('%') ==> command_words(template, file_path)[i] == words_of(
            template,
        )[i],
{
    reveal_strlit("%%");
    let part = seq!['%', '%'];
    assert("%%"@ =~= part);
    let w = words_of(template)[i];
    if !w.contains('%') {
        law_parts_are_replaced(w, '%', Seq::empty(), file_path);
    }
    if w == part {
        let none = Seq::<char>::empty();
        law_parts_are_replaced(none, '%', none, file_path);
        assert(none + part + none =~= w);
        assert(none + file_path + replaced(none, part, file_path) =~= file_path);
    }
}

/// A page is what stands from its offset on, as far as its limit goes.
pub proof fn law_page<A>(s: Seq<A>, offset: usize, limit: usize, i: int)
    ensures
        page(s, offset, limit).len() <= limit,
        offset >= s.len() ==> page(s, offset, limit).len() == 0,
        offset < s.len() && limit <= s.len() - offset ==> page(s, offset, limit).len() == limit,
        offset < s.len() && limit > s.len() - offset ==> page(s, offset, limit).len() == s.len()
            - offset,
        0 <= i < page(s, offset, limit).len() ==> page(s, offset, limit)[i] == s[offset + i],
{
}

/// A recording is found where its identifier first stands, and by its primary source
/// where that first stands.
pub proof fn law_recordings_are_found(rows: Seq<RecordingRow>, k: int, id: Seq<char>)
    requires
        0 <= k <= rows.len(),
    ensures
        (forall|i: int| 0 <= i < k ==> (#[trigger] rows[i]).id@ != id) && (k < rows.len()
            ==> rows[k].id@ == id) ==> recording_at(rows, id) == k,
        (forall|i: int|
            0 <= i < k ==> text::opt_text((#[trigger] rows[i]).primary_source_id) != Some(id)) && (k
            < rows.len() ==> text::opt_text(rows[k].primary_source_id) == Some(id)) ==> (if k
            < rows.len() {
            recording_showing(rows, id) == Some(rows[k].id@)
        } else {
            recording_showing(rows, id) is None
        }),
    decreases rows.len(),
{
    if rows.len() > 0 {
        let rest = rows.skip(1);
        if k > 0 {
            law_recordings_are_found(rest, k - 1, id);
            assert(rows[0].id@ != id || rows[0].id@ == id);
            assert forall|i: int| 0 <= i < k - 1 implies rest[i] == rows[i + 1] by {}
            if k < rows.len() {
                assert(rest[k - 1] == rows[k]);
            }
            if forall|i: int| 0 <= i < k ==> (#[trigger] rows[i]).id@ != id {
                assert(rows[0].id@ != id);
                assert forall|i: int| 0 <= i < k - 1 implies (#[trigger] rest[i]).id@ != id by {
                    assert(rows[i + 1].id@ != id);
                }
            }
            if forall|i: int|
                0 <= i < k ==> text::opt_text((#[trigger] rows[i]).primary_source_id) != Some(id) {
                assert(text::opt_text(rows[0].primary_source_id) != Some(id));
                assert forall|i: int| 0 <= i < k - 1 implies text::opt_text(
                    (#[trigger] rest[i]).primary_source_id,
                ) != Some(id) by {
                    assert(text::opt_text(rows[i + 1].primary_source_id) != Some(id));
                }
            }
        }
    }
}

/// The files of a recording are its paths that are not empty; paths that are handed in
/// lose the blanks around them, and empty ones are left out.
pub proof fn law_paths_are_not_empty(row: RecordingRow, paths: Seq<Seq<char>>, p: Seq<char>)
    ensures
        file_paths(row).contains(p) <==> p.len() > 0 && text::texts(row.source_paths@).contains(p),
        clean_paths(paths).contains(p) <==> p.len() > 0 && exists|i: int|
            0 <= i < paths.len() && text::trim(#[trigger] paths[i]) == p,
{
    let all = text::texts(row.source_paths@);
    let keep = |p: Seq<char>| p.len() > 0;
    if file_paths(row).contains(p) {
        all.lemma_filter_contains_rev(keep, p);
        let kept = all.filter(keep);
        let k = choose|k: int| 0 <= k < kept.len() && kept[k] == p;
        all.lemma_filter_pred(keep, k);
    }
    if p.len() > 0 && all.contains(p) {
        let i = choose|i: int| 0 <= i < all.len() && all[i] == p;
        all.lemma_filter_contains(keep, i);
    }
    let f = |p: Seq<char>| crate::storage::memory::described::clean_part(p);
    if clean_paths(paths).contains(p) {
        text::lemma_filter_map_source(paths, f, p);
        let i = choose|i: int| 0 <= i < paths.len() && f(#[trigger] paths[i]) == Some(p);
        assert(text::trim(paths[i]) == p);
    }
    if p.len() > 0 && exists|i: int| 0 <= i < paths.len() && text::trim(#[trigger] paths[i]) == p {
        let i = choose|i: int| 0 <= i < paths.len() && text::trim(#[trigger] paths[i]) == p;
        text::lemma_filter_map_keeps(paths, f, i);
    }
}

/// Not all sources of a recording can be taken away from it: one has to stay.
pub proof fn law_one_source_stays(ids: Seq<Seq<char>>, all: Seq<Seq<char>>, i: int)
    ensures
        0 <= i < all.len() && !ids.contains(all[i]) ==> one_stays(ids, all),
        (forall|k: int| 0 <= k < all.len() ==> ids.contains(#[trigger] all[k])) ==> !one_stays(
            ids,
            all,
        ),
{
}

/// A command is its first word with the others as arguments; without a word there is
/// none.
pub proof fn law_first_word_is_program(
    template: &str,
    file_path: &str,
    r: Result<(String, Vec<String>), String>,
)
    requires
        call_ensures(external_command, (template, file_path), r),
    ensures
        r is Ok <==> words_of(template@).len() > 0,
        r matches Ok(c) ==> seq![c.0@] + text::texts(c.1@) == command_words(template@, file_path@),
        r matches Err(e) ==> e@ == "Empty command"@,
{
    if r is Ok {
        let words = command_words(template@, file_path@);
        assert(seq![words[0]] + words.skip(1) =~= words);
    }
}

/// Ratings have one star to five, or are taken away.
pub proof fn law_ratings_have_one_to_five_stars(stars: Option<i64>, r: Result<(), String>)
    requires
        call_ensures(validate_rating, (stars,), r),
    ensures
        stars is None ==> r is Ok,
        stars matches Some(n) ==> (r is Ok <==> n == 1 || n == 2 || n == 3 || n == 4 || n == 5),
        r matches Err(e) ==> e@ == "Rating must be between 1 and 5."@,
{
}

/// A list is handed out in pages of two hundred, from the start, where nothing else is
/// asked for.
pub proof fn law_pages_of_two_hundred(
    rows: Vec<RecordingRow>,
    limit: Option<i64>,
    offset: Option<i64>,
    r: Vec<RecordingRow>,
    i: int,
)
    requires
        call_ensures(list_page, (rows, limit, offset), r),
    ensures
        limit is None ==> r@.len() <= 200,
        limit is None && offset is None && rows@.len() <= 200 ==> r@ == rows@,
        limit is None && offset is None && 0 <= i < r@.len() ==> r@[i] == rows@[i],
        limit is Some && offset is Some && 0 <= limit->0 <= u32::MAX && 0 <= offset->0 <= u32::MAX
            && 0 <= i < r@.len() ==> r@.len() <= limit->0 && r@[i] == rows@[offset->0 + i],
{
    if limit is None && offset is None {
        law_page(rows@, 0, 200, i);
        if rows@.len() <= 200 {
            assert(rows@.skip(0) =~= rows@);
            assert(page(rows@, 0, 200) =~= rows@);
        }
    }
    if limit is Some && offset is Some {
        law_page(rows@, offset->0 as usize, limit->0 as usize, i);
    }
    if limit is None && offset is Some {
        law_page(rows@, offset->0 as usize, 200, i);
    }
}

/// A search loses the blanks around it, and one of blanks alone is none.
pub proof fn law_searches_are_trimmed(search: Option<&str>, r: Option<String>)
    requires
        call_ensures(search_text, (search,), r),
    ensures
        search is None ==> r is None,
        search matches Some(s) && text::all_blank(s@) ==> r is None,
        r matches Some(t) ==> search is Some && t@ == text::trim(search->0@) && t@.len() > 0,
        search matches Some(s) && text::trim(s@).len() > 0 ==> r is Some,
{
    if let Some(s) = search {
        if text::all_blank(s@) {
            lemma_blank_trims_away(s@);
        }
    }
}

proof fn lemma_blank_trims_away(s: Seq<char>)
    requires
        text::all_blank(s),
    ensures
        text::trim(s).len() == 0,
    decreases s.len(),
{
    if s.len() > 0 {
        assert(text::is_space(s[0]));
        assert forall|i: int| 0 <= i < s.skip(1).len() implies text::is_space(
            #[trigger] s.skip(1)[i],
        ) by {
            assert(text::is_space(s[i + 1]));
        }
        lemma_blank_trims_away(s.skip(1));
    }
}

/// The history of the queue is held between one entry and a hundred, and has five where
/// nothing is stored.
pub proof fn law_history_is_held_in_bounds(wanted: i64, r: i64, stored: Option<&str>, kept: i64)
    requires
        call_ensures(queue_history_limit, (wanted,), r),
        call_ensures(stored_history_limit, (stored,), kept),
    ensures
        1 <= r <= 100,
        1 <= wanted <= 100 ==> r == wanted,
        wanted < 1 ==> r == 1,
        wanted > 100 ==> r == 100,
        stored is None ==> kept == 5,
        stored matches Some(s) && text::number(s@) is None ==> kept == 5,
        forall|n: i64|
            stored matches Some(s) && s@ == #[trigger] text::signed_decimal(n as int) ==> kept == n,
{
    assert forall|n: i64|
        stored matches Some(s) && s@ == #[trigger] text::signed_decimal(n as int) implies kept
        == n by {
        text::law_number_reads_back(n);
    }
}

/// Sources can be moved where some are named and one stays behind.
pub proof fn law_some_sources_move(ids: Vec<String>, all: &Vec<String>, r: Result<Vec<String>, String>)
    requires
        call_ensures(sources_to_move, (ids, all), r),
    ensures
        ids@.len() == 0 ==> r is Err && r->Err_0@ == "No sources selected to move"@,
        ids@.len() > 0 && (forall|k: int|
            0 <= k < all@.len() ==> text::texts(ids@).contains((#[trigger] all@[k])@)) ==> r is Err && r->Err_0@
            == "At least one source must stay with the recording"@,
        r matches Ok(v) ==> v@ == ids@,
        ids@.len() > 0 && (exists|k: int|
            0 <= k < all@.len() && !text::texts(ids@).contains((#[trigger] all@[k])@)) ==> r is Ok,
{
    let a = text::texts(ids@);
    let b = text::texts(all@);
    if exists|k: int| 0 <= k < all@.len() && !a.contains((#[trigger] all@[k])@) {
        let k = choose|k: int| 0 <= k < all@.len() && !a.contains((#[trigger] all@[k])@);
        law_one_source_stays(a, b, k);
    }
    if forall|k: int| 0 <= k < all@.len() ==> a.contains((#[trigger] all@[k])@) {
        assert forall|k: int| 0 <= k < b.len() implies a.contains(#[trigger] b[k]) by {
            assert(a.contains(all@[k]@));
        }
    }
}

/// A path for the music, and one to rescan, must not be of blanks alone.
pub proof fn law_paths_must_be_given(
    path: &str,
    root: Result<String, String>,
    rescan: Result<String, String>,
)
    requires
        call_ensures(music_root, (path,), root),
        call_ensures(rescan_path, (path,), rescan),
    ensures
        root is Ok <==> text::trim(path@).len() > 0,
        rescan is Ok <==> text::trim(path@).len() > 0,
        root matches Ok(p) ==> p@ == text::trim(path@),
        rescan matches Ok(p) ==> p@ == text::trim(path@),
        root matches Err(e) ==> e@ == "Music root cannot be empty."@,
        rescan matches Err(e) ==> e@ == "Source path cannot be empty."@,
{
}

/// A rescan fails as a whole where one source fails, and tells how many and why.
pub proof fn law_rescans_tell_failures(failures: &Vec<String>, r: Result<(), String>)
    requires
        call_ensures(rescan_result, (failures,), r),
    ensures
        r is Ok <==> failures@.len() == 0,
        failures@.len() == 1 ==> r is Err && r->Err_0@ == "Failed to rescan 1 source(s):\n"@
            + failures@[0]@,
{
    if failures@.len() == 1 {
        reveal_strlit("Failed to rescan 1 source(s):\n");
        reveal_strlit("Failed to rescan ");
        reveal_strlit(" source(s):\n");
        text::law_decimal_reads_back(1);
        assert(text::decimal(1) =~= seq!['1']);
        assert(r->Err_0@ =~= "Failed to rescan 1 source(s):\n"@ + failures@[0]@);
    }
}

} // verus!

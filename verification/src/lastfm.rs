//! Requests to Last.fm and what its replies mean.
//!
//! A request is a list of parameters, signed with a secret. Sending it and taking
//! the reply apart is left to the caller.
use vstd::prelude::*;
use vstd::utf8::*;
use crate::digest;
use crate::digest::{hex_encode, md5_digest};
use crate::sorting;
use crate::sorting::sort_strings;
use crate::text;
use crate::text::{same_text, signed_string, trimmed};

verus! {

/// Where requests are sent to.
pub const API_ROOT: &'static str = "https://ws.audioscrobbler.com/2.0/";

/// The credentials of the application.
#[derive(Debug)]
pub struct LastFmConfig {
    pub api_key: String,
    pub shared_secret: String,
}

/// What a reply says that is not an answer: an error code and a message.
#[derive(Debug)]
pub struct ReplyStatus {
    pub error: Option<i64>,
    pub message: Option<String>,
}

/// What a reply says of a session; `None` where the reply has no session.
#[derive(Debug)]
pub struct SessionReply {
    pub key: Option<String>,
    pub name: Option<String>,
}

// ── Signatures ───────────────────────────────────────────────────────────────

/// Parameters as pairs of name and value.
pub type Params = Seq<(Seq<char>, Seq<char>)>;

/// The names of parameters.
pub open spec fn names(params: Params) -> Seq<Seq<char>> {
    params.map_values(|p: (Seq<char>, Seq<char>)| p.0)
}

/// The value of the first parameter with a name.
pub open spec fn value_of(params: Params, name: Seq<char>) -> Seq<char> {
    params[text::first_at(names(params), name)].1
}

/// The names of parameters in order, each followed by its value.
pub open spec fn listed(params: Params, keys: Seq<Seq<char>>) -> Seq<char> {
    keys.map_values(|k: Seq<char>| k + value_of(params, k)).flatten()
}

/// What is signed: the parameters by name, and the secret.
pub open spec fn signed_text(params: Params, secret: Seq<char>) -> Seq<char> {
    listed(params, sorting::stable_sort(names(params), sorting::text_order())) + secret
}

/// The signature of parameters.
pub open spec fn signature(params: Params, secret: Seq<char>) -> Seq<char> {
    digest::hex_text(digest::md5_of(encode_utf8(signed_text(params, secret))))
}

/// The place of the first parameter with a name.
fn find_param(params: &Vec<(String, String)>, name: &str) -> (r: usize)
    requires
        names(text::pairs(params@)).contains(name@),
    ensures
        r < params@.len(),
        r == text::first_at(names(text::pairs(params@)), name@),
{
    let ghost keys = names(text::pairs(params@));
    let mut i: usize = 0;
    proof {
        text::lemma_first_at(keys, name@);
    }
    while i < params.len()
        invariant
            i <= params@.len(),
            keys == names(text::pairs(params@)),
            text::first_at(keys, name@) < params@.len(),
            forall|k: int| 0 <= k < i ==> keys[k] != name@,
        decreases params@.len() - i,
    {
        assert(keys[i as int] == params@[i as int].0@);
        if same_text(&params[i].0, name) {
            proof {
                text::lemma_first_at_is(keys, name@, i as int);
            }
            return i;
        }
        i = i + 1;
    }
    proof {
        text::lemma_first_at_is(keys, name@, i as int);
    }
    0
}

/// Signs parameters: the MD5, in hexadecimal digits, of what is signed.
pub fn generate_api_sig(params: &Vec<(String, String)>, secret: &str) -> (r: String)
    ensures
        r@ == signature(text::pairs(params@), secret@),
{
    let buf = signing_text(params, secret);
    let hash = md5_digest(buf.as_str().as_bytes());
    hex_encode(&hash)
}

/// What is signed of parameters: sorted by name, each name followed by its value,
/// then the secret.
pub fn signing_text(params: &Vec<(String, String)>, secret: &str) -> (r: String)
    ensures
        r@ == signed_text(text::pairs(params@), secret@),
{
    let ghost all = text::pairs(params@);
    let mut unsorted: Vec<String> = Vec::new();
    let mut i: usize = 0;
    while i < params.len()
        invariant
            i <= params@.len(),
            unsorted@.len() == i,
            forall|k: int| 0 <= k < i ==> (#[trigger] unsorted@[k])@ == params@[k].0@,
        decreases params@.len() - i,
    {
        unsorted.push(params[i].0.clone());
        i = i + 1;
    }
    assert(text::texts(unsorted@) =~= names(all));
    let sorted = sort_strings(unsorted);
    let ghost keys = text::texts(sorted@);
    let ghost f = |k: Seq<char>| k + value_of(all, k);
    proof {
        sorting::lemma_text_order();
        assert forall|k: int| 0 <= k < keys.len() implies names(all).contains(#[trigger] keys[k]) by {
            assert(keys.contains(keys[k]));
            sorting::lemma_sort_contains(names(all), sorting::text_order(), keys[k]);
        }
    }
    let mut buf = String::new();
    let mut j: usize = 0;
    proof {
        assert(keys.take(0).map_values(f).flatten() =~= Seq::empty());
        assert(buf@ =~= Seq::empty());
    }
    while j < sorted.len()
        invariant
            j <= sorted@.len(),
            all == text::pairs(params@),
            keys == text::texts(sorted@),
            f == (|k: Seq<char>| k + value_of(all, k)),
            forall|k: int| 0 <= k < keys.len() ==> names(all).contains(#[trigger] keys[k]),
            buf@ == keys.take(j as int).map_values(f).flatten(),
        decreases sorted@.len() - j,
    {
        let ghost before = buf@;
        let ghost done = keys.take(j as int).map_values(f);
        assert(keys[j as int] == sorted@[j as int]@);
        let k = find_param(params, &sorted[j]);
        buf.append(&sorted[j]);
        buf.append(&params[k].1);
        proof {
            let key = keys[j as int];
            assert(all[k as int].1 == params@[k as int].1@);
            assert(buf@ =~= before + f(key));
            assert(keys.take(j + 1).map_values(f) =~= done.push(f(key)));
            done.lemma_flatten_push(f(key));
        }
        j = j + 1;
    }
    assert(keys.take(keys.len() as int) =~= keys);
    buf.append(secret);
    buf
}

/// The parameters that are sent: those of the call, the key of the application,
/// the signature of all these, and the format of the reply.
pub open spec fn sent(call: Params, key: Seq<char>, secret: Seq<char>) -> Params {
    let known = call.push(("api_key"@, key));
    known.push(("api_sig"@, signature(known, secret))).push(("format"@, "json"@))
}

/// Adds what every request carries to the parameters of a call.
pub fn signed_params(call: Vec<(String, String)>, config: &LastFmConfig) -> (r: Vec<
    (String, String),
>)
    ensures
        text::pairs(r@) == sent(text::pairs(call@), config.api_key@, config.shared_secret@),
{
    let ghost first = text::pairs(call@);
    let mut r = call;
    r.push(("api_key".to_owned(), config.api_key.clone()));
    let ghost known = text::pairs(r@);
    assert(known =~= first.push(("api_key"@, config.api_key@)));
    let sig = generate_api_sig(&r, &config.shared_secret);
    let ghost sig_text = sig@;
    r.push(("api_sig".to_owned(), sig));
    r.push(("format".to_owned(), "json".to_owned()));
    assert(text::pairs(r@) =~= known.push(("api_sig"@, sig_text)).push(("format"@, "json"@)));
    r
}

// ── Calls ────────────────────────────────────────────────────────────────────

fn param(name: &str, value: &str) -> (r: (String, String))
    ensures
        r.0@ == name@,
        r.1@ == value@,
{
    (name.to_owned(), value.to_owned())
}

/// The parameters of a request for a token.
pub fn token_params() -> (r: Vec<(String, String)>)
    ensures
        text::pairs(r@) == seq![("method"@, "auth.getToken"@)],
{
    let r = vec![param("method", "auth.getToken")];
    assert(text::pairs(r@) =~= seq![("method"@, "auth.getToken"@)]);
    r
}

/// The parameters of a request for a session.
pub fn session_params(token: &str) -> (r: Vec<(String, String)>)
    ensures
        text::pairs(r@) == seq![("method"@, "auth.getSession"@), ("token"@, token@)],
{
    let r = vec![param("method", "auth.getSession"), param("token", token)];
    assert(text::pairs(r@) =~= seq![("method"@, "auth.getSession"@), ("token"@, token@)]);
    r
}

/// The parameters that speak of a track.
pub open spec fn track_call(
    method: Seq<char>,
    session_key: Seq<char>,
    artist: Seq<char>,
    track: Seq<char>,
) -> Params {
    seq![("method"@, method), ("sk"@, session_key), ("artist"@, artist), ("track"@, track)]
}

/// Parameters with the album, if it is known.
pub open spec fn with_album(params: Params, album: Option<&str>) -> Params {
    match album {
        Some(a) => params.push(("album"@, a@)),
        None => params,
    }
}

fn track_params(method: &str, session_key: &str, artist: &str, track: &str) -> (r: Vec<
    (String, String),
>)
    ensures
        text::pairs(r@) == track_call(method@, session_key@, artist@, track@),
{
    let r = vec![
        param("method", method),
        param("sk", session_key),
        param("artist", artist),
        param("track", track),
    ];
    assert(text::pairs(r@) =~= track_call(method@, session_key@, artist@, track@));
    r
}

fn add_param(params: &mut Vec<(String, String)>, name: &str, value: &str)
    ensures
        text::pairs(final(params)@) == text::pairs(old(params)@).push((name@, value@)),
{
    params.push(param(name, value));
    assert(text::pairs(params@) =~= text::pairs(old(params)@).push((name@, value@)));
}

/// The parameters that tell what is playing.
pub fn now_playing_params(
    session_key: &str,
    artist: &str,
    track: &str,
    album: Option<&str>,
) -> (r: Vec<(String, String)>)
    ensures
        text::pairs(r@) == with_album(
            track_call("track.updateNowPlaying"@, session_key@, artist@, track@),
            album,
        ),
{
    let mut r = track_params("track.updateNowPlaying", session_key, artist, track);
    if let Some(a) = album {
        add_param(&mut r, "album", a);
    }
    r
}

/// The parameters that tell what was played. `timestamp` is the moment at which the
/// track began, in seconds since 1970.
pub fn scrobble_params(
    session_key: &str,
    artist: &str,
    track: &str,
    album: Option<&str>,
    timestamp: i64,
) -> (r: Vec<(String, String)>)
    ensures
        text::pairs(r@) == with_album(
            track_call("track.scrobble"@, session_key@, artist@, track@).push(
                ("timestamp"@, text::signed_decimal(timestamp as int)),
            ),
            album,
        ),
{
    let mut r = track_params("track.scrobble", session_key, artist, track);
    add_param(&mut r, "timestamp", &signed_string(timestamp));
    if let Some(a) = album {
        add_param(&mut r, "album", a);
    }
    r
}

/// The parameters that ask about a track.
pub fn track_info_params(session_key: &str, artist: &str, track: &str) -> (r: Vec<
    (String, String),
>)
    ensures
        text::pairs(r@) == track_call("track.getInfo"@, session_key@, artist@, track@),
{
    track_params("track.getInfo", session_key, artist, track)
}

/// The parameters that love a track.
pub fn love_params(session_key: &str, artist: &str, track: &str) -> (r: Vec<(String, String)>)
    ensures
        text::pairs(r@) == track_call("track.love"@, session_key@, artist@, track@),
{
    track_params("track.love", session_key, artist, track)
}

// ── Replies ──────────────────────────────────────────────────────────────────

/// Whether a reply reports no error; else what it reports.
pub fn check_reply(status: &ReplyStatus) -> (r: Result<(), String>)
    ensures
        match r {
            Ok(()) => !(status.error matches Some(code) && code != 0),
            Err(e) => {
                &&& status.error matches Some(code) && code != 0
                &&& e@ == "Last.fm API error ("@ + text::signed_decimal(status.error->0 as int)
                    + "): "@ + match status.message {
                    Some(m) => m@,
                    None => "unknown error"@,
                }
            },
        },
{
    match status.error {
        Some(code) => if code != 0 {
            let mut e = "Last.fm API error (".to_owned();
            e.append(&signed_string(code));
            e.append("): ");
            match &status.message {
                Some(m) => e.append(m),
                None => e.append("unknown error"),
            }
            Err(e)
        } else {
            Ok(())
        },
        None => Ok(()),
    }
}

/// The token of a reply.
pub fn token_of(token: Option<String>) -> (r: Result<String, String>)
    ensures
        match r {
            Ok(t) => token == Some(t),
            Err(e) => token is None && e@ == "Last.fm did not return a token"@,
        },
{
    match token {
        Some(t) => Ok(t),
        None => Err("Last.fm did not return a token".to_owned()),
    }
}

/// The key and the user's name of a session.
pub fn session_of(session: Option<SessionReply>) -> (r: Result<(String, String), String>)
    ensures
        match r {
            Ok(s) => session matches Some(x) && x.key == Some(s.0) && x.name == Some(s.1),
            Err(e) => match session {
                None => e@ == "Last.fm did not return a session object"@,
                Some(x) => if x.key is None {
                    e@ == "Last.fm session missing 'key'"@
                } else {
                    x.name is None && e@ == "Last.fm session missing 'name'"@
                },
            },
        },
{
    match session {
        None => Err("Last.fm did not return a session object".to_owned()),
        Some(x) => match x.key {
            None => Err("Last.fm session missing 'key'".to_owned()),
            Some(key) => match x.name {
                None => Err("Last.fm session missing 'name'".to_owned()),
                Some(name) => Ok((key, name)),
            },
        },
    }
}

/// Whether a reply says that the user loves a track.
pub fn is_loved(userloved: Option<&str>) -> (r: bool)
    ensures
        r == (userloved matches Some(v) && v@ == "1"@),
{
    match userloved {
        Some(v) => same_text(v, "1"),
        None => false,
    }
}

// ── Credentials ──────────────────────────────────────────────────────────────

/// The credentials that are stored.
pub fn stored_config(api_key: Option<String>, shared_secret: Option<String>) -> (r: Result<
    LastFmConfig,
    String,
>)
    ensures
        match r {
            Ok(c) => api_key == Some(c.api_key) && shared_secret == Some(c.shared_secret),
            Err(e) => (api_key is None || shared_secret is None) && e@
                == "Last.fm not configured. Enter your API key and shared secret in Settings."@,
        },
{
    match api_key {
        Some(api_key) => match shared_secret {
            Some(shared_secret) => Ok(LastFmConfig { api_key, shared_secret }),
            None => Err(
                "Last.fm not configured. Enter your API key and shared secret in Settings.".to_owned(),
            ),
        },
        None => Err(
            "Last.fm not configured. Enter your API key and shared secret in Settings.".to_owned(),
        ),
    }
}

/// The credentials that a user gave, without blanks around them.
pub fn given_config(api_key: &str, shared_secret: &str) -> (r: Result<LastFmConfig, String>)
    ensures
        match r {
            Ok(c) => {
                &&& c.api_key@ == text::trim(api_key@)
                &&& c.shared_secret@ == text::trim(shared_secret@)
                &&& c.api_key@.len() > 0
                &&& c.shared_secret@.len() > 0
            },
            Err(e) => {
                &&& text::trim(api_key@).len() == 0 || text::trim(shared_secret@).len() == 0
                &&& e@ == "API key and shared secret must not be empty."@
            },
        },
{
    let api_key = trimmed(api_key);
    let shared_secret = trimmed(shared_secret);
    if api_key.as_str().is_empty() || shared_secret.as_str().is_empty() {
        Err("API key and shared secret must not be empty.".to_owned())
    } else {
        Ok(LastFmConfig { api_key, shared_secret })
    }
}

/// The page at which a user allows the application to act for them.
pub fn auth_url(config: &LastFmConfig, token: &str) -> (r: String)
    ensures
        r@ == "https://www.last.fm/api/auth/?api_key="@ + config.api_key@ + "&token="@ + token@,
{
    let mut r = "https://www.last.fm/api/auth/?api_key=".to_owned();
    r.append(&config.api_key);
    r.append("&token=");
    r.append(token);
    r
}

/// The token that waits for the user's consent.
#[derive(Debug)]
pub struct PendingAuth {
    pub token: Option<String>,
}

impl PendingAuth {
    /// No token waits.
    pub fn new() -> (r: PendingAuth)
        ensures
            r.token is None,
    {
        PendingAuth { token: None }
    }

    /// Keeps a token; one that waited before is forgotten.
    pub fn keep(&mut self, token: &str)
        ensures
            text::opt_text(final(self).token) == Some(token@),
    {
        self.token = Some(token.to_owned());
    }

    /// Takes the token that waits; it can be taken once.
    pub fn take_token(&mut self) -> (r: Result<String, String>)
        ensures
            final(self).token is None,
            match r {
                Ok(t) => old(self).token == Some(t),
                Err(e) => old(self).token is None && e@
                    == "No pending auth request. Call lastfm_get_auth_url first."@,
            },
    {
        match self.token.take() {
            Some(t) => Ok(t),
            None => Err("No pending auth request. Call lastfm_get_auth_url first.".to_owned()),
        }
    }
}

/// The stored session.
pub fn stored_session(session_key: Option<String>) -> (r: Result<String, String>)
    ensures
        match session_key {
            Some(key) => r == Ok::<String, String>(key),
            None => r is Err && r->Err_0@ == "Not logged in to Last.fm. Connect in Settings."@,
        },
{
    match session_key {
        Some(key) => Ok(key),
        None => Err("Not logged in to Last.fm. Connect in Settings.".to_owned()),
    }
}

/// Whether the service is set up, and for whom.
#[derive(Debug)]
pub struct LastFmStatus {
    pub configured: bool,
    pub logged_in: bool,
    pub username: Option<String>,
}

/// What the stored credentials say: the service is configured by its key, and a
/// session makes a login.
pub fn stored_status(
    api_key: Option<String>,
    session_key: Option<String>,
    username: Option<String>,
) -> (r: LastFmStatus)
    ensures
        r.configured == (api_key is Some),
        r.logged_in == (session_key is Some),
        r.username == username,
{
    LastFmStatus { configured: api_key.is_some(), logged_in: session_key.is_some(), username }
}

// ── When a play counts ───────────────────────────────────────────────────────

/// How long a track has to be played to count.
pub open spec fn needed_ms(duration_ms: u64) -> u64 {
    if duration_ms > 0 {
        if duration_ms / 2 < 240_000 {
            duration_ms / 2
        } else {
            240_000
        }
    } else {
        30_000
    }
}

/// Whether a play is reported: the track lasts at least half a minute, or nobody
/// knows how long it lasts, and half of it or four minutes were played.
pub open spec fn counts(duration_ms: u64, played_ms: u64) -> bool {
    !(0 < duration_ms < 30_000) && played_ms >= needed_ms(duration_ms)
}

/// Whether a play is reported.
pub fn should_scrobble(duration_ms: u64, played_ms: u64) -> (r: bool)
    ensures
        r == counts(duration_ms, played_ms),
{
    if duration_ms > 0 && duration_ms < 30_000 {
        return false;
    }
    let needed: u64 = if duration_ms > 0 {
        if duration_ms / 2 < 240_000 {
            duration_ms / 2
        } else {
            240_000
        }
    } else {
        30_000
    };
    played_ms >= needed
}

// ── Laws ─────────────────────────────────────────────────────────────────────

/// The signature does not depend on the order of parameters with different names.
pub proof fn law_signature_ignores_order(a: Params, b: Params, secret: Seq<char>)
    requires
        a.to_multiset() == b.to_multiset(),
        names(a).no_duplicates(),
    ensures
        signature(a, secret) == signature(b, secret),
{
    lemma_names_multiset(a, b);
    sorting::lemma_text_order();
    sorting::lemma_sort_unique(names(a), names(b), sorting::text_order());
    let keys = sorting::stable_sort(names(a), sorting::text_order());
    assert(listed(a, keys) =~= listed(b, keys)) by {
        let f = |k: Seq<char>| k + value_of(a, k);
        let g = |k: Seq<char>| k + value_of(b, k);
        assert(keys.map_values(f) =~= keys.map_values(g)) by {
            assert forall|i: int| 0 <= i < keys.len() implies f(#[trigger] keys[i]) == g(keys[i]) by {
                assert(keys.contains(keys[i]));
                sorting::lemma_sort_contains(names(a), sorting::text_order(), keys[i]);
                lemma_same_value(a, b, keys[i]);
            }
        }
    }
}

proof fn lemma_same_value(a: Params, b: Params, name: Seq<char>)
    requires
        a.to_multiset() == b.to_multiset(),
        names(a).no_duplicates(),
        names(a).contains(name),
    ensures
        value_of(a, name) == value_of(b, name),
{
    a.to_multiset_ensures();
    b.to_multiset_ensures();
    text::lemma_first_at(names(a), name);
    text::lemma_first_at(names(b), name);
    let i = text::first_at(names(a), name);
    assert(a.contains(a[i]));
    assert(a.to_multiset().count(a[i]) > 0);
    assert(b.contains(a[i]));
    let j = choose|j: int| 0 <= j < b.len() && b[j] == a[i];
    assert(names(b)[j] == name);
    assert(names(b).contains(name));
    let k = text::first_at(names(b), name);
    assert(b.contains(b[k]));
    assert(b.to_multiset().count(b[k]) > 0);
    assert(a.contains(b[k]));
    let m = choose|m: int| 0 <= m < a.len() && a[m] == b[k];
    assert(names(a)[m] == name);
    assert(names(a)[i] == name);
    assert(m == i);
}

proof fn lemma_names_multiset(a: Params, b: Params)
    requires
        a.to_multiset() == b.to_multiset(),
    ensures
        names(a).to_multiset() == names(b).to_multiset(),
    decreases a.len(),
{
    broadcast use vstd::seq_lib::group_to_multiset_ensures;

    a.to_multiset_ensures();
    b.to_multiset_ensures();
    assert(a.len() == b.len());
    if a.len() == 0 {
        assert(names(a) =~= names(b));
    } else {
        let x = a.last();
        assert(a.contains(x));
        assert(a.to_multiset().count(x) > 0);
        assert(b.contains(x));
        let j = choose|j: int| 0 <= j < b.len() && b[j] == x;
        let rest = b.remove(j);
        assert(a =~= a.drop_last().push(x));
        assert(rest.to_multiset() =~= b.to_multiset().remove(x));
        assert(a.drop_last().to_multiset() =~= a.to_multiset().remove(x));
        lemma_names_multiset(a.drop_last(), rest);
        assert(names(a) =~= names(a.drop_last()).push(x.0));
        assert(names(rest) =~= names(b).remove(j));
        assert(names(b)[j] == x.0);
        assert(names(rest).to_multiset() =~= names(b).to_multiset().remove(x.0));
        names(b).to_multiset_ensures();
        assert(names(b).contains(x.0));
        assert(names(rest).to_multiset().insert(x.0) =~= names(b).to_multiset());
    }
}

/// Playing longer never makes a play count less.
pub proof fn law_longer_play_counts(duration_ms: u64, played_ms: u64, longer_ms: u64)
    requires
        counts(duration_ms, played_ms),
        played_ms <= longer_ms,
    ensures
        counts(duration_ms, longer_ms),
{
}

/// What is signed are the names and values one behind the other, by the order of their
/// names, and the secret behind them.
pub proof fn law_signed_text_is_in_order(params: Params, secret: Seq<char>)
    requires
        forall|i: int, j: int|
            0 <= i < j < params.len() ==> text::text_le(
                (#[trigger] params[i]).0,
                (#[trigger] params[j]).0,
            ) && params[i].0 != params[j].0,
    ensures
        signed_text(params, secret) == params.map_values(
            |p: (Seq<char>, Seq<char>)| p.0 + p.1,
        ).flatten() + secret,
        params.len() == 0 ==> signed_text(params, secret) == secret,
{
    let all = names(params);
    let le = sorting::text_order();
    sorting::lemma_text_order();
    assert(sorting::sorted(all, le)) by {
        assert forall|i: int, j: int| 0 <= i < j < all.len() implies le(
            #[trigger] all[i],
            #[trigger] all[j],
        ) by {
            assert(text::text_le(params[i].0, params[j].0));
        }
    }
    lemma_sorted_stays(all, le);
    let rows = all.map_values(|k: Seq<char>| k + value_of(params, k));
    let told = params.map_values(|p: (Seq<char>, Seq<char>)| p.0 + p.1);
    assert forall|i: int| 0 <= i < params.len() implies rows[i] == told[i] by {
        assert forall|j: int| 0 <= j < i implies all[j] != all[i] by {
            assert(params[j].0 != params[i].0);
        }
        text::lemma_first_at_is(all, all[i], i);
    }
    assert(rows =~= told);
    if params.len() == 0 {
        assert(told =~= Seq::empty());
        assert(told.flatten() =~= Seq::empty());
        assert(Seq::<char>::empty() + secret =~= secret);
    }
}

proof fn lemma_sorted_stays(s: Seq<Seq<char>>, le: spec_fn(Seq<char>, Seq<char>) -> bool)
    requires
        sorting::sorted(s, le),
    ensures
        sorting::stable_sort(s, le) == s,
    decreases s.len(),
{
    if s.len() > 0 {
        let front = s.drop_last();
        assert(sorting::sorted(front, le)) by {
            assert forall|i: int, j: int| 0 <= i < j < front.len() implies le(
                #[trigger] front[i],
                #[trigger] front[j],
            ) by {
                assert(le(s[i], s[j]));
            }
        }
        lemma_sorted_stays(front, le);
        if front.len() > 0 {
            assert(le(s[s.len() - 2], s[s.len() - 1]));
        }
        assert(front.push(s.last()) =~= s);
    }
}

/// A call is sent with the key, with the signature of all that and with the wish for an
/// answer in JSON, in front of which it stands as it was made.
pub proof fn law_calls_are_signed(call: Params, key: Seq<char>, secret: Seq<char>)
    ensures
        ({
            let s = sent(call, key, secret);
            let n = call.len() as int;
            &&& s.len() == n + 3
            &&& s.take(n) == call
            &&& s[n] == ("api_key"@, key)
            &&& s[n + 1] == ("api_sig"@, signature(s.take(n + 1), secret))
            &&& s[n + 2] == ("format"@, "json"@)
        }),
{
    let s = sent(call, key, secret);
    let n = call.len() as int;
    assert(s.take(n) =~= call);
    assert(s.take(n + 1) =~= call.push(("api_key"@, key)));
}

/// A call about a track names its method, the session, the artist and the track, and the
/// album where it is known.
pub proof fn law_track_calls(
    method: Seq<char>,
    session_key: Seq<char>,
    artist: Seq<char>,
    track: Seq<char>,
    album: Option<&str>,
)
    ensures
        ({
            let call = track_call(method, session_key, artist, track);
            &&& call.len() == 4
            &&& call.contains(("method"@, method)) && call.contains(("sk"@, session_key))
            &&& call.contains(("artist"@, artist)) && call.contains(("track"@, track))
            &&& album is None ==> with_album(call, album) == call
            &&& album is Some ==> with_album(call, album) == call.push(("album"@, album->0@))
        }),
{
    let call = track_call(method, session_key, artist, track);
    assert(call[0] == ("method"@, method) && call[1] == ("sk"@, session_key) && call[2] == (
        "artist"@,
        artist,
    ) && call[3] == ("track"@, track));
}

/// A play counts when half of the track was played, or four minutes of it. Tracks under
/// half a minute never count, and of a track of unknown length half a minute is needed.
pub proof fn law_half_or_four_minutes(duration_ms: u64, played_ms: u64)
    ensures
        0 < duration_ms < 30_000 ==> !counts(duration_ms, played_ms),
        duration_ms == 0 ==> (counts(duration_ms, played_ms) <==> played_ms >= 30_000),
        30_000 <= duration_ms < 480_000 ==> (counts(duration_ms, played_ms) <==> 2 * played_ms + 1
            >= duration_ms),
        480_000 <= duration_ms ==> (counts(duration_ms, played_ms) <==> played_ms >= 240_000),
{
}

/// An answer is an error where it has a code other than zero.
pub proof fn law_replies_with_codes_are_errors(status: &ReplyStatus, r: Result<(), String>)
    requires
        call_ensures(check_reply, (status,), r),
    ensures
        status.error is None ==> r is Ok,
        status.error == Some(0i64) ==> r is Ok,
        status.error matches Some(code) && code != 0 ==> r is Err,
        r is Err && status.message is Some ==> r->Err_0@ == "Last.fm API error ("@
            + text::signed_decimal(status.error->0 as int) + "): "@ + status.message->0@,
{
}

/// A session is one with a key and a name.
pub proof fn law_sessions_have_key_and_name(
    session: Option<SessionReply>,
    r: Result<(String, String), String>,
)
    requires
        call_ensures(session_of, (session,), r),
    ensures
        r is Ok <==> session is Some && session->0.key is Some && session->0.name is Some,
        r matches Ok(s) ==> text::opt_text(session->0.key) == Some(s.0@) && text::opt_text(
            session->0.name,
        ) == Some(s.1@),
{
}

/// A configuration needs a key and a secret, without the blanks around them.
pub proof fn law_configuration_needs_key_and_secret(
    key: &str,
    secret: &str,
    given: Result<LastFmConfig, String>,
    stored_key: Option<String>,
    stored_secret: Option<String>,
    stored: Result<LastFmConfig, String>,
)
    requires
        call_ensures(given_config, (key, secret), given),
        call_ensures(stored_config, (stored_key, stored_secret), stored),
    ensures
        given is Ok <==> text::trim(key@).len() > 0 && text::trim(secret@).len() > 0,
        given matches Ok(c) ==> c.api_key@ == text::trim(key@) && c.shared_secret@ == text::trim(
            secret@,
        ),
        stored is Ok <==> stored_key is Some && stored_secret is Some,
        stored matches Ok(c) ==> c.api_key@ == stored_key->0@ && c.shared_secret@
            == stored_secret->0@,
{
}

/// A track is loved where the answer says one.
pub proof fn law_one_means_loved(answer: Option<&str>, r: bool)
    requires
        call_ensures(is_loved, (answer,), r),
    ensures
        answer is None ==> !r,
        answer matches Some(s) ==> (r <==> s@ == seq!['1']),
{
    reveal_strlit("1");
    assert("1"@ =~= seq!['1']);
}

/// The user allows the access at an address with the key and the token.
pub proof fn law_access_is_allowed_at_address(config: &LastFmConfig, token: &str, r: String)
    requires
        call_ensures(auth_url, (config, token), r),
    ensures
        r@ == "https://www.last.fm/api/auth/?api_key="@ + config.api_key@ + "&token="@ + token@,
{
}

/// The calls name their methods.
pub proof fn law_calls_name_their_methods(
    sk: &str,
    artist: &str,
    track: &str,
    album: Option<&str>,
    time: i64,
    playing: Vec<(String, String)>,
    scrobble: Vec<(String, String)>,
    info: Vec<(String, String)>,
    love: Vec<(String, String)>,
)
    requires
        call_ensures(now_playing_params, (sk, artist, track, album), playing),
        call_ensures(scrobble_params, (sk, artist, track, album, time), scrobble),
        call_ensures(track_info_params, (sk, artist, track), info),
        call_ensures(love_params, (sk, artist, track), love),
    ensures
        text::pairs(playing@)[0] == ("method"@, "track.updateNowPlaying"@),
        text::pairs(scrobble@)[0] == ("method"@, "track.scrobble"@),
        text::pairs(info@)[0] == ("method"@, "track.getInfo"@),
        text::pairs(love@)[0] == ("method"@, "track.love"@),
        text::pairs(scrobble@)[4] == ("timestamp"@, text::signed_decimal(time as int)),
        album is None ==> playing@.len() == 4 && scrobble@.len() == 5,
        album matches Some(a) ==> text::pairs(playing@)[4] == ("album"@, a@) && text::pairs(
            scrobble@,
        )[5] == ("album"@, a@),
{
    assert(text::pairs(playing@).len() == playing@.len());
    assert(text::pairs(scrobble@).len() == scrobble@.len());
}

} // verus!

use thmp5::lastfm::{
    LastFmConfig, PendingAuth, ReplyStatus, SessionReply, auth_url, check_reply,
    generate_api_sig, given_config, is_loved, love_params, now_playing_params,
    scrobble_params, session_of, session_params, should_scrobble, signed_params,
    stored_config, stored_session, stored_status, token_of, token_params, track_info_params,
};

fn pairs(v: &[(&str, &str)]) -> Vec<(String, String)> {
    v.iter().map(|(a, b)| (a.to_string(), b.to_string())).collect()
}

#[test]
fn a_signature_is_the_md5_of_the_sorted_parameters() {
    let params = pairs(&[("method", "auth.getToken"), ("api_key", "abc")]);
    // The digest of "api_keyabcmethodauth.getTokensecret".
    let expected = "f86444211049e605f18c05a5964aabfc";
    assert_eq!(generate_api_sig(&params, "secret"), expected);
    let other_order = pairs(&[("api_key", "abc"), ("method", "auth.getToken")]);
    assert_eq!(generate_api_sig(&other_order, "secret"), expected);
    assert_ne!(generate_api_sig(&params, "other"), expected);
}

#[test]
fn requests_carry_key_signature_and_format() {
    let config = LastFmConfig { api_key: "abc".into(), shared_secret: "secret".into() };
    let sent = signed_params(token_params(), &config);
    assert_eq!(
        sent,
        pairs(&[
            ("method", "auth.getToken"),
            ("api_key", "abc"),
            ("api_sig", "f86444211049e605f18c05a5964aabfc"),
            ("format", "json"),
        ])
    );
}

#[test]
fn calls_name_their_method_and_track() {
    assert_eq!(session_params("t"), pairs(&[("method", "auth.getSession"), ("token", "t")]));
    assert_eq!(
        now_playing_params("k", "A", "T", Some("L")),
        pairs(&[
            ("method", "track.updateNowPlaying"),
            ("sk", "k"),
            ("artist", "A"),
            ("track", "T"),
            ("album", "L"),
        ])
    );
    assert_eq!(
        scrobble_params("k", "A", "T", None, 1_700_000_000),
        pairs(&[
            ("method", "track.scrobble"),
            ("sk", "k"),
            ("artist", "A"),
            ("track", "T"),
            ("timestamp", "1700000000"),
        ])
    );
    assert_eq!(track_info_params("k", "A", "T")[0].1, "track.getInfo");
    assert_eq!(love_params("k", "A", "T")[0].1, "track.love");
}

#[test]
fn replies_are_read() {
    assert!(check_reply(&ReplyStatus { error: None, message: None }).is_ok());
    assert!(check_reply(&ReplyStatus { error: Some(0), message: None }).is_ok());
    assert_eq!(
        check_reply(&ReplyStatus { error: Some(9), message: Some("Invalid session".into()) }),
        Err("Last.fm API error (9): Invalid session".to_string())
    );
    assert_eq!(
        check_reply(&ReplyStatus { error: Some(9), message: None }),
        Err("Last.fm API error (9): unknown error".to_string())
    );
    assert_eq!(token_of(Some("t".into())), Ok("t".to_string()));
    assert_eq!(token_of(None), Err("Last.fm did not return a token".to_string()));
    let session = |key: Option<&str>, name: Option<&str>| {
        session_of(Some(SessionReply {
            key: key.map(String::from),
            name: name.map(String::from),
        }))
    };
    assert_eq!(session(Some("k"), Some("n")), Ok(("k".to_string(), "n".to_string())));
    assert_eq!(session(None, Some("n")), Err("Last.fm session missing 'key'".to_string()));
    assert_eq!(session(Some("k"), None), Err("Last.fm session missing 'name'".to_string()));
    assert_eq!(session_of(None), Err("Last.fm did not return a session object".to_string()));
    assert!(is_loved(Some("1")));
    assert!(!is_loved(Some("0")));
    assert!(!is_loved(None));
}

#[test]
fn credentials_are_needed() {
    let c = given_config(" key ", " secret ").unwrap();
    assert_eq!((c.api_key.as_str(), c.shared_secret.as_str()), ("key", "secret"));
    assert!(given_config(" ", "secret").is_err());
    assert!(stored_config(Some("k".into()), None).is_err());
    assert!(stored_config(Some("k".into()), Some("s".into())).is_ok());
    assert_eq!(
        auth_url(&c, "tok"),
        "https://www.last.fm/api/auth/?api_key=key&token=tok"
    );
}

#[test]
fn a_token_is_taken_once() {
    let mut pending = PendingAuth::new();
    assert!(pending.take_token().is_err());
    pending.keep("one");
    pending.keep("two");
    assert_eq!(pending.take_token(), Ok("two".to_string()));
    assert_eq!(
        pending.take_token(),
        Err("No pending auth request. Call lastfm_get_auth_url first.".to_string())
    );
}

#[test]
fn half_a_track_or_four_minutes_count() {
    // Too short a track never counts.
    assert!(!should_scrobble(29_999, 29_999));
    assert!(should_scrobble(30_000, 15_000));
    assert!(!should_scrobble(30_000, 14_999));
    assert!(!should_scrobble(200_000, 99_999));
    assert!(should_scrobble(200_000, 100_000));
    assert!(should_scrobble(3_600_000, 240_000));
    assert!(!should_scrobble(3_600_000, 239_999));
    // Unknown length: half a minute.
    assert!(should_scrobble(0, 30_000));
    assert!(!should_scrobble(0, 29_999));
}

#[test]
fn the_stored_login_is_told() {
    let status = stored_status(Some("k".into()), None, None);
    assert!(status.configured && !status.logged_in && status.username.is_none());
    let status = stored_status(None, Some("s".into()), Some("u".into()));
    assert!(!status.configured && status.logged_in);
    assert_eq!(status.username.as_deref(), Some("u"));
    assert_eq!(stored_session(Some("s".into())), Ok("s".to_string()));
    assert_eq!(
        stored_session(None),
        Err("Not logged in to Last.fm. Connect in Settings.".to_string())
    );
}

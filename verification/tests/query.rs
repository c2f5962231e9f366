use thmp5::query::{compile, parse, LimitUnit};

fn parse_and_compile(q: &str) -> String {
    let parsed = parse(q).unwrap();
    compile(&parsed).0
}

#[test]
fn test_rating_gte() {
    assert_eq!(parse_and_compile("Rating >= 4"), "rating >= 4");
}

#[test]
fn test_rating_null() {
    assert_eq!(parse_and_compile("Rating is null"), "rating IS NULL");
}

#[test]
fn test_album_rating() {
    assert_eq!(parse_and_compile("AlbumRating > 3"), "album_rating > 3");
}

#[test]
fn test_play_count() {
    assert_eq!(parse_and_compile("PlayCount >= 10"), "play_count >= 10");
}

#[test]
fn test_and_or() {
    let q = parse_and_compile("Rating >= 4 AND PlayCount >= 2");
    assert_eq!(q, "(rating >= 4 AND play_count >= 2)");
}

#[test]
fn test_not() {
    let q = parse_and_compile("NOT Rating is null");
    assert_eq!(q, "NOT (rating IS NULL)");
}

#[test]
fn test_has_tag() {
    let q = parse_and_compile("HasTag chill");
    assert_eq!(q, "id IN (SELECT recording_id FROM recording_tag WHERE tag = 'chill')");
}

#[test]
fn test_title_contains() {
    let q = parse_and_compile(r#"Title contains "blue""#);
    assert_eq!(q, "lower(title) LIKE '%blue%' ESCAPE '\\'");
}

#[test]
fn test_last_played_not_in_last() {
    let q = parse_and_compile("LastPlayed NotInLast 8 Months");
    assert_eq!(
        q,
        "(last_played IS NULL OR last_played < datetime('now', '-8 months'))"
    );
}

#[test]
fn test_limit_parses() {
    let parsed = parse("Rating >= 4 LIMIT 60 minutes").unwrap();
    assert!(parsed.limit.is_some());
    let lim = parsed.limit.unwrap();
    assert_eq!(lim.value, 60);
    assert!(matches!(lim.unit, LimitUnit::Minutes));
}

#[test]
fn test_parens() {
    let q = parse_and_compile("(Rating >= 4 OR Rating is null) AND PlayCount >= 1");
    assert_eq!(q, "((rating >= 4 OR rating IS NULL) AND play_count >= 1)");
}

#[test]
fn test_sql_injection_escaped() {
    let q = parse_and_compile("HasTag \"evil'tag\"");
    assert!(q.contains("evil''tag"));
}

#[test]
fn queries_have_a_grammar() {
    assert!(parse("").is_err());
    assert!(parse(" Rating >= 4").is_err());
    assert!(parse("Rating >= 4 AND").is_err());
    assert!(parse("Rating >= 4 LIMIT 5").is_err());
    assert!(parse("rating >= 4").is_err());
    assert!(parse("Rating >= 99999999999999999999").is_err());
    assert!(parse_and_compile("Year != 1999").ends_with("AS INTEGER) != 1999)"));
    assert_eq!(
        parse_and_compile("Rating < 2 OR Rating > 4 AND PlayCount = 0"),
        "(rating < 2 OR (rating > 4 AND play_count = 0))"
    );
    assert_eq!(
        parse_and_compile("Title contains \"50%_\\\""),
        "lower(title) LIKE '%50\\%\\_\\\\%' ESCAPE '\\'"
    );
}

#[test]
fn joints_bind_in_order() {
    let compiled = |q| parse_and_compile(q);
    assert_eq!(
        compiled("Rating > 1 OR Rating > 2 AND Rating > 3"),
        "(rating > 1 OR (rating > 2 AND rating > 3))"
    );
    assert_eq!(
        compiled("Rating > 1 AND Rating > 2 OR Rating > 3"),
        "((rating > 1 AND rating > 2) OR rating > 3)"
    );
    assert_eq!(
        compiled("Rating > 1 AND Rating > 2 AND Rating > 3"),
        "((rating > 1 AND rating > 2) AND rating > 3)"
    );
    assert_eq!(
        compiled("NOT Rating > 1 AND Rating > 2"),
        "(NOT (rating > 1) AND rating > 2)"
    );
    assert_eq!(
        compiled("(Rating > 1 OR Rating > 2) AND Rating > 3"),
        "((rating > 1 OR rating > 2) AND rating > 3)"
    );
    assert_eq!(
        compiled("NOT (Rating > 1 OR Rating > 2)"),
        "NOT ((rating > 1 OR rating > 2))"
    );
}

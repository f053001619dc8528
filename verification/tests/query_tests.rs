use std::str::FromStr;

use libtagfs::db::Token::{
    And, Equals, GreaterThan, LeftParen, LessThan, Not, Or, RightParen, StrictEquals, Tag, Value,
};
use libtagfs::db::{
    lex_query, render_tokens, EscapedTagFormatter, ListFormatter, Query, SanitisedStoredQuery,
    SimpleTagFormatter, StoredQuery, TagValuePair,
};

#[test]
fn lex() {
    assert_eq!(lex_query("hello"), &[Tag(String::from("hello"))]);

    assert_eq!(
        lex_query("hello=world"),
        &[Tag(String::from("hello")), Equals, Value(String::from("world"))]
    );

    assert_eq!(
        lex_query("      (     hello   =world)"),
        &[
            LeftParen,
            Tag(String::from("hello")),
            Equals,
            Value(String::from("world")),
            RightParen
        ]
    );

    assert_eq!(
        lex_query("      (     not nothello   < \\(wor=ld)"),
        &[
            LeftParen,
            Not,
            Tag(String::from("nothello")),
            LessThan,
            Value(String::from("(wor=ld")),
            RightParen
        ]
    );

    assert_eq!(
        lex_query("      (     not nothello   > \"(wor\\\"=ld)\""),
        &[
            LeftParen,
            Not,
            Tag(String::from("nothello")),
            GreaterThan,
            Value(String::from("(wor\"=ld)"))
        ]
    );

    assert_eq!(
        lex_query("      (     not > \"(wor\\\"=ld)\""),
        &[LeftParen, Not, GreaterThan, Value(String::from("(wor\"=ld)"))]
    );
}

#[test]
fn tag_value_parse() {
    let tag = TagValuePair::from_str("hello=world").unwrap();
    assert_eq!(tag.tag, "hello");
    assert_eq!(tag.value.as_deref(), Some("world"));

    let tag = TagValuePair::from_str("hello=").unwrap();
    assert_eq!(tag.tag, "hello");
    assert_eq!(tag.value.as_deref(), Some(""));

    let tag = TagValuePair::from_str("hello").unwrap();
    assert_eq!(tag.tag, "hello");
    assert_eq!(tag.value.as_deref(), None);

    let tag = TagValuePair::from_str("actor=Julie Delpy");
    assert!(tag.is_err());

    let tag = TagValuePair::from_str("actor=Julie\\ Delpy").unwrap();
    assert_eq!(tag.tag, "actor");
    assert_eq!(tag.value.as_deref(), Some("Julie Delpy"));

    let tag = TagValuePair::from_str("hello = world").unwrap();
    assert_eq!(tag.tag, "hello");
    assert_eq!(tag.value.as_deref(), Some("world"));

    let tag = TagValuePair::from_str("  hello=world").unwrap();
    assert_eq!(tag.tag, "hello");
    assert_eq!(tag.value.as_deref(), Some("world"));

    let tag = TagValuePair::from_str("he#$@=world").unwrap();
    assert_eq!(tag.tag, "he#$@");
    assert_eq!(tag.value.as_deref(), Some("world"));
}

#[test]
fn render_then_lex_returns_same_tokens() {
    let tokens = vec![
        LeftParen,
        Tag(String::from("genre")),
        StrictEquals,
        Value(String::from("slice of \"life\" \\ (colon)")),
        Or,
        Not,
        Tag(String::from("favourite")),
        RightParen,
        And,
        Tag(String::from("year")),
        GreaterThan,
        Value(String::from("")),
    ];
    let text = render_tokens(&tokens);
    assert_eq!(lex_query(&text), tokens);
}

#[test]
fn escaped_tag_round_trips_through_parse() {
    let pair = TagValuePair {
        tag: String::from("note"),
        value: Some(String::from("a \"quoted\" value \\ with (parens) and spaces")),
    };
    let printed = EscapedTagFormatter(&pair).render();
    let reparsed = TagValuePair::from_str(&printed).unwrap();
    assert_eq!(reparsed.tag, pair.tag);
    assert_eq!(reparsed.value, pair.value);

    let bare = TagValuePair { tag: String::from("favourite"), value: None };
    let printed = EscapedTagFormatter(&bare).render();
    let reparsed = TagValuePair::from_str(&printed).unwrap();
    assert_eq!(reparsed.tag, bare.tag);
    assert_eq!(reparsed.value, None);
}

#[test]
fn reserved_words_match_any_case() {
    assert_eq!(lex_query("Not AnD oR"), &[Not, And, Or]);
    assert_eq!(
        lex_query("genre==romance OR NOT favourite"),
        &[
            Tag(String::from("genre")),
            StrictEquals,
            Value(String::from("romance")),
            Or,
            Not,
            Tag(String::from("favourite"))
        ]
    );
    // A longer word that merely contains a reserved word stays a tag.
    assert_eq!(lex_query("Nothing"), &[Tag(String::from("Nothing"))]);
}

#[test]
fn malformed_queries_are_rejected() {
    // A value or comparison operator without a preceding tag is refused
    // when the tokens are translated.
    assert!(Query::from_raw("== romance", false).is_err());
    assert!(Query::from_raw("=contains", false).is_err());
    assert!(Query::from_raw("< 10", false).is_err());
    assert!(Query::from_raw("genre==romance or favourite", false).is_ok());
}


#[test]
fn simple_formatter_prints_value_verbatim() {
    let pair = TagValuePair {
        tag: String::from("note"),
        value: Some(String::from("spaces stay / as they are")),
    };
    assert_eq!(SimpleTagFormatter(&pair).render(), "note=spaces stay / as they are");

    let bare = TagValuePair { tag: String::from("favourite"), value: None };
    assert_eq!(SimpleTagFormatter(&bare).render(), "favourite");
}

#[test]
fn list_formatter_quotes_items() {
    let items = vec![String::from("cool-tag"), String::from("other")];
    assert_eq!(ListFormatter(&items).render(), "\"cool-tag\", \"other\"");
    let empty: Vec<String> = Vec::new();
    assert_eq!(ListFormatter(&empty).render(), "");
}

#[test]
fn sanitised_stored_query_hides_slashes() {
    let stored = StoredQuery::new(String::from("films"), String::from("path=/media/film"));
    let sanitised = SanitisedStoredQuery(&stored);
    assert_eq!(sanitised.name(), "films");
    assert_eq!(sanitised.query(), "path=/media/film");
    assert_eq!(sanitised.render(), "films @ [path=_media_film]");
    assert_eq!(stored.render(), "films @ [path=/media/film]");
}

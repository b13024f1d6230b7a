//! Classification of link elements by their attributes, and the fatal
//! error cases of the parser.

use rssbot::feed::FeedError;
use rssbot::parser::{parse_atom_link, AtomLink};
use rssbot::tokens::{Attr, Tag, XmlToken};
use rssbot::xml::{parse, tokenize};

fn classify(snippet: &str) -> Option<AtomLink> {
    let tokens = tokenize(snippet.as_bytes());
    match &tokens[0] {
        XmlToken::SelfClose(tag) => parse_atom_link(tag).unwrap(),
        other => panic!("expected a self-closing tag, got {:?}", other),
    }
}

#[test]
fn atom_link_parsing() {
    let data = vec![
        r#"<link href="alternate href" />"#,
        r#"<link href="alternate href" rel="alternate" />"#,
        r#"<link href="self href" rel="self" />"#,
        r#"<link href="hub href" rel="hub" />"#,
        r#"<link href="other href" rel="other" />"#,
        r#"<link />"#,
    ];
    let results = vec![
        Some(AtomLink::Alternate("alternate href".into())),
        Some(AtomLink::Alternate("alternate href".into())),
        Some(AtomLink::Source("self href".into())),
        Some(AtomLink::Hub("hub href".into())),
        Some(AtomLink::Other("other href".into(), "other".into())),
        None,
    ];
    for (data, result) in data.iter().zip(results) {
        assert_eq!(classify(data), result);
    }
}

#[test]
fn atom_link_last_occurrence_wins() {
    // On a hand-built attribute set the last href and the last rel win.
    let tag = Tag {
        local: "link".into(),
        full: "link".into(),
        attrs: Ok(vec![
            Attr { key: "href".into(), value: Ok("first".into()) },
            Attr { key: "rel".into(), value: Ok("self".into()) },
            Attr { key: "href".into(), value: Ok("second".into()) },
            Attr { key: "rel".into(), value: Ok("alternate".into()) },
        ]),
    };
    assert_eq!(
        parse_atom_link(&tag).unwrap(),
        Some(AtomLink::Alternate("second".into()))
    );
    // Through the tokenizer a duplicated attribute is a lexical error.
    let tokens = tokenize(br#"<link href="a" href="b" />"#);
    match &tokens[0] {
        XmlToken::SelfClose(t) => assert!(parse_atom_link(t).is_err()),
        other => panic!("expected a self-closing tag, got {:?}", other),
    }
    // Attribute order does not matter.
    assert_eq!(
        classify(r#"<link rel="self" type="text/html" href="h" />"#),
        Some(AtomLink::Source("h".into()))
    );
}

#[test]
fn atom_link_escaped_href() {
    assert_eq!(
        classify(r#"<link href="http://example.com/?a=1&amp;b=2" rel="self" />"#),
        Some(AtomLink::Source("http://example.com/?a=1&b=2".into()))
    );
}

#[test]
fn empty_input() {
    let r = parse(&[]).unwrap_err();
    assert!(matches!(r, FeedError::UnexpectedEof(s) if s == "feed"));
}

#[test]
fn no_root_after_skipped_elements() {
    // A document holding only unrecognized elements still has no feed root.
    let r = parse(b"<?xml version=\"1.0\"?><x><y/></x>").unwrap_err();
    assert!(matches!(r, FeedError::UnexpectedEof(s) if s == "feed"));
}

#[test]
fn lexical_error_is_fatal() {
    // A mismatched end tag inside the channel is a tokenizer error and
    // aborts the parse.
    let r = parse(b"<rss><channel><title>T</wrong></channel></rss>").unwrap_err();
    assert!(matches!(r, FeedError::Lex(_)));
}

#[test]
fn bad_entity_in_consumed_text_is_fatal() {
    let r = parse(b"<rss><channel><title>bad &nosuch; entity</title></channel></rss>");
    assert!(matches!(r.unwrap_err(), FeedError::Lex(_)));
}

#[test]
fn bad_entity_in_skipped_element_is_tolerated() {
    // The same broken entity inside an element the parser discards never
    // gets decoded, so the parse succeeds.
    let r = parse(
        b"<rss><channel><description>bad &nosuch; entity</description>\
          <title>T</title></channel></rss>",
    )
    .unwrap();
    assert_eq!(r.title, "T".to_string());
}

#[test]
fn open_close_link_prefers_text_content() {
    // An open/close link with both text content and an href keeps the
    // text (the RSS form wins over the Atom attribute form) ...
    let s = br#"<rss><channel><link href="http://example.com/attr">http://example.com/text</link></channel></rss>"#;
    let r = parse(s).unwrap();
    assert_eq!(r.link, "http://example.com/text".to_string());

    // ... and one with no text falls back to its attributes.
    let s2 = br#"<feed><title>t</title><link rel="self" href="http://example.com/self"></link><link href="http://example.com/alt"></link></feed>"#;
    let r2 = parse(s2).unwrap();
    assert_eq!(r2.source, Some("http://example.com/self".to_string()));
    assert_eq!(r2.link, "http://example.com/alt".to_string());
}

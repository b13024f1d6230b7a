//! One canonical sample per supported dialect, parsed end to end.

use rssbot::feed::{Item, RSS};
use rssbot::xml::parse;

#[test]
fn atom03() {
    let s = r#"<?xml version="1.0" encoding="utf-8"?>
<feed version="0.3" xmlns="http://purl.org/atom/ns#">
  <title>atom_0.3.feed.title</title>
  <link rel="alternate" type="text/html" href="atom_0.3.feed.link^href"/>
  <modified>2003-12-13T18:30:02Z</modified>
  <entry>
    <title>atom_0.3.feed.entry[0].title</title>
    <link rel="alternate" type="text/html" href="atom_0.3.feed.entry[0].link^href"/>
    <id>atom_0.3.feed.entry[0]^id</id>
    <summary>Some text.</summary>
  </entry>
  <entry>
    <title>atom_0.3.feed.entry[1].title</title>
    <link rel="alternate" type="text/html" href="atom_0.3.feed.entry[1].link^href"/>
    <id>atom_0.3.feed.entry[1]^id</id>
  </entry>
</feed>"#;
    let r = parse(s.as_bytes()).unwrap();
    assert_eq!(
        r,
        RSS {
            title: "atom_0.3.feed.title".into(),
            link: "atom_0.3.feed.link^href".into(),
            source: None,
            items: vec![
                Item {
                    title: Some("atom_0.3.feed.entry[0].title".into()),
                    link: Some("atom_0.3.feed.entry[0].link^href".into()),
                    id: Some("atom_0.3.feed.entry[0]^id".into()),
                },
                Item {
                    title: Some("atom_0.3.feed.entry[1].title".into()),
                    link: Some("atom_0.3.feed.entry[1].link^href".into()),
                    id: Some("atom_0.3.feed.entry[1]^id".into()),
                },
            ],
        }
    );
}

#[test]
fn atom10() {
    let s = r#"<?xml version="1.0" encoding="utf-8"?>
<feed xmlns="http://www.w3.org/2005/Atom">
  <title>atom_1.0.feed.title</title>
  <link rel="alternate" href="http://example.com/blog"/>
  <link href="http://example.com/blog_plain"/>
  <link rel="self" href="http://example.com/blog/atom_1.0.xml"/>
  <updated>2003-12-13T18:30:02Z</updated>
  <entry>
    <title>atom_1.0.feed.entry[0].title</title>
    <link rel="alternate" href="http://example.com/blog/entry1"/>
    <link href="http://example.com/blog/entry1_plain"/>
    <id>atom_1.0.feed.entry[0]^id</id>
  </entry>
  <entry>
    <title>atom_1.0.feed.entry[1].title</title>
    <link href="http://example.com/blog/entry2"/>
    <id>atom_1.0.feed.entry[1]^id</id>
  </entry>
</feed>"#;
    let r = parse(s.as_bytes()).unwrap();
    assert_eq!(
        r,
        RSS {
            title: "atom_1.0.feed.title".into(),
            link: "http://example.com/blog_plain".into(),
            source: Some("http://example.com/blog/atom_1.0.xml".into()),
            items: vec![
                Item {
                    title: Some("atom_1.0.feed.entry[0].title".into()),
                    link: Some("http://example.com/blog/entry1_plain".into()),
                    id: Some("atom_1.0.feed.entry[0]^id".into()),
                },
                Item {
                    title: Some("atom_1.0.feed.entry[1].title".into()),
                    link: Some("http://example.com/blog/entry2".into()),
                    id: Some("atom_1.0.feed.entry[1]^id".into()),
                },
            ],
        }
    );
}

#[test]
fn rss09() {
    let s = r#"<?xml version="1.0"?>
<rdf:RDF xmlns:rdf="http://www.w3.org/1999/02/22-rdf-syntax-ns#"
         xmlns="http://my.netscape.com/rdf/simple/0.9/">
  <channel>
    <title>rss_0.9.channel.title</title>
    <link>rss_0.9.channel.link</link>
    <description>A channel.</description>
  </channel>
  <item>
    <title>rss_0.9.item[0].title</title>
    <link>rss_0.9.item[0].link</link>
  </item>
  <item>
    <title>rss_0.9.item[1].title</title>
    <link>rss_0.9.item[1].link</link>
  </item>
</rdf:RDF>"#;
    let r = parse(s.as_bytes()).unwrap();
    assert_eq!(
        r,
        RSS {
            title: "rss_0.9.channel.title".into(),
            link: "rss_0.9.channel.link".into(),
            source: None,
            items: vec![
                Item {
                    title: Some("rss_0.9.item[0].title".into()),
                    link: Some("rss_0.9.item[0].link".into()),
                    id: None,
                },
                Item {
                    title: Some("rss_0.9.item[1].title".into()),
                    link: Some("rss_0.9.item[1].link".into()),
                    id: None,
                },
            ],
        }
    );
}

#[test]
fn rss091() {
    let s = r#"<?xml version="1.0" encoding="UTF-8"?>
<rss version="0.91">
  <channel>
    <title>rss_0.91.channel.title</title>
    <link>rss_0.91.channel.link</link>
    <description>A channel.</description>
    <item>
      <title>rss_0.91.channel.item[0].title</title>
      <link>rss_0.91.channel.item[0].link</link>
      <description>First story.</description>
    </item>
    <item>
      <title>rss_0.91.channel.item[1].title</title>
      <link>rss_0.91.channel.item[1].link</link>
    </item>
  </channel>
</rss>"#;
    let r = parse(s.as_bytes()).unwrap();
    assert_eq!(
        r,
        RSS {
            title: "rss_0.91.channel.title".into(),
            link: "rss_0.91.channel.link".into(),
            source: None,
            items: vec![
                Item {
                    title: Some("rss_0.91.channel.item[0].title".into()),
                    link: Some("rss_0.91.channel.item[0].link".into()),
                    id: None,
                },
                Item {
                    title: Some("rss_0.91.channel.item[1].title".into()),
                    link: Some("rss_0.91.channel.item[1].link".into()),
                    id: None,
                },
            ],
        }
    );
}

#[test]
fn rss092() {
    let s = r#"<?xml version="1.0"?>
<rss version="0.92">
  <channel>
    <title>rss_0.92.channel.title</title>
    <link>rss_0.92.channel.link</link>
    <item>
      <title>rss_0.92.channel.item[0].title</title>
      <link>rss_0.92.channel.item[0].link</link>
    </item>
    <item>
      <title>rss_0.92.channel.item[1].title</title>
      <link>rss_0.92.channel.item[1].link</link>
    </item>
  </channel>
</rss>"#;
    let r = parse(s.as_bytes()).unwrap();
    assert_eq!(
        r,
        RSS {
            title: "rss_0.92.channel.title".into(),
            link: "rss_0.92.channel.link".into(),
            source: None,
            items: vec![
                Item {
                    title: Some("rss_0.92.channel.item[0].title".into()),
                    link: Some("rss_0.92.channel.item[0].link".into()),
                    id: None,
                },
                Item {
                    title: Some("rss_0.92.channel.item[1].title".into()),
                    link: Some("rss_0.92.channel.item[1].link".into()),
                    id: None,
                },
            ],
        }
    );
}

#[test]
fn rss093() {
    let s = r#"<?xml version="1.0"?>
<rss version="0.93">
  <channel>
    <title>rss_0.93.channel.title</title>
    <link>rss_0.93.channel.link</link>
    <item>
      <title>rss_0.93.channel.item[0].title</title>
      <link>rss_0.93.channel.item[0].link</link>
    </item>
    <item>
      <title>rss_0.93.channel.item[1].title</title>
      <link>rss_0.93.channel.item[1].link</link>
    </item>
  </channel>
</rss>"#;
    let r = parse(s.as_bytes()).unwrap();
    assert_eq!(
        r,
        RSS {
            title: "rss_0.93.channel.title".into(),
            link: "rss_0.93.channel.link".into(),
            source: None,
            items: vec![
                Item {
                    title: Some("rss_0.93.channel.item[0].title".into()),
                    link: Some("rss_0.93.channel.item[0].link".into()),
                    id: None,
                },
                Item {
                    title: Some("rss_0.93.channel.item[1].title".into()),
                    link: Some("rss_0.93.channel.item[1].link".into()),
                    id: None,
                },
            ],
        }
    );
}

#[test]
fn rss094() {
    let s = r#"<?xml version="1.0"?>
<rss version="0.94">
  <channel>
    <title>rss_0.94.channel.title</title>
    <link>rss_0.94.channel.link</link>
    <item>
      <title>rss_0.94.channel.item[0].title</title>
      <link>rss_0.94.channel.item[0].link</link>
      <guid>rss_0.94.channel.item[0].guid</guid>
    </item>
    <item>
      <title>rss_0.94.channel.item[1].title</title>
      <link>rss_0.94.channel.item[1].link</link>
      <guid>rss_0.94.channel.item[1].guid</guid>
    </item>
  </channel>
</rss>"#;
    let r = parse(s.as_bytes()).unwrap();
    assert_eq!(
        r,
        RSS {
            title: "rss_0.94.channel.title".into(),
            link: "rss_0.94.channel.link".into(),
            source: None,
            items: vec![
                Item {
                    title: Some("rss_0.94.channel.item[0].title".into()),
                    link: Some("rss_0.94.channel.item[0].link".into()),
                    id: Some("rss_0.94.channel.item[0].guid".into()),
                },
                Item {
                    title: Some("rss_0.94.channel.item[1].title".into()),
                    link: Some("rss_0.94.channel.item[1].link".into()),
                    id: Some("rss_0.94.channel.item[1].guid".into()),
                },
            ],
        }
    );
}

#[test]
fn rss10() {
    let s = r#"<?xml version="1.0" encoding="utf-8"?>
<rdf:RDF xmlns:rdf="http://www.w3.org/1999/02/22-rdf-syntax-ns#"
         xmlns="http://purl.org/rss/1.0/">
  <channel rdf:about="http://example.com/rss">
    <title>rss_1.0.channel.title</title>
    <link>rss_1.0.channel.link</link>
    <description>A channel.</description>
  </channel>
  <item rdf:about="http://example.com/item0">
    <title>rss_1.0.item[0].title</title>
    <link>rss_1.0.item[0].link</link>
  </item>
  <item rdf:about="http://example.com/item1">
    <title>rss_1.0.item[1].title</title>
    <link>rss_1.0.item[1].link</link>
  </item>
</rdf:RDF>"#;
    let r = parse(s.as_bytes()).unwrap();
    assert_eq!(
        r,
        RSS {
            title: "rss_1.0.channel.title".into(),
            link: "rss_1.0.channel.link".into(),
            source: None,
            items: vec![
                Item {
                    title: Some("rss_1.0.item[0].title".into()),
                    link: Some("rss_1.0.item[0].link".into()),
                    id: None,
                },
                Item {
                    title: Some("rss_1.0.item[1].title".into()),
                    link: Some("rss_1.0.item[1].link".into()),
                    id: None,
                },
            ],
        }
    );
}

#[test]
fn rss20() {
    let s = r#"<?xml version="1.0" encoding="UTF-8"?>
<rss version="2.0">
  <channel>
    <title>rss_2.0.channel.title</title>
    <link>rss_2.0.channel.link</link>
    <description>A channel.</description>
    <item>
      <title>rss_2.0.channel.item[0].title</title>
      <link>rss_2.0.channel.item[0].link</link>
      <guid isPermaLink="false">rss_2.0.channel.item[0].guid</guid>
    </item>
    <item>
      <title>rss_2.0.channel.item[1].title</title>
      <link>rss_2.0.channel.item[1].link</link>
      <guid isPermaLink="false">rss_2.0.channel.item[1].guid</guid>
    </item>
  </channel>
</rss>"#;
    let r = parse(s.as_bytes()).unwrap();
    assert_eq!(
        r,
        RSS {
            title: "rss_2.0.channel.title".into(),
            link: "rss_2.0.channel.link".into(),
            source: None,
            items: vec![
                Item {
                    title: Some("rss_2.0.channel.item[0].title".into()),
                    link: Some("rss_2.0.channel.item[0].link".into()),
                    id: Some("rss_2.0.channel.item[0].guid".into()),
                },
                Item {
                    title: Some("rss_2.0.channel.item[1].title".into()),
                    link: Some("rss_2.0.channel.item[1].link".into()),
                    id: Some("rss_2.0.channel.item[1].guid".into()),
                },
            ],
        }
    );
}

#[test]
fn rss_with_atom_ns() {
    let s = r#"<?xml version="1.0" encoding="UTF-8"?>
<rss version="2.0" xmlns:atom="http://www.w3.org/2005/Atom">
<channel>
<atom:link href="self link" rel="self" />
</channel>
</rss>"#;
    let r = parse(s.as_bytes()).unwrap();
    assert_eq!(r.source, Some("self link".into()));
}

#[test]
fn unknown_sibling_before_root_is_skipped() {
    let s = r#"<?xml version="1.0"?>
<stray><deep><deeper>noise</deeper></deep></stray>
<rss version="2.0">
  <channel>
    <title>after the stray</title>
    <link>http://example.com/t</link>
  </channel>
</rss>"#;
    let r = parse(s.as_bytes()).unwrap();
    assert_eq!(r.title, "after the stray".to_string());
    assert_eq!(r.link, "http://example.com/t".to_string());
    assert_eq!(r.items, vec![]);
}

#[test]
fn cdata_and_truncation_tolerated() {
    // CDATA is scalar content like text, and a truncated unknown subtree
    // at the end of the document is recovered silently.
    let s = "<rss><channel><title><![CDATA[T & raw <stuff>]]></title>\
             <link>http://example.com/x</link><extension><a><b>";
    let r = parse(s.as_bytes()).unwrap();
    assert_eq!(r.title, "T & raw <stuff>".to_string());
    assert_eq!(r.link, "http://example.com/x".to_string());
}

#[test]
fn last_text_chunk_wins() {
    // Child markup inside a scalar element is discarded, and the last
    // text chunk observed directly in the element wins.
    let s = br#"<rss><channel><title>first<b>x</b>second</title><link>http://example.com</link></channel></rss>"#;
    let r = parse(s).unwrap();
    assert_eq!(r.title, "second".to_string());
    assert_eq!(r.link, "http://example.com".to_string());
}

#[test]
fn textless_title_overwrites_at_item_scope_only() {
    // A title with no text leaves the channel's title alone, but at item
    // scope the extraction result is assigned as it is, clearing it.
    let s = br#"<rss><channel><title>kept</title><title><b>x</b></title>
<item><title>gone</title><title><b>x</b></title></item></channel></rss>"#;
    let r = parse(s).unwrap();
    assert_eq!(r.title, "kept".to_string());
    assert_eq!(r.items[0].title, None);
}

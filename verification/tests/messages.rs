//! Splitting formatted lines into messages under the length cap, and
//! escaping text for markup-sensitive targets.

use rssbot::msg::{format_and_split_msgs, Escape, TELEGRAM_MAX_MSG_LEN};

#[test]
fn no_lines_yields_head_alone() {
    let r = format_and_split_msgs("head".to_string(), &vec![]);
    assert_eq!(r, vec!["head".to_string()]);
}

#[test]
fn short_lines_join_one_message() {
    let lines = vec!["one".to_string(), "two".to_string(), "three".to_string()];
    let r = format_and_split_msgs("head".to_string(), &lines);
    assert_eq!(r, vec!["head\none\ntwo\nthree".to_string()]);
}

#[test]
fn long_line_starts_new_message() {
    let long = "x".repeat(TELEGRAM_MAX_MSG_LEN);
    let lines = vec!["short".to_string(), long.clone(), "tail".to_string()];
    let r = format_and_split_msgs("head".to_string(), &lines);
    assert_eq!(r, vec!["head\nshort".to_string(), long, "tail".to_string()]);
}

#[test]
fn cap_is_not_exceeded_by_exact_fit() {
    // A line that brings the byte total exactly to the cap still joins.
    let head = "h".repeat(1000);
    let line = "y".repeat(TELEGRAM_MAX_MSG_LEN - 1000);
    let r = format_and_split_msgs(head.clone(), &vec![line.clone()]);
    assert_eq!(r, vec![format!("{}\n{}", head, line)]);

    // One byte more and the line starts a new message.
    let line2 = "y".repeat(TELEGRAM_MAX_MSG_LEN - 999);
    let r2 = format_and_split_msgs(head.clone(), &vec![line2.clone()]);
    assert_eq!(r2, vec![head, line2]);
}

#[test]
fn byte_length_counts_multibyte_characters() {
    // 1366 three-byte characters are 4098 bytes: over the cap on their
    // own, so the line starts a new message after the head.
    let line = "\u{4e9c}".repeat(1366);
    let r = format_and_split_msgs("h".to_string(), &vec![line.clone()]);
    assert_eq!(r, vec!["h".to_string(), line]);
}

#[test]
fn escape_replaces_markup_characters() {
    assert_eq!(Escape("<a href=\"x\">&</a>").to_html(), "&lt;a href=&quot;x&quot;&gt;&amp;&lt;/a&gt;".to_string());
    assert_eq!(Escape("plain text").to_html(), "plain text".to_string());
    assert_eq!(Escape("").to_html(), "".to_string());
    assert_eq!(Escape("a&b&c").to_html(), "a&amp;b&amp;c".to_string());
}

#[test]
fn escape_keeps_multibyte_text() {
    assert_eq!(Escape("漢字 <ok>").to_html(), "漢字 &lt;ok&gt;".to_string());
}

#[test]
fn subscription_listing_round_trip() {
    // A listing as the surrounding application renders it: one escaped
    // HTML line per feed, split under the cap.
    let feeds = vec![("Feed <1>", "http://example.com/a?x=1&y=2"), ("Feed 2", "http://example.com/b")];
    let lines: Vec<String> = feeds
        .iter()
        .map(|(title, link)| {
            format!("<a href=\"{}\">{}</a>", Escape(link).to_html(), Escape(title).to_html())
        })
        .collect();
    let r = format_and_split_msgs("subscriptions:".to_string(), &lines);
    assert_eq!(
        r,
        vec![
            "subscriptions:\n<a href=\"http://example.com/a?x=1&amp;y=2\">Feed &lt;1&gt;</a>\n<a href=\"http://example.com/b\">Feed 2</a>"
                .to_string()
        ]
    );
}

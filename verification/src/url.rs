//! The URL normalizer: after a feed is built, links discovered in it are
//! rewritten against the host prefix of the URL the document was fetched
//! from. Only protocol-relative (`//…`) and root-relative (`/…`) forms
//! are rewritten; any other relative form, and every fully qualified URL,
//! passes through unchanged.

use vstd::prelude::*;
use vstd::string::{StrSliceExecFns, StringExecFns};

use crate::feed::{FeedModel, Item, ItemModel, RSS};

verus! {

/// Whether the URL starts with the `http://` scheme.
pub open spec fn starts_http(url: Seq<char>) -> bool {
    url.len() >= 7 && url[0] == 'h' && url[1] == 't' && url[2] == 't' && url[3] == 'p' && url[4]
        == ':' && url[5] == '/' && url[6] == '/'
}

/// Whether the URL starts with the `https://` scheme.
pub open spec fn starts_https(url: Seq<char>) -> bool {
    url.len() >= 8 && url[0] == 'h' && url[1] == 't' && url[2] == 't' && url[3] == 'p' && url[4]
        == 's' && url[5] == ':' && url[6] == '/' && url[7] == '/'
}

/// The first position at or after `k` that holds a `/`, or the end of the
/// URL when none does.
pub open spec fn spec_host_end(url: Seq<char>, k: int) -> int
    decreases url.len() - k,
{
    if k < 0 || k >= url.len() {
        url.len() as int
    } else if url[k] == '/' {
        k
    } else {
        spec_host_end(url, k + 1)
    }
}

pub proof fn lemma_host_end_bounds(url: Seq<char>, k: int)
    requires
        0 <= k <= url.len(),
    ensures
        k <= spec_host_end(url, k) <= url.len(),
    decreases url.len() - k,
{
    if k < url.len() && url[k] != '/' {
        lemma_host_end_bounds(url, k + 1);
    }
}

/// The host prefix of a fetch URL: the scheme, `//`, and everything up to
/// (but not including) the next `/`. A URL that does not begin with
/// `http://` or `https://` followed by at least one non-`/` character has
/// no host prefix, and the URL itself stands in for the host — which then
/// matches no relative-link prefix, so rewriting changes nothing.
pub open spec fn spec_host(url: Seq<char>) -> Seq<char> {
    let s: int = if starts_https(url) {
        8
    } else if starts_http(url) {
        7
    } else {
        0
    };
    if s == 0 {
        url
    } else if s < url.len() && url[s] != '/' {
        url.take(spec_host_end(url, s + 1))
    } else {
        url
    }
}

/// One link rewritten against a host prefix: a protocol-relative link
/// (`//…`) is prefixed with `http:`, a root-relative link (`/…`) with the
/// host; anything else is unchanged.
pub open spec fn spec_url_rewrite(link: Seq<char>, host: Seq<char>) -> Seq<char> {
    if link.len() >= 2 && link[0] == '/' && link[1] == '/' {
        "http:"@ + link
    } else if link.len() >= 1 && link[0] == '/' {
        host + link
    } else {
        link
    }
}

/// A whole feed with its links normalized against the fetch URL's host:
/// an empty or bare-`/` feed link becomes the host itself, every other
/// feed link and every item link is rewritten per `spec_url_rewrite`, and
/// titles, the source and item order are untouched.
pub open spec fn spec_fix_feed(feed: FeedModel, url: Seq<char>) -> FeedModel {
    let host = spec_host(url);
    FeedModel {
        link: if feed.link.len() == 0 || (feed.link.len() == 1 && feed.link[0] == '/') {
            host
        } else {
            spec_url_rewrite(feed.link, host)
        },
        items: feed.items.map_values(
            |it: ItemModel| ItemModel {
                link: match it.link {
                    None => None,
                    Some(l) => Some(spec_url_rewrite(l, host)),
                },
                ..it
            },
        ),
        ..feed
    }
}

/// Rewrite one link in place against a host prefix: `//…` gains `http:`,
/// `/…` gains the host, anything else is left as it is.
pub fn url_relative_to_absolute(link: &mut String, host: &str)
    ensures
        final(link)@ == spec_url_rewrite(old(link)@, host@),
{
    let n = link.as_str().unicode_len();
    if n >= 2 && link.as_str().get_char(0) == '/' && link.as_str().get_char(1) == '/' {
        let mut s = String::from_str("http:");
        s.append(link.as_str());
        *link = s;
    } else if n >= 1 && link.as_str().get_char(0) == '/' {
        let mut s = String::from_str(host);
        s.append(link.as_str());
        *link = s;
    }
}

/// The host prefix of a fetch URL, as `spec_host` defines it.
fn host_prefix(url: &str) -> (r: String)
    ensures
        r@ == spec_host(url@),
{
    let n = url.unicode_len();
    let scheme: usize = if n >= 8 && url.get_char(0) == 'h' && url.get_char(1) == 't'
        && url.get_char(2) == 't' && url.get_char(3) == 'p' && url.get_char(4) == 's'
        && url.get_char(5) == ':' && url.get_char(6) == '/' && url.get_char(7) == '/' {
        8
    } else if n >= 7 && url.get_char(0) == 'h' && url.get_char(1) == 't' && url.get_char(2) == 't'
        && url.get_char(3) == 'p' && url.get_char(4) == ':' && url.get_char(5) == '/'
        && url.get_char(6) == '/' {
        7
    } else {
        0
    };
    if scheme == 0 {
        return url.to_owned();
    }
    if scheme < n && url.get_char(scheme) != '/' {
        let mut k = scheme + 1;
        while k < n && url.get_char(k) != '/'
            invariant
                scheme + 1 <= k <= n,
                n == url@.len(),
                spec_host_end(url@, scheme + 1 as int) == spec_host_end(url@, k as int),
            decreases url@.len() - k,
        {
            k = k + 1;
        }
        proof {
            lemma_host_end_bounds(url@, k as int);
        }
        let host = url.substring_char(0, k);
        host.to_owned()
    } else {
        url.to_owned()
    }
}

/// Normalize a built feed's links against the literal URL it was fetched
/// from, per `spec_fix_feed`. Always safe to call: it never fails.
pub fn fix_relative_url(rss: RSS, rss_link: &str) -> (r: RSS)
    ensures
        r@ == spec_fix_feed(rss@, rss_link@),
{
    let ghost pre = rss@;
    let host = host_prefix(rss_link);
    let RSS { title, mut link, source, items: mut rest } = rss;
    if link.as_str().is_empty() || (link.as_str().unicode_len() == 1 && link.as_str().get_char(0)
        == '/') {
        link = host.clone();
    } else {
        url_relative_to_absolute(&mut link, host.as_str());
    }
    let mut items: Vec<Item> = Vec::new();
    proof {
        assert(rest@.map_values(|it: Item| it@) =~= pre.items);
    }
    while rest.len() > 0
        invariant
            host@ == spec_host(rss_link@),
            items@.map_values(|it: Item| it@) + rest@.map_values(|it: Item| it@).map_values(
                |m: ItemModel| ItemModel {
                    link: match m.link {
                        None => None,
                        Some(l) => Some(spec_url_rewrite(l, host@)),
                    },
                    ..m
                },
            ) =~= pre.items.map_values(
                |m: ItemModel| ItemModel {
                    link: match m.link {
                        None => None,
                        Some(l) => Some(spec_url_rewrite(l, host@)),
                    },
                    ..m
                },
            ),
        decreases rest@.len(),
    {
        let ghost rest_pre = rest@;
        let ghost items_pre = items@;
        let it = rest.remove(0);
        let Item { title: ititle, link: ilink, id: iid } = it;
        let newlink = match ilink {
            Some(l) => {
                let mut l2 = l;
                url_relative_to_absolute(&mut l2, host.as_str());
                Some(l2)
            },
            None => None,
        };
        items.push(Item { title: ititle, link: newlink, id: iid });
        proof {
            assert(items@.map_values(|it2: Item| it2@) =~= items_pre.map_values(
                |it2: Item| it2@,
            ).push(items@.last()@));
            assert(rest_pre.map_values(|it2: Item| it2@).drop_first() =~= rest@.map_values(
                |it2: Item| it2@,
            ));
        }
    }
    let r = RSS { title, link, source, items };
    proof {
        assert(rest@.map_values(|it: Item| it@) =~= Seq::<ItemModel>::empty());
        assert(r@.items =~= spec_fix_feed(pre, rss_link@).items);
        assert(r@ =~= spec_fix_feed(pre, rss_link@));
    }
    r
}

} // verus!

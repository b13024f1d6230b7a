//! The feed parser: a single forward pass over the token sequence.
//!
//! Each executable function is specified against a recursive spec function
//! over the token models, so a caller knows the exact feed a given token
//! sequence yields. The spec functions mirror the grammar: a root scanner
//! that finds the feed's real root among several acceptable spellings, a
//! channel parser that walks the root's children (special-casing the
//! RDF shape whose `channel` head is a sibling of the items), an item
//! parser, a scalar-text extractor, a subtree skipper, and an attribute
//! classifier for Atom-style links.

use vstd::prelude::*;
use vstd::string::StringExecFns;

use crate::feed::{empty_feed, empty_item, opt_str_view, FeedError, FeedErrorModel, FeedModel,
    Item, ItemModel, RSS};
use crate::tokens::{toks, Attr, AttrModel, Tag, TagModel, TokenModel, XmlToken};

verus! {

/// Classification of one Atom-style link element by its `rel` attribute:
/// the channel/item's alternate (default) link, the feed's own canonical
/// URL (`rel="self"`), a hub, or anything else with the relation text
/// preserved.
#[derive(Debug, PartialEq, Eq)]
pub enum AtomLink {
    Alternate(String),
    Source(String),
    Hub(String),
    Other(String, String),
}

/// Model of a link classification.
pub enum LinkModel {
    Alternate(Seq<char>),
    Source(Seq<char>),
    Hub(Seq<char>),
    Other(Seq<char>, Seq<char>),
}

impl View for AtomLink {
    type V = LinkModel;

    open spec fn view(&self) -> LinkModel {
        match self {
            AtomLink::Alternate(h) => LinkModel::Alternate(h@),
            AtomLink::Source(h) => LinkModel::Source(h@),
            AtomLink::Hub(h) => LinkModel::Hub(h@),
            AtomLink::Other(h, r) => LinkModel::Other(h@, r@),
        }
    }
}

pub open spec fn opt_link_view(o: Option<AtomLink>) -> Option<LinkModel> {
    match o {
        Some(l) => Some(l@),
        None => None,
    }
}

/// Outcome of classifying a link element's attributes: a classification
/// (or none, when no `href` is present), or a fatal lexical failure.
pub enum LinkOut {
    Done(Option<LinkModel>),
    Fail(Seq<char>),
}

/// Outcome of skipping a subtree: the position just past it, or a fatal
/// lexical failure.
pub enum SkipOut {
    Done(int),
    Fail(Seq<char>),
}

/// Outcome of extracting scalar text: the content found (if any) and the
/// position just past the element, or a fatal lexical failure.
pub enum TextOut {
    Done(Option<Seq<char>>, int),
    Fail(Seq<char>),
}

/// Outcome of parsing one item/entry element.
pub enum ItemOut {
    Done(ItemModel, int),
    Fail(Seq<char>),
}

/// Outcome of parsing the children of a feed root.
pub enum ChannelOut {
    Done(FeedModel, int),
    Fail(Seq<char>),
}

/// What one link element's attributes classify to, scanning left to
/// right: the last `href` and the last `rel` win; no `href` at all means
/// no classification; a `rel` of `alternate`, or no `rel`, is the
/// alternate link; `self` is the feed's own URL; `hub` a hub; anything
/// else keeps its relation text. An attribute whose value could not be
/// decoded fails the classification.
pub open spec fn spec_classify(href: Seq<char>, rel: Option<Seq<char>>) -> LinkModel {
    match rel {
        None => LinkModel::Alternate(href),
        Some(r) => if r == "alternate"@ {
            LinkModel::Alternate(href)
        } else if r == "self"@ {
            LinkModel::Source(href)
        } else if r == "hub"@ {
            LinkModel::Hub(href)
        } else {
            LinkModel::Other(href, r)
        },
    }
}

pub open spec fn spec_atom_link_scan(
    attrs: Seq<AttrModel>,
    i: int,
    href: Option<Seq<char>>,
    rel: Option<Seq<char>>,
) -> LinkOut
    decreases attrs.len() - i,
{
    if i < 0 || i >= attrs.len() {
        match href {
            None => LinkOut::Done(None),
            Some(h) => LinkOut::Done(Some(spec_classify(h, rel))),
        }
    } else {
        let a = attrs[i];
        if a.key == "href"@ {
            match a.value {
                Err(m) => LinkOut::Fail(m),
                Ok(v) => spec_atom_link_scan(attrs, i + 1, Some(v), rel),
            }
        } else if a.key == "rel"@ {
            match a.value {
                Err(m) => LinkOut::Fail(m),
                Ok(v) => spec_atom_link_scan(attrs, i + 1, href, Some(v)),
            }
        } else {
            spec_atom_link_scan(attrs, i + 1, href, rel)
        }
    }
}

/// The classification of one link tag's attribute set.
pub open spec fn spec_atom_link(tag: TagModel) -> LinkOut {
    match tag.attrs {
        Err(m) => LinkOut::Fail(m),
        Ok(attrs) => spec_atom_link_scan(attrs, 0, None, None),
    }
}

/// Where a subtree that starts at nesting depth `depth` ends: the position
/// just past its matching close. End of input inside the subtree is
/// recovered silently; a lexical fault is fatal.
pub open spec fn spec_skip(ts: Seq<TokenModel>, i: int, depth: int) -> SkipOut
    decreases ts.len() - i,
{
    if i < 0 || i >= ts.len() {
        SkipOut::Done(i)
    } else {
        match ts[i] {
            TokenModel::Open(_) => spec_skip(ts, i + 1, depth + 1),
            TokenModel::Close => if depth == 1 {
                SkipOut::Done(i + 1)
            } else {
                spec_skip(ts, i + 1, depth - 1)
            },
            TokenModel::End => SkipOut::Done(i),
            TokenModel::Fault(m) => SkipOut::Fail(m),
            _ => spec_skip(ts, i + 1, depth),
        }
    }
}

pub proof fn lemma_skip_bounds(ts: Seq<TokenModel>, i: int, depth: int)
    requires
        0 <= i <= ts.len(),
    ensures
        match spec_skip(ts, i, depth) {
            SkipOut::Done(j) => i <= j <= ts.len(),
            SkipOut::Fail(_) => true,
        },
    decreases ts.len() - i,
{
    if i < ts.len() {
        match ts[i] {
            TokenModel::Open(_) => lemma_skip_bounds(ts, i + 1, depth + 1),
            TokenModel::Close => {
                if depth != 1 {
                    lemma_skip_bounds(ts, i + 1, depth - 1);
                }
            },
            TokenModel::End => {},
            TokenModel::Fault(_) => {},
            _ => lemma_skip_bounds(ts, i + 1, depth),
        }
    }
}

/// The scalar text content of an element whose start tag stands just
/// before position `i`: the last text/CDATA chunk seen directly in the
/// element (`cur` carries the last chunk so far), with every child
/// element discarded as an unknown subtree. Returns the content found and
/// the position just past the element's close.
pub open spec fn spec_text(ts: Seq<TokenModel>, i: int, cur: Option<Seq<char>>) -> TextOut
    decreases ts.len() - i,
{
    if i < 0 || i >= ts.len() {
        TextOut::Done(cur, i)
    } else {
        match ts[i] {
            TokenModel::Open(_) => match spec_skip(ts, i + 1, 1) {
                SkipOut::Fail(m) => TextOut::Fail(m),
                SkipOut::Done(j) => {
                    proof {
                        lemma_skip_bounds(ts, i + 1, 1);
                    }
                    spec_text(ts, j, cur)
                },
            },
            TokenModel::Text(t) => spec_text(ts, i + 1, Some(t)),
            TokenModel::BadText(m) => TextOut::Fail(m),
            TokenModel::Close => TextOut::Done(cur, i + 1),
            TokenModel::End => TextOut::Done(cur, i),
            TokenModel::Fault(m) => TextOut::Fail(m),
            _ => spec_text(ts, i + 1, cur),
        }
    }
}

pub proof fn lemma_text_bounds(ts: Seq<TokenModel>, i: int, cur: Option<Seq<char>>)
    requires
        0 <= i <= ts.len(),
    ensures
        match spec_text(ts, i, cur) {
            TextOut::Done(_, j) => i <= j <= ts.len(),
            TextOut::Fail(_) => true,
        },
    decreases ts.len() - i,
{
    if i < ts.len() {
        match ts[i] {
            TokenModel::Open(_) => {
                lemma_skip_bounds(ts, i + 1, 1);
                match spec_skip(ts, i + 1, 1) {
                    SkipOut::Done(j) => lemma_text_bounds(ts, j, cur),
                    SkipOut::Fail(_) => {},
                }
            },
            TokenModel::Text(t) => lemma_text_bounds(ts, i + 1, Some(t)),
            TokenModel::BadText(_) => {},
            TokenModel::Close => {},
            TokenModel::End => {},
            TokenModel::Fault(_) => {},
            _ => lemma_text_bounds(ts, i + 1, cur),
        }
    }
}

/// The item an item/entry element yields, walking its children from
/// position `i` with `it` accumulated so far. Child elements are matched
/// by their fully qualified name (namespace prefix included). `title` and
/// `id`/`guid` take the extracted text (even when none was found); a
/// `link` child prefers its text content (the RSS form) and falls back to
/// the Atom attribute form, where only an alternate classification sets
/// the item's link. Later siblings overwrite earlier ones.
pub open spec fn spec_item(ts: Seq<TokenModel>, i: int, it: ItemModel) -> ItemOut
    decreases ts.len() - i,
{
    if i < 0 || i >= ts.len() {
        ItemOut::Done(it, i)
    } else {
        match ts[i] {
            TokenModel::SelfClose(tag) => if tag.full == "link"@ {
                match spec_atom_link(tag) {
                    LinkOut::Fail(m) => ItemOut::Fail(m),
                    LinkOut::Done(Some(LinkModel::Alternate(h))) => spec_item(
                        ts,
                        i + 1,
                        ItemModel { link: Some(h), ..it },
                    ),
                    LinkOut::Done(_) => spec_item(ts, i + 1, it),
                }
            } else {
                spec_item(ts, i + 1, it)
            },
            TokenModel::Open(tag) => if tag.full == "title"@ {
                match spec_text(ts, i + 1, None) {
                    TextOut::Fail(m) => ItemOut::Fail(m),
                    TextOut::Done(t, j) => {
                        proof {
                            lemma_text_bounds(ts, i + 1, None);
                        }
                        spec_item(ts, j, ItemModel { title: t, ..it })
                    },
                }
            } else if tag.full == "link"@ {
                match spec_text(ts, i + 1, None) {
                    TextOut::Fail(m) => ItemOut::Fail(m),
                    TextOut::Done(Some(l), j) => {
                        proof {
                            lemma_text_bounds(ts, i + 1, None);
                        }
                        spec_item(ts, j, ItemModel { link: Some(l), ..it })
                    },
                    TextOut::Done(None, j) => {
                        proof {
                            lemma_text_bounds(ts, i + 1, None);
                        }
                        match spec_atom_link(tag) {
                            LinkOut::Fail(m) => ItemOut::Fail(m),
                            LinkOut::Done(Some(LinkModel::Alternate(h))) => spec_item(
                                ts,
                                j,
                                ItemModel { link: Some(h), ..it },
                            ),
                            LinkOut::Done(_) => spec_item(ts, j, it),
                        }
                    },
                }
            } else if tag.full == "id"@ || tag.full == "guid"@ {
                match spec_text(ts, i + 1, None) {
                    TextOut::Fail(m) => ItemOut::Fail(m),
                    TextOut::Done(t, j) => {
                        proof {
                            lemma_text_bounds(ts, i + 1, None);
                        }
                        spec_item(ts, j, ItemModel { id: t, ..it })
                    },
                }
            } else {
                match spec_skip(ts, i + 1, 1) {
                    SkipOut::Fail(m) => ItemOut::Fail(m),
                    SkipOut::Done(j) => {
                        proof {
                            lemma_skip_bounds(ts, i + 1, 1);
                        }
                        spec_item(ts, j, it)
                    },
                }
            },
            TokenModel::Close => ItemOut::Done(it, i + 1),
            TokenModel::End => ItemOut::Done(it, i),
            TokenModel::Fault(m) => ItemOut::Fail(m),
            _ => spec_item(ts, i + 1, it),
        }
    }
}

pub proof fn lemma_item_bounds(ts: Seq<TokenModel>, i: int, it: ItemModel)
    requires
        0 <= i <= ts.len(),
    ensures
        match spec_item(ts, i, it) {
            ItemOut::Done(_, j) => i <= j <= ts.len(),
            ItemOut::Fail(_) => true,
        },
    decreases ts.len() - i,
{
    if i < ts.len() {
        match ts[i] {
            TokenModel::SelfClose(tag) => if tag.full == "link"@ {
                match spec_atom_link(tag) {
                    LinkOut::Fail(_) => {},
                    LinkOut::Done(Some(LinkModel::Alternate(h))) => lemma_item_bounds(
                        ts,
                        i + 1,
                        ItemModel { link: Some(h), ..it },
                    ),
                    LinkOut::Done(_) => lemma_item_bounds(ts, i + 1, it),
                }
            } else {
                lemma_item_bounds(ts, i + 1, it)
            },
            TokenModel::Open(tag) => {
                lemma_text_bounds(ts, i + 1, None);
                lemma_skip_bounds(ts, i + 1, 1);
                if tag.full == "title"@ {
                    match spec_text(ts, i + 1, None) {
                        TextOut::Fail(_) => {},
                        TextOut::Done(t, j) => lemma_item_bounds(ts, j, ItemModel { title: t, ..it }),
                    }
                } else if tag.full == "link"@ {
                    match spec_text(ts, i + 1, None) {
                        TextOut::Fail(_) => {},
                        TextOut::Done(Some(l), j) => lemma_item_bounds(
                            ts,
                            j,
                            ItemModel { link: Some(l), ..it },
                        ),
                        TextOut::Done(None, j) => match spec_atom_link(tag) {
                            LinkOut::Fail(_) => {},
                            LinkOut::Done(Some(LinkModel::Alternate(h))) => lemma_item_bounds(
                                ts,
                                j,
                                ItemModel { link: Some(h), ..it },
                            ),
                            LinkOut::Done(_) => lemma_item_bounds(ts, j, it),
                        },
                    }
                } else if tag.full == "id"@ || tag.full == "guid"@ {
                    match spec_text(ts, i + 1, None) {
                        TextOut::Fail(_) => {},
                        TextOut::Done(t, j) => lemma_item_bounds(ts, j, ItemModel { id: t, ..it }),
                    }
                } else {
                    match spec_skip(ts, i + 1, 1) {
                        SkipOut::Fail(_) => {},
                        SkipOut::Done(j) => lemma_item_bounds(ts, j, it),
                    }
                }
            },
            TokenModel::Close => {},
            TokenModel::End => {},
            TokenModel::Fault(_) => {},
            _ => lemma_item_bounds(ts, i + 1, it),
        }
    }
}

/// The feed a root element's children yield, walking from position `i`
/// with `feed` accumulated so far. Child elements are matched by their
/// namespace-stripped local name. A `channel` child only raises the
/// `nested` flag (the RSS 0.9/1.0 shape, whose `channel` is an inner
/// metadata block); the first end tag seen while the flag is up closes
/// that block and scanning continues among its former siblings. A `title`
/// child overwrites the feed's title only when text was found. A `link`
/// child prefers its text content (the RSS form) over the Atom attribute
/// form, where an alternate classification sets `link` and a `self` one
/// sets `source`. An `item` or `entry` child appends one parsed item.
/// Anything else is discarded as an unknown subtree.
pub open spec fn spec_channel(ts: Seq<TokenModel>, i: int, feed: FeedModel, nested: bool) -> ChannelOut
    decreases ts.len() - i,
{
    if i < 0 || i >= ts.len() {
        ChannelOut::Done(feed, i)
    } else {
        match ts[i] {
            TokenModel::SelfClose(tag) => if tag.local == "link"@ {
                match spec_atom_link(tag) {
                    LinkOut::Fail(m) => ChannelOut::Fail(m),
                    LinkOut::Done(Some(LinkModel::Alternate(h))) => spec_channel(
                        ts,
                        i + 1,
                        FeedModel { link: h, ..feed },
                        nested,
                    ),
                    LinkOut::Done(Some(LinkModel::Source(h))) => spec_channel(
                        ts,
                        i + 1,
                        FeedModel { source: Some(h), ..feed },
                        nested,
                    ),
                    LinkOut::Done(_) => spec_channel(ts, i + 1, feed, nested),
                }
            } else {
                spec_channel(ts, i + 1, feed, nested)
            },
            TokenModel::Open(tag) => if tag.local == "channel"@ {
                spec_channel(ts, i + 1, feed, true)
            } else if tag.local == "title"@ {
                match spec_text(ts, i + 1, None) {
                    TextOut::Fail(m) => ChannelOut::Fail(m),
                    TextOut::Done(t, j) => {
                        proof {
                            lemma_text_bounds(ts, i + 1, None);
                        }
                        match t {
                            Some(title) => spec_channel(ts, j, FeedModel { title, ..feed }, nested),
                            None => spec_channel(ts, j, feed, nested),
                        }
                    },
                }
            } else if tag.local == "link"@ {
                match spec_text(ts, i + 1, None) {
                    TextOut::Fail(m) => ChannelOut::Fail(m),
                    TextOut::Done(Some(l), j) => {
                        proof {
                            lemma_text_bounds(ts, i + 1, None);
                        }
                        spec_channel(ts, j, FeedModel { link: l, ..feed }, nested)
                    },
                    TextOut::Done(None, j) => {
                        proof {
                            lemma_text_bounds(ts, i + 1, None);
                        }
                        match spec_atom_link(tag) {
                            LinkOut::Fail(m) => ChannelOut::Fail(m),
                            LinkOut::Done(Some(LinkModel::Alternate(h))) => spec_channel(
                                ts,
                                j,
                                FeedModel { link: h, ..feed },
                                nested,
                            ),
                            LinkOut::Done(Some(LinkModel::Source(h))) => spec_channel(
                                ts,
                                j,
                                FeedModel { source: Some(h), ..feed },
                                nested,
                            ),
                            LinkOut::Done(_) => spec_channel(ts, j, feed, nested),
                        }
                    },
                }
            } else if tag.local == "item"@ || tag.local == "entry"@ {
                match spec_item(ts, i + 1, empty_item()) {
                    ItemOut::Fail(m) => ChannelOut::Fail(m),
                    ItemOut::Done(it, j) => {
                        proof {
                            lemma_item_bounds(ts, i + 1, empty_item());
                        }
                        spec_channel(ts, j, FeedModel { items: feed.items.push(it), ..feed }, nested)
                    },
                }
            } else {
                match spec_skip(ts, i + 1, 1) {
                    SkipOut::Fail(m) => ChannelOut::Fail(m),
                    SkipOut::Done(j) => {
                        proof {
                            lemma_skip_bounds(ts, i + 1, 1);
                        }
                        spec_channel(ts, j, feed, nested)
                    },
                }
            },
            TokenModel::Close => if nested {
                spec_channel(ts, i + 1, feed, false)
            } else {
                ChannelOut::Done(feed, i + 1)
            },
            TokenModel::End => ChannelOut::Done(feed, i),
            TokenModel::Fault(m) => ChannelOut::Fail(m),
            _ => spec_channel(ts, i + 1, feed, nested),
        }
    }
}

/// The result of scanning for the feed's real root from position `i`:
/// an `rss` start tag is a transparent wrapper, `channel`, `feed` or
/// `rdf:RDF` (matched on the fully qualified name) hands off to the
/// channel parser, any other element is discarded as an unknown subtree,
/// and end of input without a root is the fatal "no recognizable feed
/// root" error, naming the stream being scanned.
pub open spec fn spec_root(ts: Seq<TokenModel>, i: int) -> Result<FeedModel, FeedErrorModel>
    decreases ts.len() - i,
{
    if i < 0 || i >= ts.len() {
        Err(FeedErrorModel::UnexpectedEof("feed"@))
    } else {
        match ts[i] {
            TokenModel::Open(tag) => if tag.full == "rss"@ {
                spec_root(ts, i + 1)
            } else if tag.full == "channel"@ || tag.full == "feed"@ || tag.full == "rdf:RDF"@ {
                match spec_channel(ts, i + 1, empty_feed(), false) {
                    ChannelOut::Done(f, _) => Ok(f),
                    ChannelOut::Fail(m) => Err(FeedErrorModel::Lex(m)),
                }
            } else {
                match spec_skip(ts, i + 1, 1) {
                    SkipOut::Fail(m) => Err(FeedErrorModel::Lex(m)),
                    SkipOut::Done(j) => {
                        proof {
                            lemma_skip_bounds(ts, i + 1, 1);
                        }
                        spec_root(ts, j)
                    },
                }
            },
            TokenModel::End => Err(FeedErrorModel::UnexpectedEof("feed"@)),
            TokenModel::Fault(m) => Err(FeedErrorModel::Lex(m)),
            _ => spec_root(ts, i + 1),
        }
    }
}

/// The feed (or fatal error) a whole token sequence yields.
pub open spec fn spec_parse(ts: Seq<TokenModel>) -> Result<FeedModel, FeedErrorModel> {
    spec_root(ts, 0)
}

/// A token stream with no tokens, or whose first token is already the end
/// of input, has no recognizable feed root: parsing it fails with the
/// "unexpected end of document" error naming the stream being scanned.
pub proof fn lemma_empty_stream_has_no_root(ts: Seq<TokenModel>)
    requires
        ts.len() == 0 || ts[0] == TokenModel::End,
    ensures
        spec_parse(ts) == Err::<FeedModel, FeedErrorModel>(
            FeedErrorModel::UnexpectedEof("feed"@),
        ),
{
}

/// An unrecognized element met while scanning for the feed's root is
/// transparent: the scan discards its whole subtree and resumes just past
/// it, and the parse yields exactly what it yields from there.
pub proof fn lemma_root_skips_unknown(ts: Seq<TokenModel>, i: int, tag: TagModel, j: int)
    requires
        0 <= i < ts.len(),
        ts[i] == TokenModel::Open(tag),
        tag.full != "rss"@,
        tag.full != "channel"@,
        tag.full != "feed"@,
        tag.full != "rdf:RDF"@,
        spec_skip(ts, i + 1, 1) == SkipOut::Done(j),
    ensures
        spec_root(ts, i) == spec_root(ts, j),
{
}

/// While the nested legacy head is open (the RSS 0.9/1.0 shape, where
/// `channel` is an inner metadata block beside the items), an end tag
/// closes only that block: the channel parse goes on among the block's
/// former siblings with its accumulated feed intact, instead of
/// terminating.
pub proof fn lemma_nested_head_close_continues(
    ts: Seq<TokenModel>,
    i: int,
    feed: FeedModel,
)
    requires
        0 <= i < ts.len(),
        ts[i] == TokenModel::Close,
    ensures
        spec_channel(ts, i, feed, true) == spec_channel(ts, i + 1, feed, false),
{
}

/// At channel scope a self-closing link element is matched on its
/// namespace-stripped local name, and its classification decides the
/// field: an alternate link sets the feed's `link`, a `rel="self"` link
/// sets its `source`, a hub or any other relation is recognized but
/// discarded, and a failed classification is fatal.
pub proof fn lemma_channel_self_closing_link(
    ts: Seq<TokenModel>,
    i: int,
    tag: TagModel,
    feed: FeedModel,
    nested: bool,
)
    requires
        0 <= i < ts.len(),
        ts[i] == TokenModel::SelfClose(tag),
        tag.local == "link"@,
    ensures
        match spec_atom_link(tag) {
            LinkOut::Done(Some(LinkModel::Alternate(h))) => spec_channel(ts, i, feed, nested)
                == spec_channel(ts, i + 1, FeedModel { link: h, ..feed }, nested),
            LinkOut::Done(Some(LinkModel::Source(h))) => spec_channel(ts, i, feed, nested)
                == spec_channel(ts, i + 1, FeedModel { source: Some(h), ..feed }, nested),
            LinkOut::Done(_) => spec_channel(ts, i, feed, nested) == spec_channel(
                ts,
                i + 1,
                feed,
                nested,
            ),
            LinkOut::Fail(m) => spec_channel(ts, i, feed, nested) == ChannelOut::Fail(m),
        },
{
}

/// At item scope a self-closing link element is matched on its fully
/// qualified name instead, and only an alternate classification sets the
/// item's `link`; a `rel="self"`, hub or other link leaves the item
/// untouched (an item has no source field), and a failed classification
/// is fatal.
pub proof fn lemma_item_self_closing_link(
    ts: Seq<TokenModel>,
    i: int,
    tag: TagModel,
    it: ItemModel,
)
    requires
        0 <= i < ts.len(),
        ts[i] == TokenModel::SelfClose(tag),
        tag.full == "link"@,
    ensures
        match spec_atom_link(tag) {
            LinkOut::Done(Some(LinkModel::Alternate(h))) => spec_item(ts, i, it) == spec_item(
                ts,
                i + 1,
                ItemModel { link: Some(h), ..it },
            ),
            LinkOut::Done(_) => spec_item(ts, i, it) == spec_item(ts, i + 1, it),
            LinkOut::Fail(m) => spec_item(ts, i, it) == ItemOut::Fail(m),
        },
{
}

proof fn lemma_skip_shift(pre: Seq<TokenModel>, rest: Seq<TokenModel>, i: int, depth: int)
    requires
        0 <= i,
    ensures
        spec_skip(pre + rest, pre.len() + i, depth) == (match spec_skip(rest, i, depth) {
            SkipOut::Done(j) => SkipOut::Done(pre.len() + j),
            SkipOut::Fail(m) => SkipOut::Fail(m),
        }),
    decreases rest.len() - i,
{
    if i < rest.len() {
        match rest[i] {
            TokenModel::Open(_) => lemma_skip_shift(pre, rest, i + 1, depth + 1),
            TokenModel::Close => {
                if depth != 1 {
                    lemma_skip_shift(pre, rest, i + 1, depth - 1);
                }
            },
            TokenModel::End => {},
            TokenModel::Fault(_) => {},
            _ => lemma_skip_shift(pre, rest, i + 1, depth),
        }
    }
}

proof fn lemma_text_shift(pre: Seq<TokenModel>, rest: Seq<TokenModel>, i: int, cur: Option<Seq<char>>)
    requires
        0 <= i,
    ensures
        spec_text(pre + rest, pre.len() + i, cur) == (match spec_text(rest, i, cur) {
            TextOut::Done(t, j) => TextOut::Done(t, pre.len() + j),
            TextOut::Fail(m) => TextOut::Fail(m),
        }),
    decreases rest.len() - i,
{
    if i < rest.len() {
        match rest[i] {
            TokenModel::Open(_) => {
                lemma_skip_shift(pre, rest, i + 1, 1);
                lemma_skip_bounds(rest, i + 1, 1);
                match spec_skip(rest, i + 1, 1) {
                    SkipOut::Done(j) => lemma_text_shift(pre, rest, j, cur),
                    SkipOut::Fail(_) => {},
                }
            },
            TokenModel::Text(t) => lemma_text_shift(pre, rest, i + 1, Some(t)),
            TokenModel::BadText(_) => {},
            TokenModel::Close => {},
            TokenModel::End => {},
            TokenModel::Fault(_) => {},
            _ => lemma_text_shift(pre, rest, i + 1, cur),
        }
    }
}

proof fn lemma_item_shift(pre: Seq<TokenModel>, rest: Seq<TokenModel>, i: int, it: ItemModel)
    requires
        0 <= i,
    ensures
        spec_item(pre + rest, pre.len() + i, it) == (match spec_item(rest, i, it) {
            ItemOut::Done(r, j) => ItemOut::Done(r, pre.len() + j),
            ItemOut::Fail(m) => ItemOut::Fail(m),
        }),
    decreases rest.len() - i,
{
    if i < rest.len() {
        match rest[i] {
            TokenModel::SelfClose(tag) => if tag.full == "link"@ {
                match spec_atom_link(tag) {
                    LinkOut::Fail(_) => {},
                    LinkOut::Done(Some(LinkModel::Alternate(h))) => lemma_item_shift(
                        pre,
                        rest,
                        i + 1,
                        ItemModel { link: Some(h), ..it },
                    ),
                    LinkOut::Done(_) => lemma_item_shift(pre, rest, i + 1, it),
                }
            } else {
                lemma_item_shift(pre, rest, i + 1, it)
            },
            TokenModel::Open(tag) => {
                lemma_text_shift(pre, rest, i + 1, None);
                lemma_text_bounds(rest, i + 1, None);
                lemma_skip_shift(pre, rest, i + 1, 1);
                lemma_skip_bounds(rest, i + 1, 1);
                if tag.full == "title"@ {
                    match spec_text(rest, i + 1, None) {
                        TextOut::Fail(_) => {},
                        TextOut::Done(t, j) => lemma_item_shift(
                            pre,
                            rest,
                            j,
                            ItemModel { title: t, ..it },
                        ),
                    }
                } else if tag.full == "link"@ {
                    match spec_text(rest, i + 1, None) {
                        TextOut::Fail(_) => {},
                        TextOut::Done(Some(l), j) => lemma_item_shift(
                            pre,
                            rest,
                            j,
                            ItemModel { link: Some(l), ..it },
                        ),
                        TextOut::Done(None, j) => match spec_atom_link(tag) {
                            LinkOut::Fail(_) => {},
                            LinkOut::Done(Some(LinkModel::Alternate(h))) => lemma_item_shift(
                                pre,
                                rest,
                                j,
                                ItemModel { link: Some(h), ..it },
                            ),
                            LinkOut::Done(_) => lemma_item_shift(pre, rest, j, it),
                        },
                    }
                } else if tag.full == "id"@ || tag.full == "guid"@ {
                    match spec_text(rest, i + 1, None) {
                        TextOut::Fail(_) => {},
                        TextOut::Done(t, j) => lemma_item_shift(
                            pre,
                            rest,
                            j,
                            ItemModel { id: t, ..it },
                        ),
                    }
                } else {
                    match spec_skip(rest, i + 1, 1) {
                        SkipOut::Fail(_) => {},
                        SkipOut::Done(j) => lemma_item_shift(pre, rest, j, it),
                    }
                }
            },
            TokenModel::Close => {},
            TokenModel::End => {},
            TokenModel::Fault(_) => {},
            _ => lemma_item_shift(pre, rest, i + 1, it),
        }
    }
}

proof fn lemma_channel_shift(
    pre: Seq<TokenModel>,
    rest: Seq<TokenModel>,
    i: int,
    feed: FeedModel,
    nested: bool,
)
    requires
        0 <= i,
    ensures
        spec_channel(pre + rest, pre.len() + i, feed, nested) == (match spec_channel(
            rest,
            i,
            feed,
            nested,
        ) {
            ChannelOut::Done(f, j) => ChannelOut::Done(f, pre.len() + j),
            ChannelOut::Fail(m) => ChannelOut::Fail(m),
        }),
    decreases rest.len() - i,
{
    if i < rest.len() {
        match rest[i] {
            TokenModel::SelfClose(tag) => if tag.local == "link"@ {
                match spec_atom_link(tag) {
                    LinkOut::Fail(_) => {},
                    LinkOut::Done(Some(LinkModel::Alternate(h))) => lemma_channel_shift(
                        pre,
                        rest,
                        i + 1,
                        FeedModel { link: h, ..feed },
                        nested,
                    ),
                    LinkOut::Done(Some(LinkModel::Source(h))) => lemma_channel_shift(
                        pre,
                        rest,
                        i + 1,
                        FeedModel { source: Some(h), ..feed },
                        nested,
                    ),
                    LinkOut::Done(_) => lemma_channel_shift(pre, rest, i + 1, feed, nested),
                }
            } else {
                lemma_channel_shift(pre, rest, i + 1, feed, nested)
            },
            TokenModel::Open(tag) => {
                lemma_text_shift(pre, rest, i + 1, None);
                lemma_text_bounds(rest, i + 1, None);
                lemma_skip_shift(pre, rest, i + 1, 1);
                lemma_skip_bounds(rest, i + 1, 1);
                lemma_item_shift(pre, rest, i + 1, empty_item());
                lemma_item_bounds(rest, i + 1, empty_item());
                if tag.local == "channel"@ {
                    lemma_channel_shift(pre, rest, i + 1, feed, true);
                } else if tag.local == "title"@ {
                    match spec_text(rest, i + 1, None) {
                        TextOut::Fail(_) => {},
                        TextOut::Done(Some(t), j) => lemma_channel_shift(
                            pre,
                            rest,
                            j,
                            FeedModel { title: t, ..feed },
                            nested,
                        ),
                        TextOut::Done(None, j) => lemma_channel_shift(pre, rest, j, feed, nested),
                    }
                } else if tag.local == "link"@ {
                    match spec_text(rest, i + 1, None) {
                        TextOut::Fail(_) => {},
                        TextOut::Done(Some(l), j) => lemma_channel_shift(
                            pre,
                            rest,
                            j,
                            FeedModel { link: l, ..feed },
                            nested,
                        ),
                        TextOut::Done(None, j) => match spec_atom_link(tag) {
                            LinkOut::Fail(_) => {},
                            LinkOut::Done(Some(LinkModel::Alternate(h))) => lemma_channel_shift(
                                pre,
                                rest,
                                j,
                                FeedModel { link: h, ..feed },
                                nested,
                            ),
                            LinkOut::Done(Some(LinkModel::Source(h))) => lemma_channel_shift(
                                pre,
                                rest,
                                j,
                                FeedModel { source: Some(h), ..feed },
                                nested,
                            ),
                            LinkOut::Done(_) => lemma_channel_shift(pre, rest, j, feed, nested),
                        },
                    }
                } else if tag.local == "item"@ || tag.local == "entry"@ {
                    match spec_item(rest, i + 1, empty_item()) {
                        ItemOut::Fail(_) => {},
                        ItemOut::Done(it, j) => lemma_channel_shift(
                            pre,
                            rest,
                            j,
                            FeedModel { items: feed.items.push(it), ..feed },
                            nested,
                        ),
                    }
                } else {
                    match spec_skip(rest, i + 1, 1) {
                        SkipOut::Fail(_) => {},
                        SkipOut::Done(j) => lemma_channel_shift(pre, rest, j, feed, nested),
                    }
                }
            },
            TokenModel::Close => {
                if nested {
                    lemma_channel_shift(pre, rest, i + 1, feed, false);
                }
            },
            TokenModel::End => {},
            TokenModel::Fault(_) => {},
            _ => lemma_channel_shift(pre, rest, i + 1, feed, nested),
        }
    }
}

/// Root scanning is local: from any position, the result depends only on
/// the tokens from that position on, so shifting a scan past a prefix
/// changes nothing.
proof fn lemma_root_shift(pre: Seq<TokenModel>, rest: Seq<TokenModel>, i: int)
    requires
        0 <= i,
    ensures
        spec_root(pre + rest, pre.len() + i) == spec_root(rest, i),
    decreases rest.len() - i,
{
    if i < rest.len() {
        match rest[i] {
            TokenModel::Open(tag) => {
                if tag.full == "rss"@ {
                    lemma_root_shift(pre, rest, i + 1);
                } else if tag.full == "channel"@ || tag.full == "feed"@ || tag.full == "rdf:RDF"@ {
                    lemma_channel_shift(pre, rest, i + 1, empty_feed(), false);
                } else {
                    lemma_skip_shift(pre, rest, i + 1, 1);
                    lemma_skip_bounds(rest, i + 1, 1);
                    match spec_skip(rest, i + 1, 1) {
                        SkipOut::Fail(_) => {},
                        SkipOut::Done(j) => lemma_root_shift(pre, rest, j),
                    }
                }
            },
            TokenModel::End => {},
            TokenModel::Fault(_) => {},
            _ => lemma_root_shift(pre, rest, i + 1),
        }
    }
}

/// An unknown element standing, with its whole subtree, before the rest
/// of the document adds nothing: parsing the concatenation yields
/// exactly the parse of the rest alone. `junk` is the unknown element's
/// tokens — an opening tag whose name is none of the accepted root
/// spellings, followed by a subtree whose matching close ends exactly
/// where `rest` begins.
pub proof fn lemma_parse_skips_leading_unknown(
    junk: Seq<TokenModel>,
    rest: Seq<TokenModel>,
    tag: TagModel,
)
    requires
        junk.len() >= 1,
        junk[0] == TokenModel::Open(tag),
        tag.full != "rss"@,
        tag.full != "channel"@,
        tag.full != "feed"@,
        tag.full != "rdf:RDF"@,
        spec_skip(junk + rest, 1, 1) == SkipOut::Done(junk.len() as int),
    ensures
        spec_parse(junk + rest) == spec_parse(rest),
{
    let ts = junk + rest;
    assert(ts[0] == TokenModel::Open(tag));
    lemma_root_shift(junk, rest, 0);
    assert(spec_root(ts, 0) == spec_root(ts, junk.len() as int));
}

/// The channel parser never reorders, rewrites or drops an item: the
/// items accumulated so far stay a prefix of the result, in their order.
/// Since the definition appends each newly parsed item at the end, the
/// items of a parsed feed stand in document order, duplicates included.
pub proof fn lemma_channel_keeps_item_order(
    ts: Seq<TokenModel>,
    i: int,
    feed: FeedModel,
    nested: bool,
)
    requires
        0 <= i <= ts.len(),
    ensures
        match spec_channel(ts, i, feed, nested) {
            ChannelOut::Done(f, _) => f.items.len() >= feed.items.len() && f.items.subrange(
                0,
                feed.items.len() as int,
            ) == feed.items,
            ChannelOut::Fail(_) => true,
        },
    decreases ts.len() - i,
{
    assert(feed.items.subrange(0, feed.items.len() as int) =~= feed.items);
    if i < ts.len() {
        match ts[i] {
            TokenModel::SelfClose(tag) => if tag.local == "link"@ {
                match spec_atom_link(tag) {
                    LinkOut::Fail(_) => {},
                    LinkOut::Done(Some(LinkModel::Alternate(h))) => lemma_channel_keeps_item_order(
                        ts,
                        i + 1,
                        FeedModel { link: h, ..feed },
                        nested,
                    ),
                    LinkOut::Done(Some(LinkModel::Source(h))) => lemma_channel_keeps_item_order(
                        ts,
                        i + 1,
                        FeedModel { source: Some(h), ..feed },
                        nested,
                    ),
                    LinkOut::Done(_) => lemma_channel_keeps_item_order(ts, i + 1, feed, nested),
                }
            } else {
                lemma_channel_keeps_item_order(ts, i + 1, feed, nested)
            },
            TokenModel::Open(tag) => {
                lemma_text_bounds(ts, i + 1, None);
                lemma_skip_bounds(ts, i + 1, 1);
                lemma_item_bounds(ts, i + 1, empty_item());
                if tag.local == "channel"@ {
                    lemma_channel_keeps_item_order(ts, i + 1, feed, true);
                } else if tag.local == "title"@ {
                    match spec_text(ts, i + 1, None) {
                        TextOut::Fail(_) => {},
                        TextOut::Done(Some(title), j) => lemma_channel_keeps_item_order(
                            ts,
                            j,
                            FeedModel { title, ..feed },
                            nested,
                        ),
                        TextOut::Done(None, j) => lemma_channel_keeps_item_order(
                            ts,
                            j,
                            feed,
                            nested,
                        ),
                    }
                } else if tag.local == "link"@ {
                    match spec_text(ts, i + 1, None) {
                        TextOut::Fail(_) => {},
                        TextOut::Done(Some(l), j) => lemma_channel_keeps_item_order(
                            ts,
                            j,
                            FeedModel { link: l, ..feed },
                            nested,
                        ),
                        TextOut::Done(None, j) => match spec_atom_link(tag) {
                            LinkOut::Fail(_) => {},
                            LinkOut::Done(Some(LinkModel::Alternate(h))) =>
                                lemma_channel_keeps_item_order(
                                ts,
                                j,
                                FeedModel { link: h, ..feed },
                                nested,
                            ),
                            LinkOut::Done(Some(LinkModel::Source(h))) =>
                                lemma_channel_keeps_item_order(
                                ts,
                                j,
                                FeedModel { source: Some(h), ..feed },
                                nested,
                            ),
                            LinkOut::Done(_) => lemma_channel_keeps_item_order(
                                ts,
                                j,
                                feed,
                                nested,
                            ),
                        },
                    }
                } else if tag.local == "item"@ || tag.local == "entry"@ {
                    match spec_item(ts, i + 1, empty_item()) {
                        ItemOut::Fail(_) => {},
                        ItemOut::Done(it, j) => {
                            let feed2 = FeedModel { items: feed.items.push(it), ..feed };
                            lemma_channel_keeps_item_order(ts, j, feed2, nested);
                            match spec_channel(ts, j, feed2, nested) {
                                ChannelOut::Done(f, _) => {
                                    assert(f.items.subrange(0, feed.items.len() as int)
                                        =~= feed.items);
                                },
                                ChannelOut::Fail(_) => {},
                            }
                        },
                    }
                } else {
                    match spec_skip(ts, i + 1, 1) {
                        SkipOut::Fail(_) => {},
                        SkipOut::Done(j) => lemma_channel_keeps_item_order(ts, j, feed, nested),
                    }
                }
            },
            TokenModel::Close => {
                if nested {
                    lemma_channel_keeps_item_order(ts, i + 1, feed, false);
                }
            },
            TokenModel::End => {},
            TokenModel::Fault(_) => {},
            _ => lemma_channel_keeps_item_order(ts, i + 1, feed, nested),
        }
    }
}

/// Whether a string equals a literal.
fn eq_lit(s: &String, lit: &str) -> (r: bool)
    ensures
        r == (s@ == lit@),
{
    let l = String::from_str(lit);
    *s == l
}

/// Consume and discard everything through the matching close of the
/// element whose start tag stands just before `pos`, arbitrarily deep
/// nested children included. End of input before the matching close is
/// silent success; a lexical fault is fatal.
pub fn skip_element(ts: &Vec<XmlToken>, pos: usize) -> (r: Result<usize, FeedError>)
    requires
        pos <= ts@.len(),
    ensures
        ({
            let out = spec_skip(toks(ts@), pos as int, 1);
            match r {
                Ok(j) => pos <= j <= ts@.len() && out == SkipOut::Done(j as int),
                Err(e) => match e {
                    FeedError::Lex(m) => out == SkipOut::Fail(m@),
                    _ => false,
                },
            }
        }),
{
    let mut i = pos;
    let mut depth: u128 = 1;
    loop
        invariant
            pos <= i <= ts@.len(),
            1 <= depth <= i - pos + 1,
            spec_skip(toks(ts@), pos as int, 1) == spec_skip(toks(ts@), i as int, depth as int),
        decreases ts@.len() - i,
    {
        if i >= ts.len() {
            return Ok(i);
        }
        proof {
            assert(toks(ts@)[i as int] == ts@[i as int]@);
        }
        match &ts[i] {
            XmlToken::Open(_) => {
                depth = depth + 1;
                i = i + 1;
            },
            XmlToken::Close => {
                if depth == 1 {
                    return Ok(i + 1);
                }
                depth = depth - 1;
                i = i + 1;
            },
            XmlToken::End => {
                return Ok(i);
            },
            XmlToken::Fault(m) => {
                return Err(FeedError::Lex(m.clone()));
            },
            _ => {
                i = i + 1;
            },
        }
    }
}

/// Extract the scalar text/CDATA content of the element whose start tag
/// stands just before `pos`: consume through its matching close and
/// return the last chunk observed (or nothing, when only child elements
/// and no text were present) and the position just past the element.
pub fn extract_text(ts: &Vec<XmlToken>, pos: usize) -> (r: Result<(Option<String>, usize), FeedError>)
    requires
        pos <= ts@.len(),
    ensures
        ({
            let out = spec_text(toks(ts@), pos as int, None);
            match r {
                Ok((c, j)) => pos <= j <= ts@.len() && out == TextOut::Done(opt_str_view(c), j as int),
                Err(e) => match e {
                    FeedError::Lex(m) => out == TextOut::Fail(m@),
                    _ => false,
                },
            }
        }),
{
    let mut i = pos;
    let mut cur: Option<String> = None;
    loop
        invariant
            pos <= i <= ts@.len(),
            spec_text(toks(ts@), pos as int, None) == spec_text(toks(ts@), i as int, opt_str_view(cur)),
        decreases ts@.len() - i,
    {
        if i >= ts.len() {
            return Ok((cur, i));
        }
        proof {
            assert(toks(ts@)[i as int] == ts@[i as int]@);
        }
        match &ts[i] {
            XmlToken::Open(_) => {
                match skip_element(ts, i + 1) {
                    Ok(j) => {
                        i = j;
                    },
                    Err(e) => {
                        return Err(e);
                    },
                }
            },
            XmlToken::Text(s) => {
                cur = Some(s.clone());
                i = i + 1;
            },
            XmlToken::BadText(m) => {
                return Err(FeedError::Lex(m.clone()));
            },
            XmlToken::Close => {
                return Ok((cur, i + 1));
            },
            XmlToken::End => {
                return Ok((cur, i));
            },
            XmlToken::Fault(m) => {
                return Err(FeedError::Lex(m.clone()));
            },
            _ => {
                i = i + 1;
            },
        }
    }
}

/// Classify one link element by its attributes: scan for `href` and `rel`
/// (order-independent, the last occurrence of each wins), yield no
/// classification without an `href`, and otherwise classify by the `rel`
/// value, with absence of `rel` meaning the alternate link.
pub fn parse_atom_link(tag: &Tag) -> (r: Result<Option<AtomLink>, FeedError>)
    ensures
        ({
            let out = spec_atom_link(tag@);
            match r {
                Ok(cl) => out == LinkOut::Done(opt_link_view(cl)),
                Err(e) => match e {
                    FeedError::Lex(m) => out == LinkOut::Fail(m@),
                    _ => false,
                },
            }
        }),
{
    let attrs = match &tag.attrs {
        Ok(a) => a,
        Err(m) => {
            return Err(FeedError::Lex(m.clone()));
        },
    };
    let ghost avs = attrs@.map_values(|a: Attr| a@);
    let mut href: Option<String> = None;
    let mut rel: Option<String> = None;
    let mut i: usize = 0;
    while i < attrs.len()
        invariant
            0 <= i <= attrs@.len(),
            avs == attrs@.map_values(|a: Attr| a@),
            tag@.attrs == Ok::<Seq<AttrModel>, Seq<char>>(avs),
            spec_atom_link_scan(avs, 0, None, None) == spec_atom_link_scan(
                avs,
                i as int,
                opt_str_view(href),
                opt_str_view(rel),
            ),
        decreases attrs@.len() - i,
    {
        proof {
            assert(avs[i as int] == attrs@[i as int]@);
        }
        let a = &attrs[i];
        if eq_lit(&a.key, "href") {
            match &a.value {
                Ok(v) => {
                    href = Some(v.clone());
                },
                Err(m) => {
                    return Err(FeedError::Lex(m.clone()));
                },
            }
        } else if eq_lit(&a.key, "rel") {
            match &a.value {
                Ok(v) => {
                    rel = Some(v.clone());
                },
                Err(m) => {
                    return Err(FeedError::Lex(m.clone()));
                },
            }
        }
        i = i + 1;
    }
    match href {
        None => Ok(None),
        Some(h) => match rel {
            None => Ok(Some(AtomLink::Alternate(h))),
            Some(rl) => {
                if eq_lit(&rl, "alternate") {
                    Ok(Some(AtomLink::Alternate(h)))
                } else if eq_lit(&rl, "self") {
                    Ok(Some(AtomLink::Source(h)))
                } else if eq_lit(&rl, "hub") {
                    Ok(Some(AtomLink::Hub(h)))
                } else {
                    Ok(Some(AtomLink::Other(h, rl)))
                }
            },
        },
    }
}

/// Parse one item/entry element whose start tag stands just before `pos`:
/// consume through its matching close and return the item record and the
/// position just past the element. Child elements are matched by their
/// fully qualified name.
pub fn parse_item(ts: &Vec<XmlToken>, pos: usize) -> (r: Result<(Item, usize), FeedError>)
    requires
        pos <= ts@.len(),
    ensures
        ({
            let out = spec_item(toks(ts@), pos as int, empty_item());
            match r {
                Ok((it, j)) => pos <= j <= ts@.len() && out == ItemOut::Done(it@, j as int),
                Err(e) => match e {
                    FeedError::Lex(m) => out == ItemOut::Fail(m@),
                    _ => false,
                },
            }
        }),
{
    let mut item = Item::default();
    let mut i = pos;
    loop
        invariant
            pos <= i <= ts@.len(),
            spec_item(toks(ts@), pos as int, empty_item()) == spec_item(toks(ts@), i as int, item@),
        decreases ts@.len() - i,
    {
        if i >= ts.len() {
            return Ok((item, i));
        }
        proof {
            assert(toks(ts@)[i as int] == ts@[i as int]@);
        }
        match &ts[i] {
            XmlToken::SelfClose(tag) => {
                if eq_lit(&tag.full, "link") {
                    match parse_atom_link(tag) {
                        Ok(Some(AtomLink::Alternate(h))) => {
                            item.link = Some(h);
                        },
                        Ok(_) => {},
                        Err(e) => {
                            return Err(e);
                        },
                    }
                }
                i = i + 1;
            },
            XmlToken::Open(tag) => {
                if eq_lit(&tag.full, "title") {
                    match extract_text(ts, i + 1) {
                        Ok((t, j)) => {
                            item.title = t;
                            i = j;
                        },
                        Err(e) => {
                            return Err(e);
                        },
                    }
                } else if eq_lit(&tag.full, "link") {
                    match extract_text(ts, i + 1) {
                        Ok((Some(l), j)) => {
                            item.link = Some(l);
                            i = j;
                        },
                        Ok((None, j)) => {
                            match parse_atom_link(tag) {
                                Ok(Some(AtomLink::Alternate(h))) => {
                                    item.link = Some(h);
                                },
                                Ok(_) => {},
                                Err(e) => {
                                    return Err(e);
                                },
                            }
                            i = j;
                        },
                        Err(e) => {
                            return Err(e);
                        },
                    }
                } else if eq_lit(&tag.full, "id") || eq_lit(&tag.full, "guid") {
                    match extract_text(ts, i + 1) {
                        Ok((t, j)) => {
                            item.id = t;
                            i = j;
                        },
                        Err(e) => {
                            return Err(e);
                        },
                    }
                } else {
                    match skip_element(ts, i + 1) {
                        Ok(j) => {
                            i = j;
                        },
                        Err(e) => {
                            return Err(e);
                        },
                    }
                }
            },
            XmlToken::Close => {
                return Ok((item, i + 1));
            },
            XmlToken::End => {
                return Ok((item, i));
            },
            XmlToken::Fault(m) => {
                return Err(FeedError::Lex(m.clone()));
            },
            _ => {
                i = i + 1;
            },
        }
    }
}

/// Parse the children of a feed root from `pos` through the root's close
/// (or the end of input) and return the accumulated feed and the position
/// just past it. Child elements are matched by their namespace-stripped
/// local name; the RDF shape whose `channel` head is a sibling of the
/// items is handled by the nested-head flag.
pub fn parse_channel(ts: &Vec<XmlToken>, pos: usize) -> (r: Result<(RSS, usize), FeedError>)
    requires
        pos <= ts@.len(),
    ensures
        ({
            let out = spec_channel(toks(ts@), pos as int, empty_feed(), false);
            match r {
                Ok((f, j)) => pos <= j <= ts@.len() && out == ChannelOut::Done(f@, j as int),
                Err(e) => match e {
                    FeedError::Lex(m) => out == ChannelOut::Fail(m@),
                    _ => false,
                },
            }
        }),
{
    let mut feed = RSS::default();
    let mut nested = false;
    let mut i = pos;
    loop
        invariant
            pos <= i <= ts@.len(),
            spec_channel(toks(ts@), pos as int, empty_feed(), false) == spec_channel(
                toks(ts@),
                i as int,
                feed@,
                nested,
            ),
        decreases ts@.len() - i,
    {
        if i >= ts.len() {
            return Ok((feed, i));
        }
        proof {
            assert(toks(ts@)[i as int] == ts@[i as int]@);
        }
        match &ts[i] {
            XmlToken::SelfClose(tag) => {
                if eq_lit(&tag.local, "link") {
                    match parse_atom_link(tag) {
                        Ok(Some(AtomLink::Alternate(h))) => {
                            feed.link = h;
                        },
                        Ok(Some(AtomLink::Source(h))) => {
                            feed.source = Some(h);
                        },
                        Ok(_) => {},
                        Err(e) => {
                            return Err(e);
                        },
                    }
                }
                i = i + 1;
            },
            XmlToken::Open(tag) => {
                if eq_lit(&tag.local, "channel") {
                    nested = true;
                    i = i + 1;
                } else if eq_lit(&tag.local, "title") {
                    match extract_text(ts, i + 1) {
                        Ok((t, j)) => {
                            if let Some(title) = t {
                                feed.title = title;
                            }
                            i = j;
                        },
                        Err(e) => {
                            return Err(e);
                        },
                    }
                } else if eq_lit(&tag.local, "link") {
                    match extract_text(ts, i + 1) {
                        Ok((Some(l), j)) => {
                            feed.link = l;
                            i = j;
                        },
                        Ok((None, j)) => {
                            match parse_atom_link(tag) {
                                Ok(Some(AtomLink::Alternate(h))) => {
                                    feed.link = h;
                                },
                                Ok(Some(AtomLink::Source(h))) => {
                                    feed.source = Some(h);
                                },
                                Ok(_) => {},
                                Err(e) => {
                                    return Err(e);
                                },
                            }
                            i = j;
                        },
                        Err(e) => {
                            return Err(e);
                        },
                    }
                } else if eq_lit(&tag.local, "item") || eq_lit(&tag.local, "entry") {
                    match parse_item(ts, i + 1) {
                        Ok((it, j)) => {
                            let ghost pre = feed@;
                            let ghost itm = it@;
                            feed.items.push(it);
                            proof {
                                assert(feed@.items =~= pre.items.push(itm));
                            }
                            i = j;
                        },
                        Err(e) => {
                            return Err(e);
                        },
                    }
                } else {
                    match skip_element(ts, i + 1) {
                        Ok(j) => {
                            i = j;
                        },
                        Err(e) => {
                            return Err(e);
                        },
                    }
                }
            },
            XmlToken::Close => {
                if nested {
                    nested = false;
                    i = i + 1;
                } else {
                    return Ok((feed, i + 1));
                }
            },
            XmlToken::End => {
                return Ok((feed, i));
            },
            XmlToken::Fault(m) => {
                return Err(FeedError::Lex(m.clone()));
            },
            _ => {
                i = i + 1;
            },
        }
    }
}

/// Parse a whole token sequence: find the feed's real root among the
/// acceptable spellings (`rss` being a transparent wrapper), hand off to
/// the channel parser, and return its feed; reaching the end of input
/// without a recognizable root is the fatal "no recognizable feed root"
/// error, naming the stream being scanned.
pub fn parse_tokens(ts: &Vec<XmlToken>) -> (r: Result<RSS, FeedError>)
    ensures
        ({
            let out = spec_parse(toks(ts@));
            match r {
                Ok(f) => out == Ok::<FeedModel, FeedErrorModel>(f@),
                Err(e) => out == Err::<FeedModel, FeedErrorModel>(e@),
            }
        }),
{
    let mut i: usize = 0;
    loop
        invariant
            0 <= i <= ts@.len(),
            spec_root(toks(ts@), 0) == spec_root(toks(ts@), i as int),
        decreases ts@.len() - i,
    {
        if i >= ts.len() {
            return Err(FeedError::UnexpectedEof(String::from_str("feed")));
        }
        proof {
            assert(toks(ts@)[i as int] == ts@[i as int]@);
        }
        match &ts[i] {
            XmlToken::Open(tag) => {
                if eq_lit(&tag.full, "rss") {
                    i = i + 1;
                } else if eq_lit(&tag.full, "channel") || eq_lit(&tag.full, "feed") || eq_lit(
                    &tag.full,
                    "rdf:RDF",
                ) {
                    match parse_channel(ts, i + 1) {
                        Ok((f, _j)) => {
                            return Ok(f);
                        },
                        Err(e) => {
                            return Err(e);
                        },
                    }
                } else {
                    match skip_element(ts, i + 1) {
                        Ok(j) => {
                            i = j;
                        },
                        Err(e) => {
                            return Err(e);
                        },
                    }
                }
            },
            XmlToken::End => {
                return Err(FeedError::UnexpectedEof(String::from_str("feed")));
            },
            XmlToken::Fault(m) => {
                return Err(FeedError::Lex(m.clone()));
            },
            _ => {
                i = i + 1;
            },
        }
    }
}

} // verus!

//! The unified, dialect-agnostic feed model: a channel-level `RSS` record
//! holding an ordered list of `Item` records, plus the fatal error type of
//! the parser.

use vstd::prelude::*;

verus! {

/// Mathematical model of a parsed feed.
#[verifier::ext_equal]
pub struct FeedModel {
    pub title: Seq<char>,
    pub link: Seq<char>,
    pub source: Option<Seq<char>>,
    pub items: Seq<ItemModel>,
}

/// Mathematical model of one entry/story of a feed.
#[verifier::ext_equal]
pub struct ItemModel {
    pub title: Option<Seq<char>>,
    pub link: Option<Seq<char>>,
    pub id: Option<Seq<char>>,
}

/// The feed a parse produces before any title/link/item was seen:
/// empty strings for the mandatory fields, nothing else.
pub open spec fn empty_feed() -> FeedModel {
    FeedModel { title: Seq::empty(), link: Seq::empty(), source: None, items: Seq::empty() }
}

/// The item a parse produces before any child element was seen.
pub open spec fn empty_item() -> ItemModel {
    ItemModel { title: None, link: None, id: None }
}

pub open spec fn opt_str_view(o: Option<String>) -> Option<Seq<char>> {
    match o {
        Some(s) => Some(s@),
        None => None,
    }
}

/// The channel-level result of a parse: `title` and `link` default to the
/// empty string when absent, `source` is the feed's own canonical URL
/// (an Atom-only concept), and `items` keeps document order, duplicates
/// included.
#[derive(Debug, Clone, PartialEq, Eq)]
pub struct RSS {
    pub title: String,
    pub link: String,
    pub source: Option<String>,
    pub items: Vec<Item>,
}

/// One entry/story of a feed. `id` holds an RSS `guid` or an Atom `id`,
/// which are treated identically.
#[derive(Debug, Clone, PartialEq, Eq)]
pub struct Item {
    pub title: Option<String>,
    pub link: Option<String>,
    pub id: Option<String>,
}

impl View for Item {
    type V = ItemModel;

    open spec fn view(&self) -> ItemModel {
        ItemModel {
            title: opt_str_view(self.title),
            link: opt_str_view(self.link),
            id: opt_str_view(self.id),
        }
    }
}

impl View for RSS {
    type V = FeedModel;

    open spec fn view(&self) -> FeedModel {
        FeedModel {
            title: self.title@,
            link: self.link@,
            source: opt_str_view(self.source),
            items: self.items@.map_values(|it: Item| it@),
        }
    }
}

impl Default for RSS {
    /// A feed with empty title and link, no source and no items.
    fn default() -> (r: Self)
        ensures
            r@ == empty_feed(),
    {
        let r = RSS { title: String::new(), link: String::new(), source: None, items: Vec::new() };
        proof {
            assert(r@.items =~= empty_feed().items);
            assert(r@ =~= empty_feed());
        }
        r
    }
}

impl Default for Item {
    /// An item with no title, link or id.
    fn default() -> (r: Self)
        ensures
            r@ == empty_item(),
    {
        Item { title: None, link: None, id: None }
    }
}

/// Model of a fatal parse error.
pub enum FeedErrorModel {
    /// End of input was reached while still scanning for a recognizable
    /// feed root; holds the name of the stream being scanned.
    UnexpectedEof(Seq<char>),
    /// A lexical error reported by the tokenizer; holds its message.
    Lex(Seq<char>),
}

/// A fatal parse error: either the document ended before a recognizable
/// feed root was found, or the tokenizer reported a lexical error.
#[derive(Debug)]
pub enum FeedError {
    UnexpectedEof(String),
    Lex(String),
}

impl View for FeedError {
    type V = FeedErrorModel;

    open spec fn view(&self) -> FeedErrorModel {
        match self {
            FeedError::UnexpectedEof(s) => FeedErrorModel::UnexpectedEof(s@),
            FeedError::Lex(s) => FeedErrorModel::Lex(s@),
        }
    }
}

} // verus!

//! The lexical events the parser consumes: a plain-value form of one XML
//! token, with names exposed both fully qualified and namespace-stripped.
//! Text, attribute values and attribute lists whose decoding failed carry
//! the failure with them, so that the error surfaces only if the parser
//! actually consumes that piece — exactly where the parse would have
//! decoded it.

use vstd::prelude::*;

verus! {

/// Model of one attribute.
pub struct AttrModel {
    pub key: Seq<char>,
    /// The decoded, unescaped value, or the message of the failed decode.
    pub value: Result<Seq<char>, Seq<char>>,
}

/// Model of one start or self-closing tag.
pub struct TagModel {
    pub local: Seq<char>,
    pub full: Seq<char>,
    pub attrs: Result<Seq<AttrModel>, Seq<char>>,
}

/// Model of one lexical token.
pub enum TokenModel {
    Open(TagModel),
    SelfClose(TagModel),
    Close,
    Text(Seq<char>),
    BadText(Seq<char>),
    Misc,
    End,
    Fault(Seq<char>),
}

/// One attribute of a tag, with its value already decoded and unescaped.
/// A value whose unescaping failed holds the error message instead; the
/// failure is fatal only if a link classification reads this attribute.
#[derive(Debug, PartialEq, Eq)]
pub struct Attr {
    pub key: String,
    pub value: Result<String, String>,
}

/// A start or self-closing tag: its namespace-stripped local name, its
/// fully qualified name, and its attributes. An attribute list that could
/// not be read holds the error message instead; the failure is fatal only
/// if a link classification reads the attributes.
#[derive(Debug, PartialEq, Eq)]
pub struct Tag {
    pub local: String,
    pub full: String,
    pub attrs: Result<Vec<Attr>, String>,
}

/// One lexical token of the byte stream, as the parser sees it:
/// start tag, self-closing tag, end tag, text or CDATA content
/// (whitespace-only content elided), ignorable markup (declarations,
/// comments, processing instructions), end of input, or a fatal lexical
/// fault that aborts the parse when reached.
#[derive(Debug, PartialEq, Eq)]
pub enum XmlToken {
    Open(Tag),
    SelfClose(Tag),
    Close,
    Text(String),
    BadText(String),
    Misc,
    End,
    Fault(String),
}

impl View for Attr {
    type V = AttrModel;

    open spec fn view(&self) -> AttrModel {
        AttrModel {
            key: self.key@,
            value: match self.value {
                Ok(v) => Ok(v@),
                Err(m) => Err(m@),
            },
        }
    }
}

impl View for Tag {
    type V = TagModel;

    open spec fn view(&self) -> TagModel {
        TagModel {
            local: self.local@,
            full: self.full@,
            attrs: match self.attrs {
                Ok(attrs) => Ok(attrs@.map_values(|a: Attr| a@)),
                Err(m) => Err(m@),
            },
        }
    }
}

impl View for XmlToken {
    type V = TokenModel;

    open spec fn view(&self) -> TokenModel {
        match self {
            XmlToken::Open(t) => TokenModel::Open(t@),
            XmlToken::SelfClose(t) => TokenModel::SelfClose(t@),
            XmlToken::Close => TokenModel::Close,
            XmlToken::Text(s) => TokenModel::Text(s@),
            XmlToken::BadText(m) => TokenModel::BadText(m@),
            XmlToken::Misc => TokenModel::Misc,
            XmlToken::End => TokenModel::End,
            XmlToken::Fault(m) => TokenModel::Fault(m@),
        }
    }
}

/// The model of a token sequence.
pub open spec fn toks(ts: Seq<XmlToken>) -> Seq<TokenModel> {
    ts.map_values(|t: XmlToken| t@)
}

} // verus!

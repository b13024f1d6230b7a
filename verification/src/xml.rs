//! The tokenizer boundary: the XML lexing itself is done by the
//! `quick-xml` crate, reached only through the small trusted items in
//! this module. Tokenizing reads nothing but the byte slice — no chance,
//! time or environment enters — so the token sequence is a function of
//! the bytes alone and carries the name `tokens_of`. The lexer object is
//! opaque; its contracts place each event at its index in `tokens_of`,
//! and the loop that assembles the tokens is verified, so `tokenize`
//! provably returns `tokens_of` of its input. `parse` is the byte-stream
//! entry point: its result is exactly the parse of `tokens_of(data)`.

use vstd::prelude::*;

use quick_xml::events::Event as XmlEvent;
use quick_xml::Reader as XmlReader;

use crate::feed::{FeedError, FeedErrorModel, FeedModel, RSS};
use crate::parser::{parse_tokens, spec_parse};
use crate::tokens::{toks, Attr, AttrModel, Tag, TagModel, TokenModel, XmlToken};

verus! {

/// The token sequence of a byte stream: one token per lexical event,
/// ending with its only terminal token — the end-of-input token, or a
/// fault token at the first read error (fatal only if the parser
/// reaches it).
pub uninterp spec fn tokens_of(data: Seq<u8>) -> Seq<TokenModel>;

/// The bytes a lexer reads.
pub uninterp spec fn lexer_input(lx: Lexer) -> Seq<u8>;

/// How many events a lexer has read so far.
pub uninterp spec fn lexer_pos(lx: Lexer) -> int;

/// Whether a token ends the stream.
pub open spec fn is_terminal(t: TokenModel) -> bool {
    match t {
        TokenModel::End => true,
        TokenModel::Fault(_) => true,
        _ => false,
    }
}

/// The lexer over the input bytes: the reader, its scratch buffer and
/// the current event, all hidden whole from the verifier; the trusted
/// items below are its only doors.
#[verifier::external_body]
struct Lexer {
    reader: XmlReader<std::io::Cursor<Vec<u8>>>,
    buf: Vec<u8>,
    cur: Result<XmlEvent<'static>, String>,
}

/// The coarse kind of the current event; text and CDATA share one kind,
/// since whether they become content or a carried decode failure is
/// decided by the decode itself.
enum TokenKind {
    Open,
    SelfClose,
    Close,
    TextLike,
    Misc,
    End,
    Fault,
}

spec fn kind_of(t: TokenModel) -> TokenKind {
    match t {
        TokenModel::Open(_) => TokenKind::Open,
        TokenModel::SelfClose(_) => TokenKind::SelfClose,
        TokenModel::Close => TokenKind::Close,
        TokenModel::Text(_) => TokenKind::TextLike,
        TokenModel::BadText(_) => TokenKind::TextLike,
        TokenModel::Misc => TokenKind::Misc,
        TokenModel::End => TokenKind::End,
        TokenModel::Fault(_) => TokenKind::Fault,
    }
}

/// Whether an attribute list and its model agree.
pub open spec fn attrs_match(r: Result<Vec<Attr>, String>, m: Result<Seq<AttrModel>, Seq<char>>) -> bool {
    match (r, m) {
        (Ok(v), Ok(s)) => v@.map_values(|a: Attr| a@) == s,
        (Err(e), Err(msg)) => e@ == msg,
        _ => false,
    }
}

/// Relies on quick_xml's Reader::from_reader and Reader::trim_text: a
/// lexer over (a copy of) the byte slice that elides whitespace-only
/// text events and trims surrounding whitespace from the rest. Reading
/// consumes the bytes and nothing else, so the stream it will yield is
/// `tokens_of` of them: non-empty, with its one terminal token last.
#[verifier::external_body]
fn new_lexer(data: &[u8]) -> (lx: Lexer)
    ensures
        lexer_input(lx) == data@,
        lexer_pos(lx) == 0,
        tokens_of(lexer_input(lx)).len() > 0,
        is_terminal(tokens_of(lexer_input(lx)).last()),
        forall|k: int|
            0 <= k < tokens_of(lexer_input(lx)).len() - 1 ==> !is_terminal(
                #[trigger] tokens_of(lexer_input(lx))[k],
            ),
{
    let mut reader = XmlReader::from_reader(std::io::Cursor::new(data.to_vec()));
    reader.trim_text(true);
    Lexer { reader, buf: Vec::new(), cur: Ok(XmlEvent::Eof) }
}

/// Relies on quick_xml's Reader::read_event and Event::into_owned: read
/// the next lexical event (or the read error's message) into the lexer,
/// advancing its position by one.
#[verifier::external_body]
fn fetch(lx: &mut Lexer)
    ensures
        lexer_input(*final(lx)) == lexer_input(*old(lx)),
        lexer_pos(*final(lx)) == lexer_pos(*old(lx)) + 1,
{
    lx.buf.clear();
    lx.cur = match lx.reader.read_event(&mut lx.buf) {
        Ok(e) => Ok(e.into_owned()),
        Err(er) => Err(format!("{}", er)),
    };
}

/// Relies on the variants of quick_xml's Event: which kind of token the
/// current event is. Declarations, comments, processing instructions and
/// doctypes are ignorable markup.
#[verifier::external_body]
fn cur_kind(lx: &Lexer) -> (k: TokenKind)
    ensures
        1 <= lexer_pos(*lx) <= tokens_of(lexer_input(*lx)).len() ==> k == kind_of(
            tokens_of(lexer_input(*lx))[lexer_pos(*lx) - 1],
        ),
{
    match &lx.cur {
        Err(_) => TokenKind::Fault,
        Ok(XmlEvent::Start(_)) => TokenKind::Open,
        Ok(XmlEvent::Empty(_)) => TokenKind::SelfClose,
        Ok(XmlEvent::End(_)) => TokenKind::Close,
        Ok(XmlEvent::Text(_)) | Ok(XmlEvent::CData(_)) => TokenKind::TextLike,
        Ok(XmlEvent::Eof) => TokenKind::End,
        Ok(_) => TokenKind::Misc,
    }
}

/// Relies on quick_xml's BytesText::unescape_and_decode (text) and
/// Reader::decode (CDATA, no entity resolution inside CDATA): the
/// current event's content or failed-decode message — for a fault
/// event, the read error's message.
#[verifier::external_body]
fn cur_text(lx: &Lexer) -> (r: Result<String, String>)
    ensures
        1 <= lexer_pos(*lx) <= tokens_of(lexer_input(*lx)).len() ==> match (
            tokens_of(lexer_input(*lx))[lexer_pos(*lx) - 1],
            r,
        ) {
            (TokenModel::Text(s), Ok(v)) => v@ == s,
            (TokenModel::BadText(m), Err(e)) => e@ == m,
            (TokenModel::Fault(m), Err(e)) => e@ == m,
            (TokenModel::Text(_), Err(_)) => false,
            (TokenModel::BadText(_), Ok(_)) => false,
            (TokenModel::Fault(_), Ok(_)) => false,
            _ => true,
        },
{
    match &lx.cur {
        Err(m) => Err(m.clone()),
        Ok(XmlEvent::Text(t)) => t.unescape_and_decode(&lx.reader).map_err(|er| format!("{}", er)),
        Ok(XmlEvent::CData(t)) => match lx.reader.decode(t) {
            Ok(s) => Ok(s.to_string()),
            Err(er) => Err(format!("{}", er)),
        },
        _ => Ok(String::new()),
    }
}

/// Relies on quick_xml's BytesStart::local_name and BytesStart::name:
/// the current tag's namespace-stripped and fully qualified names,
/// decoded leniently.
#[verifier::external_body]
fn cur_tag_names(lx: &Lexer) -> (r: (String, String))
    ensures
        1 <= lexer_pos(*lx) <= tokens_of(lexer_input(*lx)).len() ==> match tokens_of(
            lexer_input(*lx),
        )[lexer_pos(*lx) - 1] {
            TokenModel::Open(t) => r.0@ == t.local && r.1@ == t.full,
            TokenModel::SelfClose(t) => r.0@ == t.local && r.1@ == t.full,
            _ => true,
        },
{
    match &lx.cur {
        Ok(XmlEvent::Start(e)) | Ok(XmlEvent::Empty(e)) => (
            String::from_utf8_lossy(e.local_name()).into_owned(),
            String::from_utf8_lossy(e.name()).into_owned(),
        ),
        _ => (String::new(), String::new()),
    }
}

/// Relies on quick_xml's BytesStart::attributes, Attributes::next and
/// Attribute::unescape_and_decode_value: the current tag's attributes,
/// keys decoded leniently and values unescaped, each value carrying its
/// decode failure if it had one — or the message of a malformed
/// attribute list.
#[verifier::external_body]
fn cur_tag_attrs(lx: &Lexer) -> (r: Result<Vec<Attr>, String>)
    ensures
        1 <= lexer_pos(*lx) <= tokens_of(lexer_input(*lx)).len() ==> match tokens_of(
            lexer_input(*lx),
        )[lexer_pos(*lx) - 1] {
            TokenModel::Open(t) => attrs_match(r, t.attrs),
            TokenModel::SelfClose(t) => attrs_match(r, t.attrs),
            _ => true,
        },
{
    let e = match &lx.cur {
        Ok(XmlEvent::Start(e)) | Ok(XmlEvent::Empty(e)) => e,
        _ => return Ok(Vec::new()),
    };
    let mut attrs: Vec<Attr> = Vec::new();
    for a in e.attributes() {
        let a = match a { Ok(a) => a, Err(er) => return Err(format!("{}", er)) };
        let value = a.unescape_and_decode_value(&lx.reader).map_err(|er| format!("{}", er));
        attrs.push(Attr { key: String::from_utf8_lossy(a.key).into_owned(), value });
    }
    Ok(attrs)
}

/// Read a whole byte stream into its token sequence, `tokens_of(data@)`:
/// events are read until the terminal one, each assembled into its
/// plain-value token.
pub fn tokenize(data: &[u8]) -> (r: Vec<XmlToken>)
    ensures
        toks(r@) == tokens_of(data@),
{
    let ghost full = tokens_of(data@);
    let mut lx = new_lexer(data);
    let mut out: Vec<XmlToken> = Vec::new();
    proof {
        assert(toks(out@) =~= full.take(0));
    }
    loop
        invariant
            lexer_input(lx) == data@,
            full == tokens_of(data@),
            full.len() > 0,
            is_terminal(full.last()),
            forall|k: int| 0 <= k < full.len() - 1 ==> !is_terminal(#[trigger] full[k]),
            lexer_pos(lx) == out@.len(),
            out@.len() < full.len(),
            toks(out@) == full.take(out@.len() as int),
        decreases full.len() - out@.len(),
    {
        let ghost pos: int = lexer_pos(lx);
        fetch(&mut lx);
        let kind = cur_kind(&lx);
        let tok: XmlToken = match kind {
            TokenKind::Open => {
                let names = cur_tag_names(&lx);
                let attrs = cur_tag_attrs(&lx);
                XmlToken::Open(Tag { local: names.0, full: names.1, attrs })
            },
            TokenKind::SelfClose => {
                let names = cur_tag_names(&lx);
                let attrs = cur_tag_attrs(&lx);
                XmlToken::SelfClose(Tag { local: names.0, full: names.1, attrs })
            },
            TokenKind::Close => XmlToken::Close,
            TokenKind::TextLike => match cur_text(&lx) {
                Ok(s) => XmlToken::Text(s),
                Err(m) => XmlToken::BadText(m),
            },
            TokenKind::Misc => XmlToken::Misc,
            TokenKind::End => XmlToken::End,
            TokenKind::Fault => match cur_text(&lx) {
                Err(m) => XmlToken::Fault(m),
                Ok(s) => {
                    proof {
                        assert(false);
                    }
                    XmlToken::Fault(s)
                },
            },
        };
        proof {
            assert(tok@ == full[pos]);
        }
        let done = match &tok {
            XmlToken::End => true,
            XmlToken::Fault(_) => true,
            _ => false,
        };
        let ghost pre = out@;
        out.push(tok);
        proof {
            assert(toks(out@) =~= toks(pre).push(out@.last()@));
            assert(toks(out@) =~= full.take(out@.len() as int));
        }
        if done {
            proof {
                assert(out@.len() == full.len());
                assert(toks(out@) =~= full);
            }
            return out;
        }
    }
}

/// Whether `r` is exactly the parse of the token sequence `ts`.
pub open spec fn parse_outcome_of(ts: Seq<TokenModel>, r: Result<RSS, FeedError>) -> bool {
    match r {
        Ok(f) => spec_parse(ts) == Ok::<FeedModel, FeedErrorModel>(f@),
        Err(e) => spec_parse(ts) == Err::<FeedModel, FeedErrorModel>(e@),
    }
}

/// Parse a byte stream holding a feed in any of the supported dialects:
/// the result is exactly the parse of the stream's token sequence.
pub fn parse(data: &[u8]) -> (r: Result<RSS, FeedError>)
    ensures
        parse_outcome_of(tokens_of(data@), r),
{
    let tokens = tokenize(data);
    parse_tokens(&tokens)
}

} // verus!

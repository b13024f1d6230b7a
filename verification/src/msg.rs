//! Presentation helpers: splitting a list of formatted lines into
//! messages that fit the transport's length cap, and escaping text for a
//! markup-sensitive rendering target.

use vstd::prelude::*;
use vstd::string::{StrSliceExecFns, StringExecFns};
use vstd::utf8::encode_utf8;

verus! {

/// The longest message the transport accepts, in bytes.
pub const TELEGRAM_MAX_MSG_LEN: usize = 4096;

/// The UTF-8 byte length of a string.
pub open spec fn byte_len(s: Seq<char>) -> nat {
    encode_utf8(s).len()
}

/// The messages that splitting `lines` under the length cap yields,
/// starting from the already-finished messages `msgs` and the message
/// `cur` under construction: a line whose byte length added to the
/// current message's would exceed the cap starts a new message; otherwise
/// it is appended to the current message after a newline. (The newline's
/// own byte is not counted against the cap, so a message may exceed it by
/// the newlines it holds.)
pub open spec fn spec_split(
    msgs: Seq<Seq<char>>,
    cur: Seq<char>,
    lines: Seq<Seq<char>>,
    i: int,
) -> Seq<Seq<char>>
    decreases lines.len() - i,
{
    if i < 0 || i >= lines.len() {
        msgs.push(cur)
    } else {
        let line = lines[i];
        if byte_len(cur) + byte_len(line) > TELEGRAM_MAX_MSG_LEN {
            spec_split(msgs.push(cur), line, lines, i + 1)
        } else {
            spec_split(msgs, cur + "\n"@ + line, lines, i + 1)
        }
    }
}

/// The messages a head line and the formatted lines after it split into.
pub open spec fn spec_split_msgs(head: Seq<char>, lines: Seq<Seq<char>>) -> Seq<Seq<char>> {
    spec_split(Seq::empty(), head, lines, 0)
}

/// Split a list of formatted lines into messages that fit the length cap:
/// the head starts the first message, and each line either joins the
/// current message after a newline or, when its byte length added to the
/// current message's would exceed the cap, starts a new message.
pub fn format_and_split_msgs(head: String, lines: &Vec<String>) -> (r: Vec<String>)
    ensures
        r@.map_values(|s: String| s@) == spec_split_msgs(head@, lines@.map_values(|s: String| s@)),
{
    let ghost h0 = head@;
    let ghost lvs = lines@.map_values(|s: String| s@);
    let mut msgs: Vec<String> = Vec::new();
    let mut cur = head;
    let mut i: usize = 0;
    proof {
        assert(msgs@.map_values(|s: String| s@) =~= Seq::<Seq<char>>::empty());
    }
    while i < lines.len()
        invariant
            0 <= i <= lines@.len(),
            lvs == lines@.map_values(|s: String| s@),
            spec_split_msgs(h0, lvs) == spec_split(
                msgs@.map_values(|s: String| s@),
                cur@,
                lvs,
                i as int,
            ),
        decreases lines@.len() - i,
    {
        proof {
            assert(lvs[i as int] == lines@[i as int]@);
        }
        let line = &lines[i];
        let cl = cur.as_str().as_bytes().len() as u128;
        let ll = line.as_str().as_bytes().len() as u128;
        if cl + ll > TELEGRAM_MAX_MSG_LEN as u128 {
            let ghost mpre = msgs@;
            msgs.push(cur);
            cur = line.clone();
            proof {
                assert(msgs@.map_values(|s: String| s@) =~= mpre.map_values(
                    |s: String| s@,
                ).push(msgs@.last()@));
            }
        } else {
            let ghost cpre = cur@;
            cur.append("\n");
            cur.append(line.as_str());
            proof {
                assert(cur@ =~= cpre + "\n"@ + lvs[i as int]);
            }
        }
        i = i + 1;
    }
    let ghost mpre = msgs@;
    msgs.push(cur);
    proof {
        assert(msgs@.map_values(|s: String| s@) =~= mpre.map_values(
            |s: String| s@,
        ).push(msgs@.last()@));
    }
    msgs
}

/// The escaped form of one character for an HTML-like target: `< > & "`
/// become their entities, anything else stands for itself.
pub open spec fn escape_char(c: char) -> Seq<char> {
    if c == '<' {
        "&lt;"@
    } else if c == '>' {
        "&gt;"@
    } else if c == '&' {
        "&amp;"@
    } else if c == '"' {
        "&quot;"@
    } else {
        seq![c]
    }
}

/// The escaped form of a string for an HTML-like target.
pub open spec fn escape_seq(s: Seq<char>) -> Seq<char>
    decreases s.len(),
{
    if s.len() == 0 {
        Seq::empty()
    } else {
        escape_seq(s.drop_last()) + escape_char(s.last())
    }
}

/// A piece of text destined for a markup-sensitive rendering target:
/// `to_html` yields it with `< > & "` escaped.
pub struct Escape<'a>(pub &'a str);

impl<'a> Escape<'a> {
    /// The text with `< > & "` replaced by their entities.
    pub fn to_html(&self) -> (r: String)
        ensures
            r@ == escape_seq(self.0@),
    {
        let s = self.0;
        let n = s.unicode_len();
        let mut out = String::new();
        let mut i: usize = 0;
        while i < n
            invariant
                0 <= i <= s@.len(),
                n == s@.len(),
                out@ == escape_seq(s@.take(i as int)),
            decreases s@.len() - i,
        {
            let c = s.get_char(i);
            if c == '<' {
                out.append("&lt;");
            } else if c == '>' {
                out.append("&gt;");
            } else if c == '&' {
                out.append("&amp;");
            } else if c == '"' {
                out.append("&quot;");
            } else {
                let piece = s.substring_char(i, i + 1);
                proof {
                    assert(piece@ =~= seq![s@[i as int]]);
                }
                out.append(piece);
            }
            proof {
                assert(s@.take(i + 1 as int).drop_last() =~= s@.take(i as int));
                assert(s@.take(i + 1 as int).last() == s@[i as int]);
            }
            i = i + 1;
        }
        proof {
            assert(s@.take(n as int) =~= s@);
        }
        out
    }
}

} // verus!

//! Messages between clients and the relay: what a client sends, what the
//! relay answers, and the JSON text of an answer.

use vstd::prelude::*;
use vstd::string::StringExecFns;
use crate::event::Event;
use crate::filter::Filter;
use crate::text::{decimal, hex_digit, push_decimal};

verus! {

/// The parts of an `AUTH` message the relay reads.
#[derive(Clone, Debug)]
pub struct AuthPayload {
    /// `message`, where it is a string.
    pub message: Option<String>,
    /// `signature`, where it is a string.
    pub signature: Option<String>,
}

/// A subscription request: its id and its filters.
#[derive(Clone, Debug)]
pub struct ReqPayload {
    pub sub_id: String,
    pub filters: Vec<Filter>,
}

/// A message from a client.
#[derive(Clone, Debug)]
pub enum IncomingMessage {
    /// `["EVENT", <event>]`
    Event(Event),
    /// `["REQ", <sub_id>, <filter>...]`
    Req(ReqPayload),
    /// `["CLOSE", <sub_id>]`
    Close(String),
    /// `["AUTH", <event>]`, carrying a SIWE message and its signature.
    Auth(AuthPayload),
    /// `["COUNT", <sub_id>, <filter>]`
    Count(ReqPayload),
    /// Any other message.
    Unknown,
}

/// The name of a message's type.
pub open spec fn incoming_name(m: IncomingMessage) -> Seq<char> {
    match m {
        IncomingMessage::Event(_) => "EVENT"@,
        IncomingMessage::Req(_) => "REQ"@,
        IncomingMessage::Close(_) => "CLOSE"@,
        IncomingMessage::Auth(_) => "AUTH"@,
        IncomingMessage::Count(_) => "COUNT"@,
        IncomingMessage::Unknown => "UNKNOWN"@,
    }
}

impl IncomingMessage {
    /// The name of the message's type: `EVENT`, `REQ`, `CLOSE`, `AUTH`,
    /// `COUNT` or `UNKNOWN`.
    pub fn name(&self) -> (s: String)
        ensures
            s@ == incoming_name(*self),
    {
        match self {
            IncomingMessage::Event(_) => String::from_str("EVENT"),
            IncomingMessage::Req(_) => String::from_str("REQ"),
            IncomingMessage::Close(_) => String::from_str("CLOSE"),
            IncomingMessage::Auth(_) => String::from_str("AUTH"),
            IncomingMessage::Count(_) => String::from_str("COUNT"),
            IncomingMessage::Unknown => String::from_str("UNKNOWN"),
        }
    }
}

/// A message from the relay to a client.
#[derive(Clone, Debug)]
pub enum OutgoingMessage {
    /// `["EVENT", <event>]`
    Event(Event),
    /// `["EOSE", <sub_id>]`
    Eose(String),
    /// `["NOTICE", <message>]`
    Notice(String),
    /// `["OK", <event id>, <status>, <message>]`
    OkReply { id: String, status: bool, message: String },
    /// `["COUNT", <sub_id>, <count>]`
    Count { sub_id: String, count: u64 },
    /// `["CLOSED", <sub_id>, <message>]`
    Closed { sub_id: String, message: String },
}

/// The JSON escape of one character: quote, backslash and control
/// characters are escaped (the latter as `\u00` and two lowercase hex
/// digits, but for the five with a short form); all else stands as it is.
pub open spec fn json_escape(c: char) -> Seq<char> {
    if c == '"' {
        seq!['\\', '"']
    } else if c == '\\' {
        seq!['\\', '\\']
    } else if c == '\u{8}' {
        seq!['\\', 'b']
    } else if c == '\t' {
        seq!['\\', 't']
    } else if c == '\n' {
        seq!['\\', 'n']
    } else if c == '\u{c}' {
        seq!['\\', 'f']
    } else if c == '\r' {
        seq!['\\', 'r']
    } else if (c as u32) < 0x20 {
        seq!['\\', 'u', '0', '0', hex_digit((c as u32 / 16) as nat), hex_digit((c as u32 % 16) as nat)]
    } else {
        seq![c]
    }
}

/// The escaped characters of a string.
pub open spec fn json_escaped(s: Seq<char>) -> Seq<char>
    decreases s.len(),
{
    if s.len() == 0 {
        Seq::empty()
    } else {
        json_escaped(s.drop_last()) + json_escape(s.last())
    }
}

/// The JSON string literal of a text: the escaped text between quotes.
pub open spec fn json_string(s: Seq<char>) -> Seq<char> {
    seq!['"'] + json_escaped(s) + seq!['"']
}

/// The value of a hex digit character, either case.
pub open spec fn hex_char_value(c: char) -> Option<nat> {
    if '0' <= c && c <= '9' {
        Some(((c as u32) - 48) as nat)
    } else if 'a' <= c && c <= 'f' {
        Some(((c as u32) - 87) as nat)
    } else if 'A' <= c && c <= 'F' {
        Some(((c as u32) - 55) as nat)
    } else {
        None
    }
}

/// The character that the four hex digits of a `\u` escape stand for.
pub open spec fn json_unicode_escape(t: Seq<char>) -> Option<char> {
    match (hex_char_value(t[0]), hex_char_value(t[1]), hex_char_value(t[2]), hex_char_value(t[3])) {
        (Some(a), Some(b), Some(c), Some(d)) => Some(((a * 4096 + b * 256 + c * 16 + d) as u32) as char),
        _ => None,
    }
}

/// `c` in front of the text read so far, where reading succeeded.
pub open spec fn json_read_on(c: char, r: Option<(Seq<char>, Seq<char>)>) -> Option<
    (Seq<char>, Seq<char>),
> {
    match r {
        Some((d, rest)) => Some((seq![c] + d, rest)),
        None => None,
    }
}

/// Reads the inside of a JSON string literal, after its opening quote, as
/// the JSON grammar gives it: the text it stands for, and what follows the
/// closing quote; none where the literal is not well formed.
pub open spec fn json_string_body(t: Seq<char>) -> Option<(Seq<char>, Seq<char>)>
    decreases t.len(),
{
    if t.len() == 0 {
        None
    } else if t[0] == '"' {
        Some((Seq::empty(), t.skip(1)))
    } else if t[0] == '\\' {
        if t.len() < 2 {
            None
        } else if t[1] == '"' || t[1] == '\\' || t[1] == '/' {
            json_read_on(t[1], json_string_body(t.skip(2)))
        } else if t[1] == 'b' {
            json_read_on('\u{8}', json_string_body(t.skip(2)))
        } else if t[1] == 'f' {
            json_read_on('\u{c}', json_string_body(t.skip(2)))
        } else if t[1] == 'n' {
            json_read_on('\n', json_string_body(t.skip(2)))
        } else if t[1] == 'r' {
            json_read_on('\r', json_string_body(t.skip(2)))
        } else if t[1] == 't' {
            json_read_on('\t', json_string_body(t.skip(2)))
        } else if t[1] == 'u' && t.len() >= 6 {
            match json_unicode_escape(t.subrange(2, 6)) {
                Some(c) => json_read_on(c, json_string_body(t.skip(6))),
                None => None,
            }
        } else {
            None
        }
    } else if (t[0] as u32) < 0x20 {
        None
    } else {
        json_read_on(t[0], json_string_body(t.skip(1)))
    }
}

/// Reads a JSON string literal at the start of `t`: the text it stands for
/// and what follows it.
pub open spec fn json_string_value(t: Seq<char>) -> Option<(Seq<char>, Seq<char>)> {
    if t.len() > 0 && t[0] == '"' {
        json_string_body(t.skip(1))
    } else {
        None
    }
}

/// Escaping distributes over concatenation.
proof fn lemma_json_escaped_concat(a: Seq<char>, b: Seq<char>)
    ensures
        json_escaped(a + b) == json_escaped(a) + json_escaped(b),
    decreases b.len(),
{
    if b.len() == 0 {
        assert(a + b =~= a);
        assert(json_escaped(b) =~= Seq::<char>::empty());
        assert(json_escaped(a) + json_escaped(b) =~= json_escaped(a));
    } else {
        lemma_json_escaped_concat(a, b.drop_last());
        assert((a + b).drop_last() =~= a + b.drop_last());
        assert((a + b).last() == b.last());
        assert(json_escaped(a + b) =~= json_escaped(a) + json_escaped(b));
    }
}

/// A hex digit reads back as its value.
proof fn lemma_hex_digit_value(d: nat)
    requires
        d < 16,
    ensures
        hex_char_value(hex_digit(d)) == Some(d),
{
}

/// Escaping one character gives its escape.
proof fn lemma_json_escaped_single(c: char)
    ensures
        json_escaped(seq![c]) == json_escape(c),
{
    assert(seq![c].drop_last() =~= Seq::<char>::empty());
    assert(json_escaped(seq![c].drop_last()) =~= Seq::<char>::empty());
    assert(seq![c].last() == c);
    assert(Seq::<char>::empty() + json_escape(c) =~= json_escape(c));
}

/// Reading the escape of a character, then more, gives the character in
/// front of what the rest reads as.
#[verifier::rlimit(50)]
proof fn lemma_json_escape_step(c: char, after: Seq<char>)
    ensures
        json_string_body(json_escape(c) + after) == json_read_on(c, json_string_body(after)),
{
    let e = json_escape(c);
    let t = e + after;
    if c == '"' || c == '\\' || c == '\u{8}' || c == '\t' || c == '\n' || c == '\u{c}' || c
        == '\r' {
        assert(e.len() == 2);
        assert(t[0] == '\\');
        assert(t[1] == e[1]);
        assert(t.skip(2) =~= after);
    } else if (c as u32) < 0x20 {
        let hi = (c as u32 / 16) as nat;
        let lo = (c as u32 % 16) as nat;
        lemma_hex_digit_value(hi);
        lemma_hex_digit_value(lo);
        assert(e =~= seq!['\\', 'u', '0', '0', hex_digit(hi), hex_digit(lo)]);
        assert(t[0] == '\\' && t[1] == 'u');
        let q = t.subrange(2, 6);
        assert(q =~= seq!['0', '0', hex_digit(hi), hex_digit(lo)]);
        assert(hex_char_value(q[0]) == Some(0nat));
        assert(hex_char_value(q[1]) == Some(0nat));
        let v = (0nat * 4096 + 0nat * 256 + hi * 16 + lo) as u32;
        assert(v == c as u32);
        vstd::utf8::char_u32_cast(c, v);
        assert(json_unicode_escape(q) == Some(c));
        assert(t.skip(6) =~= after);
    } else {
        assert(e =~= seq![c]);
        assert(t[0] == c);
        assert(t.skip(1) =~= after);
    }
}

/// Reading an escaped text back, followed by a closing quote, gives the
/// text and what follows the quote.
proof fn lemma_json_escaped_reads_back(s: Seq<char>, rest: Seq<char>)
    ensures
        json_string_body(json_escaped(s) + seq!['"'] + rest) == Some((s, rest)),
    decreases s.len(),
{
    let t = json_escaped(s) + seq!['"'] + rest;
    if s.len() == 0 {
        assert(json_escaped(s) =~= Seq::<char>::empty());
        assert(t =~= seq!['"'] + rest);
        assert(t.skip(1) =~= rest);
    } else {
        let c = s[0];
        let tail = s.drop_first();
        lemma_json_escaped_concat(seq![c], tail);
        assert(seq![c] + tail =~= s);
        lemma_json_escaped_single(c);
        lemma_json_escaped_reads_back(tail, rest);
        let after = json_escaped(tail) + seq!['"'] + rest;
        assert(t =~= json_escape(c) + after);
        lemma_json_escape_step(c, after);
        assert(seq![c] + tail =~= s);
    }
}

/// The JSON string literal of a text reads back as the text, whatever
/// follows it.
pub proof fn lemma_json_string_reads_back(s: Seq<char>, rest: Seq<char>)
    ensures
        json_string_value(json_string(s) + rest) == Some((s, rest)),
{
    lemma_json_escaped_reads_back(s, rest);
    let t = json_string(s) + rest;
    assert(t =~= seq!['"'] + (json_escaped(s) + seq!['"'] + rest));
    assert(t.skip(1) =~= json_escaped(s) + seq!['"'] + rest);
}

/// Calls `serde_json::to_string` on a string slice, which writes the text
/// between quotes and escapes, byte by byte, the quote, the backslash and
/// the bytes below 0x20, as its `format_escaped_str` shows. Serialising a
/// string slice into memory does not fail, so the error arm is never taken.
#[verifier::external_body]
pub(crate) fn json_quote(s: &str) -> (r: String)
    ensures
        r@ == json_string(s@),
{
    match serde_json::to_string(s) {
        Ok(t) => t,
        Err(_) => String::new(),
    }
}

/// The JSON text of an answer: a Nostr array led by the answer's name.
pub open spec fn outgoing_text(m: OutgoingMessage) -> Seq<char> {
    match m {
        OutgoingMessage::Event(e) => "[\"EVENT\","@ + e.raw@ + "]"@,
        OutgoingMessage::Eose(s) => "[\"EOSE\","@ + json_string(s@) + "]"@,
        OutgoingMessage::Notice(s) => "[\"NOTICE\","@ + json_string(s@) + "]"@,
        OutgoingMessage::OkReply { id, status, message } => "[\"OK\","@ + json_string(id@) + ","@
            + (if status {
            "true"@
        } else {
            "false"@
        }) + ","@ + json_string(message@) + "]"@,
        OutgoingMessage::Count { sub_id, count } => "[\"COUNT\","@ + json_string(sub_id@) + ","@
            + decimal(count as nat) + "]"@,
        OutgoingMessage::Closed { sub_id, message } => "[\"CLOSED\","@ + json_string(sub_id@)
            + ","@ + json_string(message@) + "]"@,
    }
}

/// The text of a `CLOSED` answer is a JSON array led by `"CLOSED"` whose
/// string elements read back, as JSON string literals, as the subscription
/// id and the message, whatever they hold.
pub proof fn law_closed_text_reads_back(sub_id: String, message: String)
    ensures
        ({
            let t = outgoing_text(OutgoingMessage::Closed { sub_id, message });
            let h = "[\"CLOSED\","@;
            &&& h.is_prefix_of(t)
            &&& json_string_value(t.skip(h.len() as int)) matches Some((a, r)) && a == sub_id@
                && r.len() > 0 && r[0] == ',' && json_string_value(r.skip(1)) == Some(
                (message@, "]"@),
            )
        }),
{
    reveal_strlit(",");
    let h = "[\"CLOSED\","@;
    let rest = ","@ + json_string(message@) + "]"@;
    let t = outgoing_text(OutgoingMessage::Closed { sub_id, message });
    assert(t =~= h + (json_string(sub_id@) + rest));
    assert(h =~= t.subrange(0, h.len() as int));
    assert(t.skip(h.len() as int) =~= json_string(sub_id@) + rest);
    lemma_json_string_reads_back(sub_id@, rest);
    assert(rest.skip(1) =~= json_string(message@) + "]"@);
    lemma_json_string_reads_back(message@, "]"@);
}

/// The text of an `EOSE` answer is a JSON array led by `"EOSE"` whose
/// string element reads back as the subscription id.
pub proof fn law_eose_text_reads_back(sub_id: String)
    ensures
        ({
            let t = outgoing_text(OutgoingMessage::Eose(sub_id));
            let h = "[\"EOSE\","@;
            &&& h.is_prefix_of(t)
            &&& json_string_value(t.skip(h.len() as int)) == Some((sub_id@, "]"@))
        }),
{
    let h = "[\"EOSE\","@;
    let t = outgoing_text(OutgoingMessage::Eose(sub_id));
    assert(t =~= h + (json_string(sub_id@) + "]"@));
    assert(h =~= t.subrange(0, h.len() as int));
    assert(t.skip(h.len() as int) =~= json_string(sub_id@) + "]"@);
    lemma_json_string_reads_back(sub_id@, "]"@);
}

/// The text of a `NOTICE` answer is a JSON array led by `"NOTICE"` whose
/// string element reads back as the message.
pub proof fn law_notice_text_reads_back(message: String)
    ensures
        ({
            let t = outgoing_text(OutgoingMessage::Notice(message));
            let h = "[\"NOTICE\","@;
            &&& h.is_prefix_of(t)
            &&& json_string_value(t.skip(h.len() as int)) == Some((message@, "]"@))
        }),
{
    let h = "[\"NOTICE\","@;
    let t = outgoing_text(OutgoingMessage::Notice(message));
    assert(t =~= h + (json_string(message@) + "]"@));
    assert(h =~= t.subrange(0, h.len() as int));
    assert(t.skip(h.len() as int) =~= json_string(message@) + "]"@);
    lemma_json_string_reads_back(message@, "]"@);
}

/// The text of an `OK` answer is a JSON array led by `"OK"` whose string
/// elements read back as the event id and the message, with the status
/// between them.
pub proof fn law_ok_text_reads_back(id: String, status: bool, message: String)
    ensures
        ({
            let t = outgoing_text(OutgoingMessage::OkReply { id, status, message });
            let h = "[\"OK\","@;
            let sep = ","@ + (if status {
                "true"@
            } else {
                "false"@
            }) + ","@;
            &&& h.is_prefix_of(t)
            &&& json_string_value(t.skip(h.len() as int)) matches Some((a, r)) && a == id@
                && sep.is_prefix_of(r) && json_string_value(r.skip(sep.len() as int)) == Some(
                (message@, "]"@),
            )
        }),
{
    let h = "[\"OK\","@;
    let sep = ","@ + (if status {
        "true"@
    } else {
        "false"@
    }) + ","@;
    let rest = sep + (json_string(message@) + "]"@);
    let t = outgoing_text(OutgoingMessage::OkReply { id, status, message });
    assert(t =~= h + (json_string(id@) + rest));
    assert(h =~= t.subrange(0, h.len() as int));
    assert(t.skip(h.len() as int) =~= json_string(id@) + rest);
    lemma_json_string_reads_back(id@, rest);
    assert(sep =~= rest.subrange(0, sep.len() as int));
    assert(rest.skip(sep.len() as int) =~= json_string(message@) + "]"@);
    lemma_json_string_reads_back(message@, "]"@);
}

/// The text of a `COUNT` answer is a JSON array led by `"COUNT"` whose
/// string element reads back as the subscription id, followed by the
/// count.
pub proof fn law_count_text_reads_back(sub_id: String, count: u64)
    ensures
        ({
            let t = outgoing_text(OutgoingMessage::Count { sub_id, count });
            let h = "[\"COUNT\","@;
            &&& h.is_prefix_of(t)
            &&& json_string_value(t.skip(h.len() as int)) == Some(
                (sub_id@, ","@ + decimal(count as nat) + "]"@),
            )
        }),
{
    let h = "[\"COUNT\","@;
    let rest = ","@ + decimal(count as nat) + "]"@;
    let t = outgoing_text(OutgoingMessage::Count { sub_id, count });
    assert(t =~= h + (json_string(sub_id@) + rest));
    assert(h =~= t.subrange(0, h.len() as int));
    assert(t.skip(h.len() as int) =~= json_string(sub_id@) + rest);
    lemma_json_string_reads_back(sub_id@, rest);
}

impl OutgoingMessage {
    /// `OK` for event `id`, with its status and a message.
    pub fn ok(id: &str, status: bool, message: &str) -> (m: Self)
        ensures
            m matches OutgoingMessage::OkReply { id: i, status: s, message: t } && i@ == id@ && s
                == status && t@ == message@,
    {
        OutgoingMessage::OkReply { id: id.to_owned(), status, message: message.to_owned() }
    }

    /// A notice.
    pub fn notice(message: &str) -> (m: Self)
        ensures
            m matches OutgoingMessage::Notice(t) && t@ == message@,
    {
        OutgoingMessage::Notice(message.to_owned())
    }

    /// End of stored events for subscription `sub_id`.
    pub fn eose(sub_id: &str) -> (m: Self)
        ensures
            m matches OutgoingMessage::Eose(t) && t@ == sub_id@,
    {
        OutgoingMessage::Eose(sub_id.to_owned())
    }

    /// Subscription `sub_id` closed, with a message.
    pub fn closed(sub_id: &str, message: &str) -> (m: Self)
        ensures
            m matches OutgoingMessage::Closed { sub_id: s, message: t } && s@ == sub_id@ && t@
                == message@,
    {
        OutgoingMessage::Closed { sub_id: sub_id.to_owned(), message: message.to_owned() }
    }

    /// The count of events for subscription `sub_id`.
    pub fn count(sub_id: &str, count: u64) -> (m: Self)
        ensures
            m matches OutgoingMessage::Count { sub_id: s, count: c } && s@ == sub_id@ && c
                == count,
    {
        OutgoingMessage::Count { sub_id: sub_id.to_owned(), count }
    }

    /// The message as WebSocket text: a JSON array of the message's name and
    /// its fields, such as `["OK","e1",true,""]`.
    pub fn to_text(&self) -> (t: String)
        ensures
            t@ == outgoing_text(*self),
    {
        match self {
            OutgoingMessage::Event(e) => {
                let mut t = String::from_str("[\"EVENT\",");
                t.append(e.raw.as_str());
                t.append("]");
                t
            },
            OutgoingMessage::Eose(s) => {
                let mut t = String::from_str("[\"EOSE\",");
                t.append(json_quote(s.as_str()).as_str());
                t.append("]");
                t
            },
            OutgoingMessage::Notice(s) => {
                let mut t = String::from_str("[\"NOTICE\",");
                t.append(json_quote(s.as_str()).as_str());
                t.append("]");
                t
            },
            OutgoingMessage::OkReply { id, status, message } => {
                let mut t = String::from_str("[\"OK\",");
                t.append(json_quote(id.as_str()).as_str());
                t.append(",");
                if *status {
                    t.append("true");
                } else {
                    t.append("false");
                }
                t.append(",");
                t.append(json_quote(message.as_str()).as_str());
                t.append("]");
                t
            },
            OutgoingMessage::Count { sub_id, count } => {
                let mut t = String::from_str("[\"COUNT\",");
                t.append(json_quote(sub_id.as_str()).as_str());
                t.append(",");
                push_decimal(&mut t, *count);
                t.append("]");
                t
            },
            OutgoingMessage::Closed { sub_id, message } => {
                let mut t = String::from_str("[\"CLOSED\",");
                t.append(json_quote(sub_id.as_str()).as_str());
                t.append(",");
                t.append(json_quote(message.as_str()).as_str());
                t.append("]");
                t
            },
        }
    }
}

/// The text of a SIWE challenge.
pub open spec fn challenge_text(
    domain: Seq<char>,
    uri: Seq<char>,
    chain_id: Seq<char>,
    nonce: Seq<char>,
    issued_at: Seq<char>,
) -> Seq<char> {
    domain + " wants you to sign in with your Ethereum account:\n\nURI: "@ + uri
        + "\nVersion: 1\nChain ID: "@ + chain_id + "\nNonce: "@ + nonce + "\nIssued At: "@
        + issued_at
}

/// Builds a SIWE challenge text with the chain id given as text.
pub fn challenge_with_chain(
    domain: &str,
    uri: &str,
    chain_id: &str,
    nonce: &str,
    issued_at: &str,
) -> (s: String)
    ensures
        s@ == challenge_text(domain@, uri@, chain_id@, nonce@, issued_at@),
{
    let mut s = domain.to_owned();
    s.append(" wants you to sign in with your Ethereum account:\n\nURI: ");
    s.append(uri);
    s.append("\nVersion: 1\nChain ID: ");
    s.append(chain_id);
    s.append("\nNonce: ");
    s.append(nonce);
    s.append("\nIssued At: ");
    s.append(issued_at);
    s
}

/// The SIWE challenge text for chain 1.
pub fn siwe_challenge_message(domain: &str, uri: &str, nonce: &str, issued_at: &str) -> (s: String)
    ensures
        s@ == challenge_text(domain@, uri@, "1"@, nonce@, issued_at@),
{
    challenge_with_chain(domain, uri, "1", nonce, issued_at)
}

} // verus!

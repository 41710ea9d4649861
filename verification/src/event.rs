//! Server-to-client events and their wire encoding.
//!
//! Every event a room broadcasts or a session sends is one JSON object
//! `{"type": ..., "value"?: ..., "username"?: ...}`; `value` is left out when
//! the event carries none, `username` when it is empty. The encoder and its
//! string escaping are verified against the spec functions below.

use vstd::prelude::*;

verus! {

/// The kind tag of a server-to-client event.
#[derive(Clone, Copy, PartialEq, Eq, Structural, Debug)]
pub enum EventKind {
    Join,
    Leave,
    Message,
    Error,
    UpdateRoomsList,
}

/// The tag string of an event kind, as it stands in the `"type"` field.
pub open spec fn spec_kind_tag(kind: EventKind) -> Seq<char> {
    match kind {
        EventKind::Join => "join"@,
        EventKind::Leave => "leave"@,
        EventKind::Message => "message"@,
        EventKind::Error => "error"@,
        EventKind::UpdateRoomsList => "update-rooms-list"@,
    }
}

fn kind_tag(kind: EventKind) -> (r: &'static str)
    ensures
        r@ == spec_kind_tag(kind),
{
    match kind {
        EventKind::Join => "join",
        EventKind::Leave => "leave",
        EventKind::Message => "message",
        EventKind::Error => "error",
        EventKind::UpdateRoomsList => "update-rooms-list",
    }
}

/// The lower-case hexadecimal digit of a value below 16.
pub open spec fn spec_hex_digit(n: int) -> char {
    if n == 0 {
        '0'
    } else if n == 1 {
        '1'
    } else if n == 2 {
        '2'
    } else if n == 3 {
        '3'
    } else if n == 4 {
        '4'
    } else if n == 5 {
        '5'
    } else if n == 6 {
        '6'
    } else if n == 7 {
        '7'
    } else if n == 8 {
        '8'
    } else if n == 9 {
        '9'
    } else if n == 10 {
        'a'
    } else if n == 11 {
        'b'
    } else if n == 12 {
        'c'
    } else if n == 13 {
        'd'
    } else if n == 14 {
        'e'
    } else {
        'f'
    }
}

fn hex_digit(n: u32) -> (c: char)
    requires
        n < 16,
    ensures
        c == spec_hex_digit(n as int),
{
    if n == 0 {
        '0'
    } else if n == 1 {
        '1'
    } else if n == 2 {
        '2'
    } else if n == 3 {
        '3'
    } else if n == 4 {
        '4'
    } else if n == 5 {
        '5'
    } else if n == 6 {
        '6'
    } else if n == 7 {
        '7'
    } else if n == 8 {
        '8'
    } else if n == 9 {
        '9'
    } else if n == 10 {
        'a'
    } else if n == 11 {
        'b'
    } else if n == 12 {
        'c'
    } else if n == 13 {
        'd'
    } else if n == 14 {
        'e'
    } else {
        'f'
    }
}

/// How one character stands inside a JSON string literal: quote, backslash
/// and the named control characters get a two-character escape, the other
/// control characters a `\u00..` escape, and everything else stands as is.
pub open spec fn spec_escape_char(c: char) -> Seq<char> {
    if c == '"' {
        seq!['\\', '"']
    } else if c == '\\' {
        seq!['\\', '\\']
    } else if c == '\u{8}' {
        seq!['\\', 'b']
    } else if c == '\t' {
        seq!['\\', 't']
    } else if c == '\n' {
        seq!['\\', 'n']
    } else if c == '\u{c}' {
        seq!['\\', 'f']
    } else if c == '\r' {
        seq!['\\', 'r']
    } else if (c as u32) < 0x20 {
        seq!['\\', 'u', '0', '0', spec_hex_digit((c as u32) as int / 16), spec_hex_digit(
            (c as u32) as int % 16,
        )]
    } else {
        seq![c]
    }
}

/// A whole string escaped for the inside of a JSON string literal.
pub open spec fn spec_escape(s: Seq<char>) -> Seq<char>
    decreases s.len(),
{
    if s.len() == 0 {
        Seq::<char>::empty()
    } else {
        spec_escape_char(s[0]) + spec_escape(s.drop_first())
    }
}

proof fn lemma_escape_snoc(s: Seq<char>, c: char)
    ensures
        spec_escape(s.push(c)) == spec_escape(s) + spec_escape_char(c),
    decreases s.len(),
{
    if s.len() == 0 {
        let empty = Seq::<char>::empty();
        assert(s.push(c).drop_first() =~= empty);
        assert(s.push(c)[0] == c);
        assert(spec_escape(s.push(c)) == spec_escape_char(c) + spec_escape(empty));
        assert(spec_escape(empty) =~= empty);
        assert(s =~= empty);
        assert(spec_escape_char(c) + empty =~= empty + spec_escape_char(c));
    } else {
        assert(s.push(c).drop_first() =~= s.drop_first().push(c));
        assert(s.push(c)[0] == s[0]);
        lemma_escape_snoc(s.drop_first(), c);
        assert(spec_escape(s.push(c)) == spec_escape_char(s[0]) + (spec_escape(s.drop_first())
            + spec_escape_char(c)));
        assert(spec_escape_char(s[0]) + (spec_escape(s.drop_first()) + spec_escape_char(c))
            =~= (spec_escape_char(s[0]) + spec_escape(s.drop_first())) + spec_escape_char(c));
    }
}

fn escape_chars(s: &str) -> (out: Vec<char>)
    ensures
        out@ == spec_escape(s@),
{
    let n = s.unicode_len();
    let mut out: Vec<char> = Vec::new();
    let mut i: usize = 0;
    while i < n
        invariant
            i <= n,
            n == s@.len(),
            out@ == spec_escape(s@.subrange(0, i as int)),
        decreases n - i,
    {
        let c = s.get_char(i);
        proof {
            lemma_escape_snoc(s@.subrange(0, i as int), c);
            assert(s@.subrange(0, i + 1 as int) =~= s@.subrange(0, i as int).push(c));
        }
        if c == '"' {
            out.push('\\');
            out.push('"');
        } else if c == '\\' {
            out.push('\\');
            out.push('\\');
        } else if c == '\u{8}' {
            out.push('\\');
            out.push('b');
        } else if c == '\t' {
            out.push('\\');
            out.push('t');
        } else if c == '\n' {
            out.push('\\');
            out.push('n');
        } else if c == '\u{c}' {
            out.push('\\');
            out.push('f');
        } else if c == '\r' {
            out.push('\\');
            out.push('r');
        } else if (c as u32) < 0x20 {
            let code = c as u32;
            out.push('\\');
            out.push('u');
            out.push('0');
            out.push('0');
            out.push(hex_digit(code / 16));
            out.push(hex_digit(code % 16));
        } else {
            out.push(c);
        }
        assert(out@ =~= spec_escape(s@.subrange(0, i as int)) + spec_escape_char(c));
        i += 1;
    }
    proof {
        assert(s@.subrange(0, n as int) =~= s@);
    }
    out
}

/// Relies on `String::from_iter` (through `Iterator::collect`): the string
/// built from a sequence of characters holds exactly those characters.
#[verifier::external_body]
fn chars_to_string(v: Vec<char>) -> (r: String)
    ensures
        r@ == v@,
{
    v.into_iter().collect()
}

/// The JSON text of one event: the `type` field always, `value` only when
/// one is carried, `username` only when non-empty, both escaped.
pub open spec fn spec_event_json(
    kind: EventKind,
    value: Option<Seq<char>>,
    username: Seq<char>,
) -> Seq<char> {
    "{\"type\":\""@ + spec_kind_tag(kind) + "\""@ + (match value {
        Some(v) => ",\"value\":\""@ + spec_escape(v) + "\""@,
        None => Seq::<char>::empty(),
    }) + (if username.len() == 0 {
        Seq::<char>::empty()
    } else {
        ",\"username\":\""@ + spec_escape(username) + "\""@
    }) + "}"@
}

/// The view of an optional string.
pub open spec fn spec_opt_view(value: Option<&String>) -> Option<Seq<char>> {
    match value {
        Some(v) => Some(v@),
        None => None,
    }
}

/// Encode one event as the JSON text that goes on the wire.
pub fn encode_event(kind: EventKind, value: Option<&String>, username: &String) -> (r: String)
    ensures
        r@ == spec_event_json(kind, spec_opt_view(value), username@),
{
    let mut out = String::new();
    out.append("{\"type\":\"");
    out.append(kind_tag(kind));
    out.append("\"");
    match value {
        Some(v) => {
            out.append(",\"value\":\"");
            let escaped = chars_to_string(escape_chars(v.as_str()));
            out.append(escaped.as_str());
            out.append("\"");
        },
        None => {},
    }
    if !username.as_str().is_empty() {
        out.append(",\"username\":\"");
        let escaped = chars_to_string(escape_chars(username.as_str()));
        out.append(escaped.as_str());
        out.append("\"");
    }
    out.append("}");
    out
}

} // verus!

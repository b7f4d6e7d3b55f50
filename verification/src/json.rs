//! Text as JSON quotes it, for the bodies the router writes itself.

use vstd::prelude::*;

use crate::text::push_str;

verus! {

/// A hexadecimal digit, as `serde_json` writes them: lower case.
pub open spec fn hex_digit(d: u32) -> char {
    if d < 10 { ((d + 48) as u8) as char } else { ((d + 87) as u8) as char }
}

/// How JSON writes one character inside a string: the quote, the reverse
/// solidus and the control characters escaped, everything else as it is.
pub open spec fn escaped(c: char) -> Seq<char> {
    if c == '"' {
        seq!['\\', '"']
    } else if c == '\\' {
        seq!['\\', '\\']
    } else if c == '\u{8}' {
        seq!['\\', 'b']
    } else if c == '\t' {
        seq!['\\', 't']
    } else if c == '\n' {
        seq!['\\', 'n']
    } else if c == '\u{c}' {
        seq!['\\', 'f']
    } else if c == '\r' {
        seq!['\\', 'r']
    } else if (c as u32) < 0x20 {
        seq!['\\', 'u', '0', '0', hex_digit((c as u32) / 16), hex_digit((c as u32) % 16)]
    } else {
        seq![c]
    }
}

/// Every character of a text, as JSON writes it inside a string.
pub open spec fn escaped_all(s: Seq<char>) -> Seq<char>
    decreases s.len(),
{
    if s.len() == 0 {
        Seq::empty()
    } else {
        escaped_all(s.drop_last()) + escaped(s.last())
    }
}

/// A text as a JSON string: quoted, with its characters escaped.
pub open spec fn json_string(s: Seq<char>) -> Seq<char> {
    seq!['"'] + escaped_all(s) + seq!['"']
}

/// A text as a JSON string.
///
/// Trusted: calls `serde_json::to_string` on a `str`, whose source
/// (`format_escaped_str`) writes a quote, then each byte, replacing the quote,
/// the reverse solidus and the bytes below `0x20` by their escapes -- `\b`,
/// `\t`, `\n`, `\f` and `\r` by name, any other as `\u00` and two lower-case
/// hexadecimal digits -- and then a closing quote. Serialising a `str` into
/// memory cannot fail, so the error arm is never taken.
#[verifier::external_body]
pub(crate) fn json_quoted(text: &str) -> (quoted: String)
    ensures
        quoted@ == json_string(text@),
{
    match serde_json::to_string(text) {
        Ok(quoted) => quoted,
        Err(_) => String::new(),
    }
}

/// A list of texts as a JSON array.
pub open spec fn json_array(items: Seq<Seq<char>>) -> Seq<char>
    decreases items.len(),
{
    if items.len() == 0 {
        seq!['[', ']']
    } else {
        seq!['['] + json_items(items) + seq![']']
    }
}

/// The items of a JSON array, separated by commas.
pub open spec fn json_items(items: Seq<Seq<char>>) -> Seq<char>
    decreases items.len(),
{
    if items.len() == 0 {
        Seq::empty()
    } else if items.len() == 1 {
        json_string(items[0])
    } else {
        json_items(items.drop_last()) + seq![','] + json_string(items.last())
    }
}

/// Appends a list of texts, as a JSON array of strings.
pub fn push_json_array(out: &mut String, items: &Vec<String>)
    ensures
        final(out)@ == old(out)@ + json_array(items@.map_values(|s: String| s@)),
{
    let ghost v = items@.map_values(|s: String| s@);
    let ghost start = out@;
    crate::text::push_char(out, '[');
    let mut i: usize = 0;
    while i < items.len()
        invariant
            v == items@.map_values(|s: String| s@),
            i <= items@.len(),
            out@ == start + seq!['['] + json_items(v.take(i as int)),
        decreases items@.len() - i,
    {
        assert(v.take(i + 1).drop_last() =~= v.take(i as int));
        if i > 0 {
            crate::text::push_char(out, ',');
        }
        let q = json_quoted(items[i].as_str());
        push_str(out, q.as_str());
        proof {
            if i == 0 {
                assert(json_items(v.take(0)) =~= Seq::<char>::empty());
            }
        }
        assert(out@ =~= start + seq!['['] + json_items(v.take(i + 1)));
        i = i + 1;
    }
    crate::text::push_char(out, ']');
    assert(v.take(v.len() as int) =~= v);
    if items.len() == 0 {
        assert(out@ =~= start + json_array(v));
    } else {
        assert(out@ =~= start + json_array(v));
    }
}

} // verus!

//! Reading catalog text: the lines of the small part of TOML a catalog is
//! written in.
//!
//! A line is blank or a comment, a table header such as `[models.gemma3]`,
//! or a setting such as `context_size = 4096`. Keys are bare: letters,
//! digits, `_` and `-`. A value is a string in double quotes, without
//! escapes, or in single quotes; a whole number, with an optional sign; or
//! `true` or `false`. A comment may follow a header or a value.

use vstd::prelude::*;

use crate::catalog::estimate::shard::every_digit;
use crate::text::{
    all_digits, chars_of, digits_value, parse_unsigned, pieces, split_chars, string_of, subrange_chars,
    trim_chars, trimmed, views,
};

verus! {

/// Where a character first occurs in a text, or -1 where it does not.
pub open spec fn first_of(s: Seq<char>, c: char) -> int
    decreases s.len(),
{
    if s.len() == 0 {
        -1
    } else if s[0] == c {
        0
    } else {
        let rest = first_of(s.drop_first(), c);
        if rest < 0 { -1 } else { rest + 1 }
    }
}

proof fn lemma_first_of(s: Seq<char>, c: char, i: int)
    requires
        0 <= i <= s.len(),
        forall|k: int| 0 <= k < i ==> s[k] != c,
    ensures
        i < s.len() && s[i] == c ==> first_of(s, c) == i,
        i == s.len() ==> first_of(s, c) == -1,
    decreases i,
{
    if i > 0 {
        assert forall|k: int| 0 <= k < i - 1 implies s.drop_first()[k] != c by {
            assert(s.drop_first()[k] == s[k + 1]);
        }
        lemma_first_of(s.drop_first(), c, i - 1);
        if i < s.len() && s[i] == c {
            assert(s.drop_first()[i - 1] == s[i]);
        }
    } else if s.len() == 0 {
    }
}

proof fn lemma_first_of_bounds(s: Seq<char>, c: char)
    ensures
        -1 <= first_of(s, c) < s.len(),
        first_of(s, c) >= 0 ==> s[first_of(s, c)] == c,
    decreases s.len(),
{
    if s.len() > 0 && s[0] != c {
        lemma_first_of_bounds(s.drop_first(), c);
        let r = first_of(s.drop_first(), c);
        if r >= 0 {
            assert(s.drop_first()[r] == s[r + 1]);
        }
    }
}

/// Where a character first occurs, if it does.
pub fn first_index(s: &[char], c: char) -> (at: Option<usize>)
    ensures
        match at {
            Some(i) => i == first_of(s@, c) && i < s@.len() && s@[i as int] == c,
            None => first_of(s@, c) == -1,
        },
{
    let mut i: usize = 0;
    while i < s.len()
        invariant
            i <= s@.len(),
            forall|k: int| 0 <= k < i ==> s@[k] != c,
        decreases s@.len() - i,
    {
        if s[i] == c {
            proof {
                lemma_first_of(s@, c, i as int);
            }
            return Some(i);
        }
        i = i + 1;
    }
    proof {
        lemma_first_of(s@, c, i as int);
    }
    None
}

/// One value a catalog line sets, as plain values.
pub enum ValueView {
    Text(Seq<char>),
    Integer(int),
    Flag(bool),
}

/// What one catalog line is, as plain values.
pub enum LineView {
    Blank,
    Table(Seq<Seq<char>>),
    Pair(Seq<char>, ValueView),
}

/// One value a catalog line sets.
#[derive(Debug, Clone, PartialEq, Eq)]
pub enum Value {
    /// A string.
    Text(String),
    /// A whole number.
    Integer(i64),
    /// `true` or `false`.
    Flag(bool),
}

/// What one catalog line is.
#[derive(Debug, Clone, PartialEq, Eq)]
pub enum Line {
    /// Nothing but white space, or a comment.
    Blank,
    /// A table header, by the parts of its dotted name.
    Table(Vec<String>),
    /// A key, and the value it is set to.
    Pair(String, Value),
}

/// A value as plain values.
pub open spec fn value_view(v: Value) -> ValueView {
    match v {
        Value::Text(t) => ValueView::Text(t@),
        Value::Integer(n) => ValueView::Integer(n as int),
        Value::Flag(b) => ValueView::Flag(b),
    }
}

/// A line as plain values.
pub open spec fn line_view(l: Line) -> LineView {
    match l {
        Line::Blank => LineView::Blank,
        Line::Table(names) => LineView::Table(views(names@)),
        Line::Pair(k, v) => LineView::Pair(k@, value_view(v)),
    }
}

/// Whether a character may stand in a bare key.
pub open spec fn is_key_char(c: char) -> bool {
    ('a' <= c <= 'z') || ('A' <= c <= 'Z') || ('0' <= c <= '9') || c == '_' || c == '-'
}

/// Whether a text is a bare key.
pub open spec fn is_key(s: Seq<char>) -> bool {
    s.len() > 0 && forall|i: int| 0 <= i < s.len() ==> is_key_char(#[trigger] s[i])
}

/// Whether what follows a header or a value may end the line: nothing but
/// white space, or a comment.
pub open spec fn ends_line(s: Seq<char>) -> bool {
    trimmed(s).len() == 0 || trimmed(s)[0] == '#'
}

/// A text up to its first `#`.
pub open spec fn before_comment(s: Seq<char>) -> Seq<char> {
    if first_of(s, '#') < 0 { s } else { s.take(first_of(s, '#')) }
}

/// A whole number as written: an optional sign, then digits, within what
/// 64 signed bits hold.
pub open spec fn integer_of(t: Seq<char>) -> Option<int> {
    let signed = t.len() > 0 && (t[0] == '-' || t[0] == '+');
    let digits = if signed { t.drop_first() } else { t };
    let magnitude = digits_value(digits) as int;
    let value = if t.len() > 0 && t[0] == '-' { -magnitude } else { magnitude };
    if digits.len() == 0 || !all_digits(digits) {
        None
    } else if value < i64::MIN || value > i64::MAX {
        None
    } else {
        Some(value)
    }
}

/// A quoted string and what follows it: the text up to the closing quote,
/// if it has one and only a comment follows it.
pub open spec fn quoted_of(r: Seq<char>, quote: char) -> Option<Seq<char>> {
    let close = first_of(r.drop_first(), quote);
    let content = r.subrange(1, close + 1);
    if close < 0 {
        None
    } else if quote == '"' && first_of(content, '\\') >= 0 {
        None
    } else if !ends_line(r.skip(close + 2)) {
        None
    } else {
        Some(content)
    }
}

/// The value a setting's right-hand side writes.
pub open spec fn value_of(r: Seq<char>) -> Option<ValueView> {
    let t = trimmed(before_comment(r));
    if r.len() > 0 && (r[0] == '"' || r[0] == '\'') {
        match quoted_of(r, r[0]) {
            Some(content) => Some(ValueView::Text(content)),
            None => None,
        }
    } else if t == seq!['t', 'r', 'u', 'e'] {
        Some(ValueView::Flag(true))
    } else if t == seq!['f', 'a', 'l', 's', 'e'] {
        Some(ValueView::Flag(false))
    } else {
        match integer_of(t) {
            Some(n) => Some(ValueView::Integer(n)),
            None => None,
        }
    }
}

/// What a line of catalog text is, if it is one the catalog's TOML allows.
pub open spec fn line_of(s: Seq<char>) -> Option<LineView> {
    let t = trimmed(s);
    if t.len() == 0 || t[0] == '#' {
        Some(LineView::Blank)
    } else if t[0] == '[' {
        let close = first_of(t, ']');
        let names = pieces(t.subrange(1, close), '.').map_values(|p: Seq<char>| trimmed(p));
        if close < 0 {
            None
        } else if !(forall|i: int| 0 <= i < names.len() ==> is_key(#[trigger] names[i])) {
            None
        } else if !ends_line(t.skip(close + 1)) {
            None
        } else {
            Some(LineView::Table(names))
        }
    } else {
        let eq = first_of(t, '=');
        let key = trimmed(t.take(eq));
        if eq < 0 || !is_key(key) {
            None
        } else {
            match value_of(trimmed(t.skip(eq + 1))) {
                Some(v) => Some(LineView::Pair(key, v)),
                None => None,
            }
        }
    }
}

fn key_char(c: char) -> (k: bool)
    ensures
        k == is_key_char(c),
{
    ('a' <= c && c <= 'z') || ('A' <= c && c <= 'Z') || ('0' <= c && c <= '9') || c == '_' || c == '-'
}

/// Whether a text is a bare key.
fn key_text(s: &Vec<char>) -> (key: bool)
    ensures
        key == is_key(s@),
{
    if s.len() == 0 {
        return false;
    }
    let mut i: usize = 0;
    while i < s.len()
        invariant
            i <= s@.len(),
            forall|k: int| 0 <= k < i ==> is_key_char(#[trigger] s@[k]),
        decreases s@.len() - i,
    {
        if !key_char(s[i]) {
            return false;
        }
        i = i + 1;
    }
    true
}

/// Whether what follows may end the line.
fn line_ends(s: &Vec<char>) -> (ends: bool)
    ensures
        ends == ends_line(s@),
{
    let t = trim_chars(s.as_slice());
    t.len() == 0 || t[0] == '#'
}

/// A whole number as written, if it is one.
fn integer_text(t: &Vec<char>) -> (n: Option<i64>)
    ensures
        match integer_of(t@) {
            Some(v) => n == Some(v as i64),
            None => n is None,
        },
{
    let signed = t.len() > 0 && (t[0] == '-' || t[0] == '+');
    let negative = t.len() > 0 && t[0] == '-';
    let digits = if signed { subrange_chars(t, 1, t.len()) } else { subrange_chars(t, 0, t.len()) };
    assert(digits@ =~= if signed { t@.drop_first() } else { t@ });
    if digits.len() == 0 || !every_digit(&digits) {
        return None;
    }
    let text = string_of(&digits);
    assert(crate::text::unsigned_digits(text@) =~= digits@);
    if negative {
        match parse_unsigned(text.as_str(), 9223372036854775808u64) {
            Some(m) => {
                if m == 9223372036854775808u64 {
                    Some(i64::MIN)
                } else {
                    Some(-(m as i64))
                }
            },
            None => None,
        }
    } else {
        match parse_unsigned(text.as_str(), 9223372036854775807u64) {
            Some(m) => Some(m as i64),
            None => None,
        }
    }
}

/// A quoted string and what follows it.
fn quoted_text(r: &Vec<char>, quote: char) -> (content: Option<Vec<char>>)
    requires
        r@.len() > 0,
    ensures
        match quoted_of(r@, quote) {
            Some(c) => content matches Some(v) && v@ == c,
            None => content is None,
        },
{
    let rest = subrange_chars(r, 1, r.len());
    assert(rest@ =~= r@.drop_first());
    let close = match first_index(&rest, quote) {
        Some(at) => at,
        None => return None,
    };
    let content = subrange_chars(r, 1, close + 1);
    if quote == '"' {
        if first_index(&content, '\\').is_some() {
            return None;
        }
    }
    let after = subrange_chars(r, close + 2, r.len());
    assert(after@ =~= r@.skip(close + 2));
    if !line_ends(&after) {
        return None;
    }
    Some(content)
}

/// The value a setting's right-hand side writes.
fn value_text(r: &Vec<char>) -> (value: Option<Value>)
    ensures
        match value_of(r@) {
            Some(v) => value matches Some(x) && value_view(x) == v,
            None => value is None,
        },
{
    if r.len() > 0 && (r[0] == '"' || r[0] == '\'') {
        return match quoted_text(r, r[0]) {
            Some(content) => Some(Value::Text(string_of(&content))),
            None => None,
        };
    }
    let cut = match first_index(r, '#') {
        Some(at) => subrange_chars(r, 0, at),
        None => subrange_chars(r, 0, r.len()),
    };
    assert(cut@ =~= before_comment(r@));
    let t = trim_chars(&cut);
    let yes = ['t', 'r', 'u', 'e'];
    let no = ['f', 'a', 'l', 's', 'e'];
    assert(yes@ =~= seq!['t', 'r', 'u', 'e']);
    assert(no@ =~= seq!['f', 'a', 'l', 's', 'e']);
    if crate::catalog::entry::same_chars(&t, &yes) {
        Some(Value::Flag(true))
    } else if crate::catalog::entry::same_chars(&t, &no) {
        Some(Value::Flag(false))
    } else {
        match integer_text(&t) {
            Some(n) => Some(Value::Integer(n)),
            None => None,
        }
    }
}

/// What a line of catalog text is, if it is one the catalog's TOML allows.
pub fn read_line(line: &str) -> (read: Option<Line>)
    ensures
        match line_of(line@) {
            Some(v) => read matches Some(l) && line_view(l) == v,
            None => read is None,
        },
{
    let s = chars_of(line);
    let t = trim_chars(&s);
    assert(t@ == trimmed(line@));
    if t.len() == 0 || t[0] == '#' {
        return Some(Line::Blank);
    }
    if t[0] == '[' {
        let close = match first_index(&t, ']') {
            Some(at) => at,
            None => return None,
        };
        let inside = subrange_chars(&t, 1, close);
        let parts = split_chars(&inside, '.');
        let ghost all = parts@.map_values(|p: Vec<char>| p@);
        let ghost names = all.map_values(|p: Seq<char>| trimmed(p));
        let mut out: Vec<String> = Vec::new();
        let mut i: usize = 0;
        while i < parts.len()
            invariant
                i <= parts@.len(),
                t@ == trimmed(line@),
                t@.len() > 0 && t@[0] == '[',
                close == first_of(t@, ']'),
                close < t@.len(),
                all == pieces(t@.subrange(1, close as int), '.'),
                all == parts@.map_values(|p: Vec<char>| p@),
                names == all.map_values(|p: Seq<char>| trimmed(p)),
                views(out@) == names.take(i as int),
                forall|k: int| 0 <= k < i ==> is_key(#[trigger] names[k]),
            decreases parts@.len() - i,
        {
            let name = trim_chars(&parts[i]);
            assert(name@ == names[i as int]);
            if !key_text(&name) {
                assert(!is_key(names[i as int]));
                return None;
            }
            let ghost was = views(out@);
            let text = string_of(&name);
            out.push(text);
            assert(names.take(i + 1) =~= names.take(i as int).push(names[i as int]));
            assert(views(out@) =~= was.push(text@));
            i = i + 1;
        }
        assert(names.take(i as int) =~= names);
        let after = subrange_chars(&t, close + 1, t.len());
        assert(after@ =~= t@.skip(close + 1));
        if !line_ends(&after) {
            return None;
        }
        return Some(Line::Table(out));
    }
    let eq = match first_index(&t, '=') {
        Some(at) => at,
        None => return None,
    };
    let left = subrange_chars(&t, 0, eq);
    let key = trim_chars(&left);
    if !key_text(&key) {
        return None;
    }
    let right = subrange_chars(&t, eq + 1, t.len());
    assert(right@ =~= t@.skip(eq + 1));
    let r = trim_chars(&right);
    match value_text(&r) {
        Some(v) => Some(Line::Pair(string_of(&key), v)),
        None => None,
    }
}

} // verus!

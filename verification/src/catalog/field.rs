//! What each setting of a catalog may hold, and the problem that names it
//! when it holds something else.
//!
//! Every problem names where it came from -- the catalog itself, the
//! defaults table, or an entry -- and the field that caused it, so a reader
//! is never sent back to the file to guess.

use vstd::prelude::*;

use super::entry::{is_relative, not_relative_message, residency_named, RelativePath, Residency};
use super::read::{value_view, Value, ValueView};
use crate::text::{decimal, push_char, push_decimal, push_str};

verus! {

/// A whole number in decimal, with its sign when it is negative.
pub open spec fn signed_decimal(n: int) -> Seq<char> {
    if n < 0 { seq!['-'] + decimal((-n) as nat) } else { decimal(n as nat) }
}

/// A value as a problem quotes it: text in single quotes, a number or a
/// truth as written.
pub open spec fn shown(v: ValueView) -> Seq<char> {
    match v {
        ValueView::Text(t) => "'"@ + t + "'"@,
        ValueView::Integer(n) => signed_decimal(n),
        ValueView::Flag(b) => if b { "true"@ } else { "false"@ },
    }
}

/// One problem: where, which field, and what is wrong with it.
pub open spec fn problem_text(scope: Seq<char>, field: Seq<char>, what: Seq<char>) -> Seq<char> {
    scope + ": field '"@ + field + "' "@ + what
}

/// Appends a whole number, with its sign when it is negative.
pub fn push_signed(out: &mut String, n: i64)
    ensures
        final(out)@ == old(out)@ + signed_decimal(n as int),
{
    if n < 0 {
        push_char(out, '-');
        let magnitude: u128 = (0i128 - n as i128) as u128;
        push_decimal(out, magnitude);
    } else {
        push_decimal(out, n as u128);
    }
}

/// Appends a value as a problem quotes it.
pub fn push_shown(out: &mut String, v: &Value)
    ensures
        final(out)@ == old(out)@ + shown(value_view(*v)),
{
    match v {
        Value::Text(t) => {
            push_str(out, "'");
            push_str(out, t.as_str());
            push_str(out, "'");
        },
        Value::Integer(n) => push_signed(out, *n),
        Value::Flag(b) => if *b {
            push_str(out, "true");
        } else {
            push_str(out, "false");
        },
    }
}

/// Starts a problem: where, and which field.
fn problem_start(scope: &str, field: &str) -> (out: String)
    ensures
        out@ == scope@ + ": field '"@ + field@ + "' "@,
{
    let mut out = String::new();
    push_str(&mut out, scope);
    push_str(&mut out, ": field '");
    push_str(&mut out, field);
    push_str(&mut out, "' ");
    out
}

/// A problem with a field: where, which, and what is wrong with it.
pub fn problem(scope: &str, field: &str, what: &str) -> (out: String)
    ensures
        out@ == problem_text(scope@, field@, what@),
{
    let mut out = problem_start(scope, field);
    push_str(&mut out, what);
    out
}

/// What a field that wants text says of a value that is not.
pub open spec fn not_text(v: ValueView) -> Seq<char> {
    "must be text, but is "@ + shown(v)
}

/// What a field that holds text reads of a value: the text, or the problem.
pub open spec fn text_read(scope: Seq<char>, field: Seq<char>, v: ValueView) -> Result<Seq<char>, Seq<char>> {
    match v {
        ValueView::Text(t) => Ok(t),
        other => Err(problem_text(scope, field, not_text(other))),
    }
}

/// A field that holds text.
pub fn text_field(scope: &str, field: &str, v: &Value) -> (read: Result<String, String>)
    ensures
        match text_read(scope@, field@, value_view(*v)) {
            Ok(t) => read matches Ok(s) && s@ == t,
            Err(p) => read matches Err(q) && q@ == p,
        },
{
    match v {
        Value::Text(t) => Ok(t.clone()),
        _ => {
            let mut p = problem_start(scope, field);
            push_str(&mut p, "must be text, but is ");
            push_shown(&mut p, v);
            Err(p)
        },
    }
}

/// What a field that wants a whole number says of a value that is not one,
/// or of one out of its range.
pub open spec fn number_problem(v: ValueView, least: int) -> Seq<char> {
    match v {
        ValueView::Integer(n) => if n < least {
            if least == 1 {
                "must be greater than zero, but is "@ + signed_decimal(n)
            } else {
                "must not be negative, but is "@ + signed_decimal(n)
            }
        } else {
            "must be at most 4294967295, but is "@ + signed_decimal(n)
        },
        other => "must be a whole number, but is "@ + shown(other),
    }
}

/// What a field that holds a whole number from `least` reads of a value.
pub open spec fn number_read(scope: Seq<char>, field: Seq<char>, v: ValueView, least: int) -> Result<u32, Seq<char>> {
    match v {
        ValueView::Integer(n) => if least <= n <= u32::MAX {
            Ok(n as u32)
        } else {
            Err(problem_text(scope, field, number_problem(v, least)))
        },
        _ => Err(problem_text(scope, field, number_problem(v, least))),
    }
}

/// A field that holds a whole number from `least` (zero or one) to the
/// largest 32 bits hold.
pub fn number_field(scope: &str, field: &str, v: &Value, least: u32) -> (read: Result<u32, String>)
    requires
        least <= 1,
    ensures
        match number_read(scope@, field@, value_view(*v), least as int) {
            Ok(n) => read == Ok::<u32, String>(n),
            Err(p) => read matches Err(q) && q@ == p,
        },
{
    match v {
        Value::Integer(n) => {
            if least as i64 <= *n && *n <= u32::MAX as i64 {
                Ok(*n as u32)
            } else {
                let mut p = problem_start(scope, field);
                if *n < least as i64 {
                    if least == 1 {
                        push_str(&mut p, "must be greater than zero, but is ");
                    } else {
                        push_str(&mut p, "must not be negative, but is ");
                    }
                } else {
                    push_str(&mut p, "must be at most 4294967295, but is ");
                }
                push_signed(&mut p, *n);
                Err(p)
            }
        },
        _ => {
            let mut p = problem_start(scope, field);
            push_str(&mut p, "must be a whole number, but is ");
            push_shown(&mut p, v);
            Err(p)
        },
    }
}

/// What a residency field says of a spelling it does not know.
pub open spec fn residency_problem(t: Seq<char>) -> Seq<char> {
    "must be one of resident or on-demand, but is '"@ + t + "'"@
}

/// What a residency field reads of a value.
pub open spec fn residency_read(scope: Seq<char>, field: Seq<char>, v: ValueView) -> Result<Residency, Seq<char>> {
    match v {
        ValueView::Text(t) => match residency_named(t) {
            Some(r) => Ok(r),
            None => Err(problem_text(scope, field, residency_problem(t))),
        },
        other => Err(problem_text(scope, field, not_text(other))),
    }
}

/// A field that holds a residency: `resident` or `on-demand`.
pub fn residency_field(scope: &str, field: &str, v: &Value) -> (read: Result<Residency, String>)
    ensures
        match residency_read(scope@, field@, value_view(*v)) {
            Ok(r) => read == Ok::<Residency, String>(r),
            Err(p) => read matches Err(q) && q@ == p,
        },
{
    match v {
        Value::Text(t) => match Residency::parse(t.as_str()) {
            Some(r) => Ok(r),
            None => {
                let mut p = problem_start(scope, field);
                push_str(&mut p, "must be one of resident or on-demand, but is '");
                push_str(&mut p, t.as_str());
                push_str(&mut p, "'");
                Err(p)
            },
        },
        _ => {
            let mut p = problem_start(scope, field);
            push_str(&mut p, "must be text, but is ");
            push_shown(&mut p, v);
            Err(p)
        },
    }
}

/// What a location field reads of a value: the location, or the problem.
pub open spec fn location_read(scope: Seq<char>, field: Seq<char>, v: ValueView) -> Result<Seq<char>, Seq<char>> {
    match v {
        ValueView::Text(t) => if is_relative(t) {
            Ok(t)
        } else {
            Err(problem_text(scope, field, not_relative_message(t)))
        },
        other => Err(problem_text(scope, field, not_text(other))),
    }
}

/// A field that holds a location inside the models root.
pub fn location_field(scope: &str, field: &str, v: &Value) -> (read: Result<RelativePath, String>)
    ensures
        match location_read(scope@, field@, value_view(*v)) {
            Ok(t) => read matches Ok(p) && p.spec_text() == t,
            Err(p) => read matches Err(q) && q@ == p,
        },
{
    match v {
        Value::Text(t) => match RelativePath::new(t.as_str()) {
            Ok(path) => Ok(path),
            Err(m) => Err(problem(scope, field, m.as_str())),
        },
        _ => {
            let mut p = problem_start(scope, field);
            push_str(&mut p, "must be text, but is ");
            push_shown(&mut p, v);
            Err(p)
        },
    }
}

/// Whether a text holds a separator, as a path does.
pub open spec fn has_separator(t: Seq<char>) -> bool {
    exists|i: int| 0 <= i < t.len() && (#[trigger] t[i] == '/' || t[i] == '\\')
}

/// What a runtime field says of a path.
pub open spec fn not_a_name(t: Seq<char>) -> Seq<char> {
    "must be a name, not a path, but is '"@ + t + "'"@
}

/// What a field that holds a name reads of a value.
pub open spec fn name_read(scope: Seq<char>, field: Seq<char>, v: ValueView) -> Result<Seq<char>, Seq<char>> {
    match v {
        ValueView::Text(t) => if has_separator(t) {
            Err(problem_text(scope, field, not_a_name(t)))
        } else {
            Ok(t)
        },
        other => Err(problem_text(scope, field, not_text(other))),
    }
}

/// A field that holds a name, never a path: the catalog says which build,
/// and the machine says where it is.
pub fn name_field(scope: &str, field: &str, v: &Value) -> (read: Result<String, String>)
    ensures
        match name_read(scope@, field@, value_view(*v)) {
            Ok(t) => read matches Ok(s) && s@ == t,
            Err(p) => read matches Err(q) && q@ == p,
        },
{
    match v {
        Value::Text(t) => {
            let chars = crate::text::chars_of(t.as_str());
            let mut i: usize = 0;
            while i < chars.len()
                invariant
                    i <= chars@.len(),
                    chars@ == t@,
                    value_view(*v) == ValueView::Text(t@),
                    forall|k: int| 0 <= k < i ==> !(#[trigger] chars@[k] == '/' || chars@[k] == '\\'),
                decreases chars@.len() - i,
            {
                if chars[i] == '/' || chars[i] == '\\' {
                    assert(t@[i as int] == '/' || t@[i as int] == '\\');
                    let mut p = problem_start(scope, field);
                    push_str(&mut p, "must be a name, not a path, but is '");
                    push_str(&mut p, t.as_str());
                    push_str(&mut p, "'");
                    return Err(p);
                }
                i = i + 1;
            }
            Ok(t.clone())
        },
        _ => {
            let mut p = problem_start(scope, field);
            push_str(&mut p, "must be text, but is ");
            push_shown(&mut p, v);
            Err(p)
        },
    }
}

/// A flag's value as the server is passed it: text as written, a number in
/// decimal, and a truth as `true` or `false`.
pub open spec fn flag_value_text(v: ValueView) -> Seq<char> {
    match v {
        ValueView::Text(t) => t,
        ValueView::Integer(n) => signed_decimal(n),
        ValueView::Flag(b) => if b { "true"@ } else { "false"@ },
    }
}

/// A flag's value as the server is passed it.
pub fn flag_text(v: &Value) -> (text: String)
    ensures
        text@ == flag_value_text(value_view(*v)),
{
    match v {
        Value::Text(t) => t.clone(),
        Value::Integer(n) => {
            let mut s = String::new();
            push_signed(&mut s, *n);
            s
        },
        Value::Flag(b) => {
            let mut s = String::new();
            if *b {
                push_str(&mut s, "true");
            } else {
                push_str(&mut s, "false");
            }
            s
        },
    }
}

} // verus!

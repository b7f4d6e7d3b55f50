//! Who may use the router.
//!
//! Open by default: the router answers whoever reaches an address it was told
//! to listen on. Two settings narrow it, each off until set: a key, which
//! every request but a preflight carries as `Authorization: Bearer <key>`,
//! and a list of browser origins, outside which a request naming an origin is
//! refused before anything else happens.

use vstd::prelude::*;

use crate::proxy::refusal::{Cause, Refusal};
use crate::text::{
    is_white, lemma_trimmed_ends, lemma_trimmed_padded, chars_of, eq_ignoring_ascii_case, joined, pieces, push_joined, push_str, same_ignoring_ascii_case,
    split_chars, string_of, subrange_chars, trim_chars, trimmed, views,
};

verus! {

/// What the router reads of a request to decide whether to serve it: the
/// method, the target, and the headers in the order they came.
#[derive(Debug, Clone, PartialEq, Eq)]
pub struct Head {
    /// The method, such as `GET`.
    pub method: String,
    /// What the request line asks for.
    pub target: String,
    /// Each header's name and value, in the order they arrived.
    pub headers: Vec<(String, String)>,
}

/// Who may use the router: open, unless a key or a list of origins is set.
#[derive(Debug, Clone)]
pub struct Access {
    key: Option<String>,
    origins: Option<Vec<String>>,
}

/// The value of the first header with this name, however its name was
/// capitalised.
pub open spec fn header_value(headers: Seq<(String, String)>, name: Seq<char>) -> Option<Seq<char>>
    decreases headers.len(),
{
    if headers.len() == 0 {
        None
    } else if same_ignoring_ascii_case(headers[0].0@, name) {
        Some(headers[0].1@)
    } else {
        header_value(headers.drop_first(), name)
    }
}

/// The key a value of `Authorization` carries, if it carries one.
pub open spec fn bearer(value: Seq<char>) -> Option<Seq<char>> {
    if value.len() >= 7 && value.take(7) == "Bearer "@ {
        Some(trimmed(value.skip(7)))
    } else {
        None
    }
}

/// A key, trimmed, when it is not empty once trimmed.
pub open spec fn key_from(key: Option<String>) -> Option<Seq<char>> {
    match key {
        Some(k) => if trimmed(k@).len() == 0 { None } else { Some(trimmed(k@)) },
        None => None,
    }
}

/// The pieces of a list, each trimmed, leaving out the empty ones.
pub open spec fn kept(parts: Seq<Seq<char>>) -> Seq<Seq<char>>
    decreases parts.len(),
{
    if parts.len() == 0 {
        Seq::empty()
    } else if trimmed(parts.last()).len() == 0 {
        kept(parts.drop_last())
    } else {
        kept(parts.drop_last()).push(trimmed(parts.last()))
    }
}

/// The origins a comma-separated list names, when it names any.
pub open spec fn origins_from(list: Option<String>) -> Option<Seq<Seq<char>>> {
    match list {
        Some(l) => if kept(pieces(l@, ',')).len() == 0 { None } else { Some(kept(pieces(l@, ','))) },
        None => None,
    }
}

/// What a request without the key is told.
pub open spec fn key_required_text() -> Seq<char> {
    "this router requires a key: send 'Authorization: Bearer <key>' with the value of MAESTRO_API_KEY"@
}

/// What a request from an origin not on the list is told.
pub open spec fn origin_refused_text(origin: Seq<char>) -> Seq<char> {
    "the origin '"@ + origin + "' is not one this router serves"@
}

/// The line `serve` prints about these rules. Never the key itself.
pub open spec fn described_text(key: Option<Seq<char>>, origins: Option<Seq<Seq<char>>>) -> Seq<char> {
    "access: "@ + (if key is Some {
        "a key is required (MAESTRO_API_KEY)"@
    } else {
        "no key is required (set MAESTRO_API_KEY to require one)"@
    }) + "; "@ + match origins {
        None => "any browser origin may call it (set MAESTRO_ALLOWED_ORIGINS to list them)"@,
        Some(list) => "browsers may call it from "@ + joined(list, ", "@),
    }
}

/// The origin a request names that the rules refuse, if any.
pub open spec fn refused_origin(origins: Option<Seq<Seq<char>>>, head: Head) -> Option<Seq<char>> {
    match (origins, header_value(head.headers@, "origin"@)) {
        (Some(list), Some(origin)) => if list.contains(origin) { None } else { Some(origin) },
        _ => None,
    }
}

/// Whether the rules refuse a request for want of the key. A preflight is
/// exempt: a browser sends none with it, and it starts nothing.
pub open spec fn refused_for_key(key: Option<Seq<char>>, head: Head) -> bool {
    match key {
        Some(k) => head.method@ != "OPTIONS"@ && match header_value(head.headers@, "authorization"@) {
            Some(value) => bearer(value) != Some(k),
            None => true,
        },
        None => false,
    }
}

/// The value of the first header with this name.
fn header<'a>(head: &'a Head, name: &str) -> (value: Option<&'a str>)
    ensures
        match header_value(head.headers@, name@) {
            Some(v) => value is Some && value->Some_0@ == v,
            None => value is None,
        },
{
    let wanted = chars_of(name);
    let mut i: usize = 0;
    assert(head.headers@.skip(0) =~= head.headers@);
    while i < head.headers.len()
        invariant
            wanted@ == name@,
            i <= head.headers@.len(),
            header_value(head.headers@, name@) == header_value(head.headers@.skip(i as int), name@),
        decreases head.headers@.len() - i,
    {
        let candidate = chars_of(head.headers[i].0.as_str());
        assert(head.headers@.skip(i as int)[0] == head.headers@[i as int]);
        if eq_ignoring_ascii_case(&candidate, &wanted) {
            return Some(head.headers[i].1.as_str());
        }
        assert(head.headers@.skip(i as int).drop_first() =~= head.headers@.skip(i + 1));
        i = i + 1;
    }
    None
}

/// Whether two keys are equal, compared in time that depends on their length
/// alone, so how long a refusal takes says nothing about how much of a guess
/// was right.
pub fn same(carried: &str, key: &str) -> (equal: bool)
    ensures
        equal == (carried@ == key@),
{
    let a = chars_of(carried);
    let b = chars_of(key);
    if a.len() != b.len() {
        return false;
    }
    let mut difference: u8 = 0;
    let mut i: usize = 0;
    while i < a.len()
        invariant
            a@ == carried@,
            b@ == key@,
            a@.len() == b@.len(),
            i <= a@.len(),
            (difference == 0) == (forall|k: int| 0 <= k < i ==> a@[k] == b@[k]),
        decreases a@.len() - i,
    {
        let unequal: u8 = if a[i] != b[i] { 1 } else { 0 };
        let d = difference;
        assert((d | unequal) == 0 <==> (d == 0 && unequal == 0)) by (bit_vector);
        difference = d | unequal;
        proof {
            if difference == 0 {
                assert forall|k: int| 0 <= k < i + 1 implies a@[k] == b@[k] by {
                    if k < i {
                    }
                }
            }
        }
        i = i + 1;
    }
    proof {
        if difference == 0 {
            assert(a@ =~= b@);
        }
    }
    difference == 0
}

impl Access {
    /// The key, when one is set.
    pub closed spec fn spec_key(&self) -> Option<Seq<char>> {
        match self.key {
            Some(k) => Some(k@),
            None => None,
        }
    }

    /// The browser origins that may call the router, when a list is set.
    pub closed spec fn spec_origins(&self) -> Option<Seq<Seq<char>>> {
        match self.origins {
            Some(list) => Some(views(list@)),
            None => None,
        }
    }

    /// The rules these values of the two variables describe.
    ///
    /// An empty key, and a list naming no origin, are unset rather than a
    /// lock with no way in.
    pub fn from_variables(key: Option<String>, origins: Option<String>) -> (access: Access)
        ensures
            access.spec_key() == key_from(key),
            access.spec_origins() == origins_from(origins),
    {
        let key = match key {
            Some(k) => {
                let chars = chars_of(k.as_str());
                let t = trim_chars(&chars);
                if t.len() == 0 {
                    None
                } else {
                    Some(string_of(&t))
                }
            },
            None => None,
        };
        let origins = match origins {
            Some(list) => {
                let chars = chars_of(list.as_str());
                let parts = split_chars(&chars, ',');
                let mut names: Vec<String> = Vec::new();
                let mut i: usize = 0;
                let ghost p = parts@.map_values(|p: Vec<char>| p@);
                while i < parts.len()
                    invariant
                        p == parts@.map_values(|p: Vec<char>| p@),
                        i <= parts@.len(),
                        views(names@) == kept(p.take(i as int)),
                    decreases parts@.len() - i,
                {
                    let t = trim_chars(&parts[i]);
                    assert(p.take(i + 1).drop_last() =~= p.take(i as int));
                    assert(p.take(i + 1).last() == parts@[i as int]@);
                    if t.len() > 0 {
                        let name = string_of(&t);
                        let ghost before = names@;
                        names.push(name);
                        assert(views(names@) =~= views(before).push(name@));
                    }
                    i = i + 1;
                }
                assert(p.take(p.len() as int) =~= p);
                if names.len() == 0 {
                    None
                } else {
                    Some(names)
                }
            },
            None => None,
        };
        Access { key, origins }
    }

    /// What these rules are, as the line `serve` prints at startup. Never
    /// the key itself.
    pub fn described(&self) -> (line: String)
        ensures
            line@ == described_text(self.spec_key(), self.spec_origins()),
    {
        let mut out = String::new();
        push_str(&mut out, "access: ");
        if self.key.is_some() {
            push_str(&mut out, "a key is required (MAESTRO_API_KEY)");
        } else {
            push_str(&mut out, "no key is required (set MAESTRO_API_KEY to require one)");
        }
        push_str(&mut out, "; ");
        match &self.origins {
            None => {
                push_str(&mut out, "any browser origin may call it (set MAESTRO_ALLOWED_ORIGINS to list them)");
            },
            Some(list) => {
                push_str(&mut out, "browsers may call it from ");
                push_joined(&mut out, list, ", ");
            },
        }
        assert(out@ =~= described_text(self.spec_key(), self.spec_origins()));
        out
    }

    /// Whether this request may be served, and the refusal when it may not:
    /// an origin off the list first, then a missing or wrong key.
    pub fn admits(&self, head: &Head) -> (verdict: Result<(), Refusal>)
        ensures
            match refused_origin(self.spec_origins(), *head) {
                Some(origin) => verdict is Err && verdict->Err_0.spec_cause() == Cause::OriginNotAllowed
                    && verdict->Err_0.spec_message() == origin_refused_text(origin),
                None => if refused_for_key(self.spec_key(), *head) {
                    verdict is Err && verdict->Err_0.spec_cause() == Cause::Unauthorized
                        && verdict->Err_0.spec_message() == key_required_text()
                } else {
                    verdict is Ok
                },
            },
    {
        if let Some(origins) = &self.origins {
            if let Some(origin) = header(head, "origin") {
                if !crate::catalog::listing::contains_text(origins, origin) {
                    let mut message = String::new();
                    push_str(&mut message, "the origin '");
                    push_str(&mut message, origin);
                    push_str(&mut message, "' is not one this router serves");
                    return Err(Refusal::new(Cause::OriginNotAllowed, message));
                }
            }
        }
        if let Some(key) = &self.key {
            let matches = match header(head, "authorization") {
                Some(value) => {
                    let chars = chars_of(value);
                    let prefix = chars_of("Bearer ");
                    proof {
                        reveal_strlit("Bearer ");
                    }
                    if chars.len() >= 7 && crate::catalog::entry::same_chars(
                        subrange_chars(&chars, 0, 7).as_slice(),
                        prefix.as_slice(),
                    ) {
                        let rest = subrange_chars(&chars, 7, chars.len());
                        let carried = trim_chars(&rest);
                        let carried = string_of(&carried);
                        same(carried.as_str(), key.as_str())
                    } else {
                        false
                    }
                },
                None => false,
            };
            let preflight = crate::text::same_text(head.method.as_str(), "OPTIONS");
            if !preflight && !matches {
                let mut message = String::new();
                push_str(
                    &mut message,
                    "this router requires a key: send 'Authorization: Bearer <key>' with the value of MAESTRO_API_KEY",
                );
                return Err(Refusal::new(Cause::Unauthorized, message));
            }
        }
        Ok(())
    }
}

impl Default for Access {
    /// Open: no key, and any origin.
    fn default() -> (access: Access)
        ensures
            access.spec_key() is None,
            access.spec_origins() is None,
    {
        Access { key: None, origins: None }
    }
}

} // verus!

verus! {

/// A caller that is no browser names no origin, and is never refused for
/// one, whatever the list of origins says.
pub proof fn law_a_caller_naming_no_origin_is_never_refused_for_one(origins: Option<Seq<Seq<char>>>, head: Head)
    requires
        header_value(head.headers@, "origin"@) is None,
    ensures
        refused_origin(origins, head) is None,
{
}

/// A preflight is never refused for want of the key: a browser sends none
/// with it, and it starts nothing.
pub proof fn law_a_preflight_needs_no_key(key: Option<Seq<char>>, head: Head)
    requires
        head.method@ == "OPTIONS"@,
    ensures
        !refused_for_key(key, head),
{
}

/// With no key and no list of origins, the router is open to whoever
/// reaches it: nothing is refused.
pub proof fn law_no_rules_refuse_nothing(head: Head)
    ensures
        refused_origin(None, head) is None,
        !refused_for_key(None, head),
{
}

/// With a key set, a request that carries it as `Authorization: Bearer
/// <key>`, with any white space around the key, is never refused for the
/// key: the key is what follows the scheme, not the whole header.
pub proof fn law_the_key_set_is_the_key_that_opens(
    key: Option<String>,
    head: Head,
    before: Seq<char>,
    after: Seq<char>,
)
    requires
        key_from(key) is Some,
        forall|k: int| 0 <= k < before.len() ==> is_white(before[k]),
        forall|k: int| 0 <= k < after.len() ==> is_white(after[k]),
        header_value(head.headers@, "authorization"@) == Some("Bearer "@ + before + key_from(key)->Some_0 + after),
    ensures
        !refused_for_key(key_from(key), head),
{
    let k = key_from(key)->Some_0;
    let value = "Bearer "@ + before + k + after;
    reveal_strlit("Bearer ");
    assert(value.take(7) =~= "Bearer "@);
    assert(value.skip(7) =~= before + k + after);
    lemma_trimmed_ends(key->Some_0@);
    lemma_trimmed_padded(before, k, after);
}

/// With a key set, a request other than a preflight that carries no
/// `Authorization`, or carries a key other than the one set, is refused.
pub proof fn law_a_request_without_the_key_set_is_refused(key: Option<String>, head: Head, other: Seq<char>)
    requires
        key_from(key) is Some,
        head.method@ != "OPTIONS"@,
        header_value(head.headers@, "authorization"@) is None || (header_value(head.headers@, "authorization"@)
            == Some("Bearer "@ + other) && trimmed(other) != key_from(key)->Some_0),
    ensures
        refused_for_key(key_from(key), head),
{
    reveal_strlit("Bearer ");
    let value = "Bearer "@ + other;
    assert(value.skip(7) =~= other);
}

/// With a list of origins set, a request naming an origin on the list is
/// not refused for it, and one naming an origin off the list is refused for
/// that origin, compared as written.
pub proof fn law_only_a_listed_origin_is_served(list: Seq<Seq<char>>, head: Head, origin: Seq<char>)
    requires
        header_value(head.headers@, "origin"@) == Some(origin),
    ensures
        list.contains(origin) ==> refused_origin(Some(list), head) is None,
        !list.contains(origin) ==> refused_origin(Some(list), head) == Some(origin),
{
}

} // verus!

//! Reading the server flags a catalog passes through: the few this router
//! interprets itself.

use vstd::prelude::*;

use crate::text::{ascii_lower, chars_of, same_text, trim_chars, trimmed};

verus! {

/// The value of a flag, as the first pair with that name gives it.
pub open spec fn flag_value(flags: Seq<(String, String)>, name: Seq<char>) -> Option<Seq<char>>
    decreases flags.len(),
{
    if flags.len() == 0 {
        None
    } else if flags[0].0@ == name {
        Some(flags[0].1@)
    } else {
        flag_value(flags.drop_first(), name)
    }
}

/// The value of a flag, if the entry sets it.
pub fn flag<'a>(flags: &'a Vec<(String, String)>, name: &str) -> (value: Option<&'a str>)
    ensures
        match flag_value(flags@, name@) {
            Some(v) => value is Some && value->Some_0@ == v,
            None => value is None,
        },
{
    let mut i: usize = 0;
    assert(flags@.skip(0) =~= flags@);
    while i < flags.len()
        invariant
            i <= flags@.len(),
            flag_value(flags@, name@) == flag_value(flags@.skip(i as int), name@),
        decreases flags@.len() - i,
    {
        assert(flags@.skip(i as int)[0] == flags@[i as int]);
        if same_text(flags[i].0.as_str(), name) {
            return Some(flags[i].1.as_str());
        }
        assert(flags@.skip(i as int).drop_first() =~= flags@.skip(i + 1));
        i = i + 1;
    }
    None
}

/// A value with its ASCII letters in lower case.
pub open spec fn lowered(s: Seq<char>) -> Seq<char> {
    s.map_values(|c: char| ascii_lower(c))
}

/// Whether a flag's value turns it off: `false` or `0`, in any case and
/// with any white space around it.
pub open spec fn says_off(value: Seq<char>) -> bool {
    lowered(trimmed(value)) == seq!['f', 'a', 'l', 's', 'e'] || lowered(trimmed(value)) == seq!['0']
}

/// Whether an entry sets a flag to anything but off.
pub open spec fn is_set(flags: Seq<(String, String)>, name: Seq<char>) -> bool {
    match flag_value(flags, name) {
        Some(v) => !says_off(v),
        None => false,
    }
}

/// Whether a value turns a flag off.
pub fn value_says_off(value: &str) -> (off: bool)
    ensures
        off == says_off(value@),
{
    let chars = chars_of(value);
    let t = trim_chars(&chars);
    let mut low: Vec<char> = Vec::new();
    let mut i: usize = 0;
    while i < t.len()
        invariant
            i <= t@.len(),
            low@ == lowered(t@.take(i as int)),
        decreases t@.len() - i,
    {
        let c = t[i];
        let l = if 'A' <= c && c <= 'Z' { ((c as u8) + 32) as char } else { c };
        assert(l == ascii_lower(c));
        low.push(l);
        assert(lowered(t@.take(i + 1)) =~= lowered(t@.take(i as int)).push(ascii_lower(c)));
        i = i + 1;
    }
    assert(t@.take(t@.len() as int) =~= t@);
    let off_word = ['f', 'a', 'l', 's', 'e'];
    let zero = ['0'];
    let off = crate::catalog::entry::same_chars(&low, &off_word) || crate::catalog::entry::same_chars(&low, &zero);
    assert(off_word@ =~= seq!['f', 'a', 'l', 's', 'e']);
    assert(zero@ =~= seq!['0']);
    off
}

/// Whether an entry sets a flag to anything but off.
pub fn is_on(flags: &Vec<(String, String)>, name: &str) -> (on: bool)
    ensures
        on == is_set(flags@, name@),
{
    match flag(flags, name) {
        Some(value) => !value_says_off(value),
        None => false,
    }
}

} // verus!

verus! {

/// A copy of a list of flags, pair by pair.
pub fn copy_flags(flags: &Vec<(String, String)>) -> (copy: Vec<(String, String)>)
    ensures
        copy@.len() == flags@.len(),
        forall|i: int| 0 <= i < flags@.len() ==> (#[trigger] copy@[i]).0@ == flags@[i].0@ && copy@[i].1@ == flags@[i].1@,
{
    let mut copy: Vec<(String, String)> = Vec::new();
    let mut i: usize = 0;
    while i < flags.len()
        invariant
            i <= flags@.len(),
            copy@.len() == i,
            forall|k: int| 0 <= k < i ==> (#[trigger] copy@[k]).0@ == flags@[k].0@ && copy@[k].1@ == flags@[k].1@,
        decreases flags@.len() - i,
    {
        copy.push((flags[i].0.clone(), flags[i].1.clone()));
        i = i + 1;
    }
    copy
}

/// A copy of a setting that may be absent.
pub fn copy_setting(setting: &Option<String>) -> (copy: Option<String>)
    ensures
        match setting {
            Some(s) => copy matches Some(c) && c@ == s@,
            None => copy is None,
        },
{
    match setting {
        Some(s) => Some(s.clone()),
        None => None,
    }
}

} // verus!

//! Reading a child's answer to `GET /health`: one status line, and nothing
//! else of the reply.

use vstd::prelude::*;

use crate::text::{is_white, parse_unsigned, string_of, unsigned_value, white};

verus! {

/// The words of a text: its runs of characters between white space.
pub open spec fn words(s: Seq<char>) -> Seq<Seq<char>>
    decreases s.len(),
{
    if s.len() == 0 {
        Seq::empty()
    } else if is_white(s.last()) {
        words(s.drop_last())
    } else {
        let before = words(s.drop_last());
        if s.len() >= 2 && !is_white(s[s.len() - 2]) {
            before.drop_last().push(before.last().push(s.last()))
        } else {
            before.push(seq![s.last()])
        }
    }
}

proof fn lemma_words_end_in_a_word(s: Seq<char>)
    requires
        s.len() > 0,
        !is_white(s.last()),
    ensures
        words(s).len() > 0,
    decreases s.len(),
{
    if s.len() >= 2 && !is_white(s[s.len() - 2]) {
        assert(s.drop_last().last() == s[s.len() - 2]);
        lemma_words_end_in_a_word(s.drop_last());
    }
}

/// The status a reply line carries: its second word, as a number no larger
/// than a status can be. `HTTP/1.1 200 OK` carries 200.
pub open spec fn status_in(line: Seq<char>) -> Option<u16> {
    if words(line).len() < 2 {
        None
    } else {
        match unsigned_value(words(line)[1], u16::MAX as nat) {
            Some(n) => Some(n as u16),
            None => None,
        }
    }
}

/// The words of a text, in order.
pub fn words_of(s: &Vec<char>) -> (out: Vec<Vec<char>>)
    ensures
        out@.map_values(|w: Vec<char>| w@) == words(s@),
{
    let mut out: Vec<Vec<char>> = Vec::new();
    let mut i: usize = 0;
    while i < s.len()
        invariant
            i <= s@.len(),
            out@.map_values(|w: Vec<char>| w@) == words(s@.take(i as int)),
        decreases s@.len() - i,
    {
        let c = s[i];
        let ghost t = s@.take(i + 1);
        assert(t.drop_last() =~= s@.take(i as int));
        assert(t.last() == c);
        let ghost before = out@.map_values(|w: Vec<char>| w@);
        if white(c) {
        } else if i > 0 && !white(s[i - 1]) {
            assert(t[t.len() - 2] == s@[i - 1]);
            assert(s@.take(i as int).last() == s@[i - 1]);
            proof {
                lemma_words_end_in_a_word(s@.take(i as int));
            }
            let mut last = out.pop().unwrap();
            last.push(c);
            out.push(last);
            assert(out@.map_values(|w: Vec<char>| w@) =~= before.drop_last().push(before.last().push(c)));
        } else {
            let mut word: Vec<char> = Vec::new();
            word.push(c);
            out.push(word);
            assert(out@.map_values(|w: Vec<char>| w@) =~= before.push(seq![c]));
        }
        i = i + 1;
    }
    assert(s@.take(i as int) =~= s@);
    out
}

/// The status code a reply line carries, if it carries one.
pub fn status_of_line(line: &str) -> (status: Option<u16>)
    ensures
        status == status_in(line@),
{
    let chars = crate::text::chars_of(line);
    let found = words_of(&chars);
    if found.len() < 2 {
        return None;
    }
    assert(found@[1]@ == words(line@)[1]);
    let second = string_of(found[1].as_slice());
    match parse_unsigned(second.as_str(), u16::MAX as u64) {
        Some(n) => Some(n as u16),
        None => None,
    }
}

} // verus!

//! Reading what the platform says about its memory: the system's total, as
//! `/proc/meminfo` states it.

use vstd::prelude::*;

use crate::launch::probe::words;
use crate::text::{chars_of, parse_unsigned, pieces, split_chars, string_of, unsigned_value};

verus! {

/// The label of the line that states the system's total.
pub open spec fn mem_total() -> Seq<char> {
    seq!['M', 'e', 'm', 'T', 'o', 't', 'a', 'l', ':']
}

/// Whether a line states the system's total.
pub open spec fn states_total(line: Seq<char>) -> bool {
    line.len() >= 9 && line.take(9) == mem_total()
}

/// The system's total in mebibytes, from the first line that states it in
/// kibibytes: its second word, divided by 1024.
pub open spec fn total_in(lines: Seq<Seq<char>>) -> Option<u64>
    decreases lines.len(),
{
    if lines.len() == 0 {
        None
    } else if states_total(lines[0]) {
        let w = words(lines[0]);
        if w.len() < 2 {
            None
        } else {
            match unsigned_value(w[1], u64::MAX as nat) {
                Some(kib) => Some((kib / 1024) as u64),
                None => None,
            }
        }
    } else {
        total_in(lines.drop_first())
    }
}

/// The system's total memory in mebibytes, from what `/proc/meminfo` says.
pub fn system_total_from(meminfo: &str) -> (total: Option<u64>)
    ensures
        total == total_in(pieces(meminfo@, '\n')),
{
    let chars = chars_of(meminfo);
    let lines = split_chars(&chars, '\n');
    let ghost all = lines@.map_values(|l: Vec<char>| l@);
    let label = ['M', 'e', 'm', 'T', 'o', 't', 'a', 'l', ':'];
    assert(label@ =~= mem_total());
    let mut i: usize = 0;
    assert(all.skip(0) =~= all);
    while i < lines.len()
        invariant
            i <= lines@.len(),
            all == lines@.map_values(|l: Vec<char>| l@),
            all == pieces(meminfo@, '\n'),
            label@ == mem_total(),
            total_in(all) == total_in(all.skip(i as int)),
        decreases lines@.len() - i,
    {
        let line = &lines[i];
        assert(all.skip(i as int)[0] == line@);
        let starts = line.len() >= 9 && crate::catalog::entry::same_chars(
            crate::text::subrange_chars(line, 0, 9).as_slice(),
            &label,
        );
        proof {
            if line@.len() >= 9 {
                assert(line@.subrange(0, 9) =~= line@.take(9));
            }
        }
        if starts {
            let text = string_of(line.as_slice());
            let found = words_in(&text);
            if found.len() < 2 {
                return None;
            }
            let second = string_of(found[1].as_slice());
            assert(second@ == words(line@)[1]);
            return match parse_unsigned(second.as_str(), u64::MAX) {
                Some(kib) => Some(kib / 1024),
                None => None,
            };
        }
        assert(all.skip(i as int).drop_first() =~= all.skip(i + 1));
        i = i + 1;
    }
    None
}

/// The words of a text.
fn words_in(text: &String) -> (out: Vec<Vec<char>>)
    ensures
        out@.map_values(|w: Vec<char>| w@) == words(text@),
{
    let chars = chars_of(text.as_str());
    crate::launch::probe::words_of(&chars)
}

} // verus!

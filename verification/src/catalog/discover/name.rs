//! What a file name says about the file: whether it is a model an entry can
//! be made of, and what that entry is called.
//!
//! - a file is a model when its extension is `gguf`, in any case;
//! - a projector, named `mmproj` by every tool that writes one, is not a
//!   model on its own;
//! - a draft for speculative decoding is not either. Nothing inside such a
//!   file says so, so the name has to, and the convention is an `mtp`
//!   segment such as `mtp-` or `FastMTP`;
//! - of a model split into shards, the first names the entry and the rest
//!   are its weights.
//!
//! An entry's identifier is the file's stem, lowercased, with every run of
//! anything but letters and digits collapsed to one hyphen.

use vstd::prelude::*;

use crate::catalog::estimate::shard::{last_index, last_of, shard_of, shard_parts};
use crate::flags::lowered;
use crate::text::{
    ascii_lower, chars_of, eq_ignoring_ascii_case, joined, lower, push_joined, same_ignoring_ascii_case, string_of,
    subrange_chars, views,
};

verus! {

/// Whether a character is an ASCII letter or digit.
pub open spec fn is_alnum(c: char) -> bool {
    ('a' <= c <= 'z') || ('A' <= c <= 'Z') || ('0' <= c <= '9')
}

/// Whether a character is an ASCII capital.
pub open spec fn is_upper(c: char) -> bool {
    'A' <= c <= 'Z'
}

/// Whether a character is an ASCII small letter.
pub open spec fn is_lower(c: char) -> bool {
    'a' <= c <= 'z'
}

/// The extension a model file carries.
pub open spec fn gguf() -> Seq<char> {
    seq!['g', 'g', 'u', 'f']
}

/// Whether a name ends in a `gguf` extension, in any case.
pub open spec fn has_model_extension(name: Seq<char>) -> bool {
    last_of(name, '.') >= 0 && same_ignoring_ascii_case(name.skip(last_of(name, '.') + 1), gguf())
}

/// Whether a name says `mmproj`, in any case: a projector.
pub open spec fn names_projector(name: Seq<char>) -> bool {
    exists|i: int|
        0 <= i && i + 6 <= name.len() && #[trigger] lowered(name).subrange(i, i + 6) == seq![
            'm',
            'm',
            'p',
            'r',
            'o',
            'j',
        ]
}

/// Whether a segment of a name starts at `i`: at the start, after anything
/// but a letter or digit, or where a small letter turns to a capital.
pub open spec fn starts_segment(s: Seq<char>, i: int) -> bool {
    i == 0 || !is_alnum(s[i - 1]) || (is_lower(s[i - 1]) && is_upper(s[i]))
}

/// Whether a segment of a name ends at `j`.
pub open spec fn ends_segment(s: Seq<char>, j: int) -> bool {
    j == s.len() || !is_alnum(s[j]) || (is_lower(s[j - 1]) && is_upper(s[j]))
}

/// Whether a name has an `mtp` segment, in any case: a draft.
pub open spec fn names_draft(name: Seq<char>) -> bool {
    exists|i: int|
        0 <= i && i + 3 <= name.len() && #[trigger] lowered(name).subrange(i, i + 3) == seq!['m', 't', 'p']
            && starts_segment(name, i) && ends_segment(name, i + 3)
}

/// Whether a file with this name is a model an entry can be made of.
pub open spec fn is_model_name(name: Seq<char>) -> bool {
    &&& has_model_extension(name)
    &&& !names_projector(name)
    &&& !names_draft(name)
    &&& match shard_parts(name) {
        Some(parts) => parts.1 == 1,
        None => true,
    }
}

/// Whether the text at `i` is `pattern`, once folded to lower case.
fn lower_matches_at(s: &Vec<char>, i: usize, pattern: &[char]) -> (found: bool)
    requires
        i + pattern@.len() <= s@.len(),
    ensures
        found == (lowered(s@).subrange(i as int, i + pattern@.len()) == pattern@),
{
    let n = s.len();
    let mut k: usize = 0;
    while k < pattern.len()
        invariant
            n == s@.len(),
            k <= pattern@.len(),
            i + pattern@.len() <= s@.len(),
            forall|j: int| 0 <= j < k ==> ascii_lower(s@[i + j]) == pattern@[j],
        decreases pattern@.len() - k,
    {
        if lower(s[i + k]) != pattern[k] {
            assert(lowered(s@).subrange(i as int, i + pattern@.len())[k as int] != pattern@[k as int]);
            return false;
        }
        k = k + 1;
    }
    assert(lowered(s@).subrange(i as int, i + pattern@.len()) =~= pattern@);
    true
}

fn alnum(c: char) -> (a: bool)
    ensures
        a == is_alnum(c),
{
    ('a' <= c && c <= 'z') || ('A' <= c && c <= 'Z') || ('0' <= c && c <= '9')
}

fn projector_named(s: &Vec<char>) -> (found: bool)
    ensures
        found == names_projector(s@),
{
    let pattern = ['m', 'm', 'p', 'r', 'o', 'j'];
    assert(pattern@ =~= seq!['m', 'm', 'p', 'r', 'o', 'j']);
    let mut i: usize = 0;
    while s.len() >= 6 && i <= s.len() - 6
        invariant
            pattern@ == seq!['m', 'm', 'p', 'r', 'o', 'j'],
            forall|k: int| 0 <= k < i && k + 6 <= s@.len() ==> #[trigger] lowered(s@).subrange(k, k + 6) != pattern@,
        decreases s@.len() - i,
    {
        if lower_matches_at(s, i, &pattern) {
            return true;
        }
        i = i + 1;
    }
    false
}

fn draft_named(s: &Vec<char>) -> (found: bool)
    ensures
        found == names_draft(s@),
{
    let pattern = ['m', 't', 'p'];
    assert(pattern@ =~= seq!['m', 't', 'p']);
    let n = s.len();
    let mut i: usize = 0;
    while n >= 3 && i <= n - 3
        invariant
            n == s@.len(),
            pattern@ == seq!['m', 't', 'p'],
            forall|k: int|
                0 <= k < i && k + 3 <= s@.len() ==> !(#[trigger] lowered(s@).subrange(k, k + 3) == pattern@
                    && starts_segment(s@, k) && ends_segment(s@, k + 3)),
        decreases n - i,
    {
        if lower_matches_at(s, i, &pattern) {
            let starts = i == 0 || !alnum(s[i - 1]) || ('a' <= s[i - 1] && s[i - 1] <= 'z' && 'A' <= s[i]
                && s[i] <= 'Z');
            let ends = i + 3 == n || !alnum(s[i + 3]) || ('a' <= s[i + 2] && s[i + 2] <= 'z' && 'A' <= s[i + 3]
                && s[i + 3] <= 'Z');
            if starts && ends {
                return true;
            }
        }
        i = i + 1;
    }
    false
}

/// Whether a file with this name is a model an entry can be made of.
pub fn is_model(name: &str) -> (model: bool)
    ensures
        model == is_model_name(name@),
{
    let chars = chars_of(name);
    let n = chars.len();
    let dot = match last_index(&chars, '.') {
        Some(at) => at,
        None => return false,
    };
    let extension = subrange_chars(&chars, dot + 1, n);
    assert(extension@ =~= name@.skip(dot + 1));
    let g = ['g', 'g', 'u', 'f'];
    assert(g@ =~= gguf());
    if !eq_ignoring_ascii_case(&extension, &g) {
        return false;
    }
    if projector_named(&chars) || draft_named(&chars) {
        return false;
    }
    match shard_of(name) {
        Some(shard) => shard.index() == 1,
        None => true,
    }
}

/// The maximal runs of letters and digits in a text.
pub open spec fn runs(s: Seq<char>) -> Seq<Seq<char>>
    decreases s.len(),
{
    if s.len() == 0 {
        Seq::empty()
    } else if !is_alnum(s.last()) {
        runs(s.drop_last())
    } else {
        let before = runs(s.drop_last());
        if s.len() >= 2 && is_alnum(s[s.len() - 2]) {
            before.drop_last().push(before.last().push(s.last()))
        } else {
            before.push(seq![s.last()])
        }
    }
}

proof fn lemma_runs_end_in_a_run(s: Seq<char>)
    requires
        s.len() > 0,
        is_alnum(s.last()),
    ensures
        runs(s).len() > 0,
    decreases s.len(),
{
    if s.len() >= 2 && is_alnum(s[s.len() - 2]) {
        assert(s.drop_last().last() == s[s.len() - 2]);
        lemma_runs_end_in_a_run(s.drop_last());
    }
}

/// A text as an identifier: lowercased, with every run of anything but
/// letters and digits collapsed to one hyphen, and none at either end.
pub open spec fn slug(s: Seq<char>) -> Seq<char> {
    joined(runs(s).map_values(|r: Seq<char>| lowered(r)), "-"@)
}

/// A text as an identifier.
pub fn slug_of(s: &Vec<char>) -> (id: String)
    ensures
        id@ == slug(s@),
{
    let mut found: Vec<String> = Vec::new();
    let mut current: Vec<char> = Vec::new();
    let mut i: usize = 0;
    while i < s.len()
        invariant
            i <= s@.len(),
            (i > 0 && is_alnum(s@[i - 1])) ==> views(found@).push(current@) == runs(s@.take(i as int)).map_values(
                |r: Seq<char>| lowered(r),
            ),
            !(i > 0 && is_alnum(s@[i - 1])) ==> views(found@) == runs(s@.take(i as int)).map_values(
                |r: Seq<char>| lowered(r),
            ) && current@.len() == 0,
        decreases s@.len() - i,
    {
        let c = s[i];
        let ghost t = s@.take(i + 1);
        assert(t.drop_last() =~= s@.take(i as int));
        assert(t.last() == c);
        let ghost before = runs(s@.take(i as int));
        let ghost bm = before.map_values(|r: Seq<char>| lowered(r));
        proof {
            if i > 0 {
                assert(t[t.len() - 2] == s@[i - 1]);
                assert(s@.take(i as int).last() == s@[i - 1]);
            }
        }
        if alnum(c) {
            if i > 0 && alnum(s[i - 1]) {
                proof {
                    lemma_runs_end_in_a_run(s@.take(i as int));
                }
                let ghost was = current@;
                assert(views(found@).push(was) == bm);
                assert(views(found@) =~= bm.drop_last());
                assert(was == bm.last());
                current.push(lower(c));
                assert(runs(t) == before.drop_last().push(before.last().push(c)));
                assert(lowered(before.last().push(c)) =~= lowered(before.last()).push(ascii_lower(c)));
                assert(before.drop_last().push(before.last().push(c)).map_values(|r: Seq<char>| lowered(r))
                    =~= bm.drop_last().push(lowered(before.last().push(c))));
                assert(views(found@).push(current@) =~= runs(t).map_values(|r: Seq<char>| lowered(r)));
            } else {
                assert(current@.len() == 0);
                current.push(lower(c));
                assert(current@ =~= seq![ascii_lower(c)]);
                assert(runs(t) == before.push(seq![c]));
                assert(lowered(seq![c]) =~= seq![ascii_lower(c)]);
                assert(before.push(seq![c]).map_values(|r: Seq<char>| lowered(r)) =~= bm.push(lowered(seq![c])));
                assert(views(found@).push(current@) =~= runs(t).map_values(|r: Seq<char>| lowered(r)));
            }
        } else {
            if i > 0 && alnum(s[i - 1]) {
                let ghost was = views(found@);
                let word = string_of(&current);
                found.push(word);
                current = Vec::new();
                assert(views(found@) =~= was.push(word@));
            }
            assert(runs(t) == before);
        }
        i = i + 1;
    }
    if i > 0 && alnum(s[i - 1]) {
        let ghost was = views(found@);
        let word = string_of(&current);
        found.push(word);
        assert(views(found@) =~= was.push(word@));
    }
    assert(s@.take(i as int) =~= s@);
    let mut id = String::new();
    push_joined(&mut id, &found, "-");
    id
}

/// The stem an entry is named after: a shard's stem, or the name without
/// its extension.
pub open spec fn entry_stem(name: Seq<char>) -> Seq<char> {
    match shard_parts(name) {
        Some(parts) => parts.0,
        None => if last_of(name, '.') >= 0 { name.take(last_of(name, '.')) } else { name },
    }
}

/// The identifier a model file's name gives its entry.
pub fn name_identifier(name: &str) -> (id: String)
    ensures
        id@ == slug(entry_stem(name@)),
{
    let chars = chars_of(name);
    let stem = match shard_of(name) {
        Some(shard) => chars_of(shard.stem()),
        None => match last_index(&chars, '.') {
            Some(dot) => subrange_chars(&chars, 0, dot),
            None => chars,
        },
    };
    proof {
        if shard_parts(name@) is None && last_of(name@, '.') >= 0 {
            assert(stem@ =~= name@.take(last_of(name@, '.')));
        }
    }
    slug_of(&stem)
}

} // verus!

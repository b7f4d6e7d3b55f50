//! Reading a split model's shard suffix, and naming its other shards.
//!
//! The estimate sums every shard of a split model, and discovery names the
//! entry after the first, so both read the suffix here.

use vstd::prelude::*;

use crate::text::{
    all_digits, chars_of, decimal, digits_value, is_digit, parse_unsigned, push_char, push_decimal, push_str,
    string_of, subrange_chars, views,
};

verus! {

/// Where a character last occurs in a text, or -1 where it does not.
pub open spec fn last_of(s: Seq<char>, c: char) -> int
    decreases s.len(),
{
    if s.len() == 0 {
        -1
    } else if s.last() == c {
        s.len() - 1
    } else {
        last_of(s.drop_last(), c)
    }
}

/// Where a pattern last starts in a text, or -1 where it does not occur.
pub open spec fn last_match(s: Seq<char>, p: Seq<char>) -> int
    decreases s.len(),
{
    if s.len() < p.len() {
        -1
    } else if s.skip(s.len() - p.len()) == p {
        s.len() - p.len()
    } else if s.len() == 0 {
        -1
    } else {
        last_match(s.drop_last(), p)
    }
}

/// The text between the shard index and the shard count.
pub open spec fn of_marker() -> Seq<char> {
    seq!['-', 'o', 'f', '-']
}

/// A shard suffix read off a file name, as plain values: the stem, the
/// index, the count as written, and the extension.
pub open spec fn shard_parts(name: Seq<char>) -> Option<(Seq<char>, u64, Seq<char>, Seq<char>)> {
    let dot = last_of(name, '.');
    let rest = name.take(dot);
    let extension = name.skip(dot + 1);
    let of = last_match(rest, of_marker());
    let head = rest.take(of);
    let total = rest.skip(of + 4);
    let dash = last_of(head, '-');
    let stem = head.take(dash);
    let index = head.skip(dash + 1);
    if dot < 0 || of < 0 || dash < 0 {
        None
    } else if total.len() == 0 || !all_digits(total) {
        None
    } else if index.len() != total.len() || !all_digits(index) {
        None
    } else if digits_value(index) > u64::MAX {
        None
    } else {
        Some((stem, digits_value(index) as u64, total, extension))
    }
}

/// One shard's place in a split model, read from a name such as
/// `model-00001-of-00004.gguf`.
#[derive(Debug, Clone, PartialEq, Eq)]
pub struct Shard {
    /// The name before the shard suffix, which names the model.
    pub stem: String,
    pub index: u64,
    total: String,
    extension: String,
}

impl Shard {
    /// The name before the shard suffix.
    pub closed spec fn stem_text(&self) -> Seq<char> {
        self.stem@
    }

    /// This shard's place among the others.
    pub closed spec fn index_value(&self) -> u64 {
        self.index
    }

    /// The name before the shard suffix.
    pub fn stem(&self) -> (stem: &str)
        ensures
            stem@ == self.stem_text(),
    {
        self.stem.as_str()
    }

    /// This shard's place among the others.
    pub fn index(&self) -> (index: u64)
        ensures
            index == self.index_value(),
    {
        self.index
    }

    /// The shard count, as the name writes it.
    pub closed spec fn total_text(&self) -> Seq<char> {
        self.total@
    }

    /// The extension after the last dot.
    pub closed spec fn extension_text(&self) -> Seq<char> {
        self.extension@
    }

    /// The path of another shard of the same model, beside this one: the
    /// directory of `model`, then the stem, the index padded with zeros to
    /// the width of the count, `-of-`, the count, a dot and the extension.
    pub fn sibling(&self, model: &str, index: u64) -> (path: String)
        ensures
            path@ == directory_of(model@) + self.stem_text() + seq!['-'] + padded(index as nat, self.total_text().len())
                + of_marker() + self.total_text() + seq!['.'] + self.extension_text(),
    {
        let chars = chars_of(model);
        let slash = last_index(&chars, '/');
        let dir_end: usize = match slash {
            Some(at) => at + 1,
            None => 0,
        };
        let dir = subrange_chars(&chars, 0, dir_end);
        let mut path = string_of(&dir);
        assert(path@ == directory_of(model@));
        push_str(&mut path, self.stem.as_str());
        push_char(&mut path, '-');
        let digits = decimal_len(index);
        let mut zeros: usize = 0;
        let width = self.total.as_str().unicode_len();
        let ghost before = path@;
        while digits + zeros < width
            invariant
                path@ == before + zeros_of(zeros as nat),
                digits == decimal(index as nat).len(),
                width == self.total@.len(),
                digits + zeros <= width || zeros == 0,
            decreases width - zeros,
        {
            push_char(&mut path, '0');
            assert(zeros_of((zeros + 1) as nat) =~= zeros_of(zeros as nat).push('0'));
            zeros = zeros + 1;
        }
        assert(zeros == pad_count(index as nat, width as nat));
        push_decimal(&mut path, index as u128);
        push_char(&mut path, '-');
        push_char(&mut path, 'o');
        push_char(&mut path, 'f');
        push_char(&mut path, '-');
        push_str(&mut path, self.total.as_str());
        push_char(&mut path, '.');
        push_str(&mut path, self.extension.as_str());
        assert(path@ =~= directory_of(model@) + self.stem@ + seq!['-'] + padded(index as nat, self.total@.len())
            + of_marker() + self.total@ + seq!['.'] + self.extension@);
        path
    }
}

/// The directory part of a path, up to and including its last `/`; empty
/// where there is none.
pub open spec fn directory_of(path: Seq<char>) -> Seq<char> {
    path.take(last_of(path, '/') + 1)
}

/// A run of zeros.
pub open spec fn zeros_of(n: nat) -> Seq<char> {
    Seq::new(n, |_i: int| '0')
}

/// How many zeros pad a number out to a width.
pub open spec fn pad_count(n: nat, width: nat) -> nat {
    if decimal(n).len() < width { (width - decimal(n).len()) as nat } else { 0 }
}

/// A number in decimal, padded with zeros on the left to a width.
pub open spec fn padded(n: nat, width: nat) -> Seq<char> {
    zeros_of(pad_count(n, width)) + decimal(n)
}

/// How many digits a number takes in decimal.
fn decimal_len(n: u64) -> (len: usize)
    ensures
        len == decimal(n as nat).len(),
    decreases n,
{
    if n < 10 {
        1
    } else {
        let l = decimal_len(n / 10);
        assert(decimal(n as nat) == decimal((n / 10) as nat).push(crate::text::digit_char((n % 10) as nat)));
        assert(l < 20) by {
            lemma_decimal_short(n as nat);
        }
        l + 1
    }
}

proof fn lemma_decimal_short(n: nat)
    requires
        n <= u64::MAX,
    ensures
        decimal(n).len() <= 20,
{
    reveal_with_fuel(pow10, 21);
    assert(pow10(20) == 100000000000000000000nat);
    lemma_decimal_len_bound(n, 20);
}

proof fn lemma_decimal_len_bound(n: nat, k: nat)
    requires
        n < pow10(k),
        k >= 1,
    ensures
        decimal(n).len() <= k,
    decreases k,
{
    if n >= 10 {
        reveal_with_fuel(pow10, 2);
        assert(k >= 2);
        assert((n / 10) < pow10((k - 1) as nat));
        lemma_decimal_len_bound(n / 10, (k - 1) as nat);
    }
}

spec fn pow10(k: nat) -> nat
    decreases k,
{
    if k == 0 { 1 } else { 10 * pow10((k - 1) as nat) }
}

/// Where a character last occurs, if it does.
pub fn last_index(s: &[char], c: char) -> (at: Option<usize>)
    ensures
        match at {
            Some(i) => i == last_of(s@, c) && i < s@.len(),
            None => last_of(s@, c) == -1,
        },
        s@.len() <= usize::MAX,
{
    let mut i = s.len();
    assert(s@.take(i as int) =~= s@);
    while i > 0
        invariant
            i <= s@.len(),
            last_of(s@, c) == last_of(s@.take(i as int), c),
        decreases i,
    {
        assert(s@.take(i as int).drop_last() =~= s@.take(i - 1));
        if s[i - 1] == c {
            return Some(i - 1);
        }
        i = i - 1;
    }
    None
}

/// Where a pattern last starts, if it occurs.
fn last_occurrence(s: &[char], p: &[char]) -> (at: Option<usize>)
    ensures
        match at {
            Some(i) => i == last_match(s@, p@) && i + p@.len() <= s@.len(),
            None => last_match(s@, p@) == -1,
        },
{
    let mut n = s.len();
    assert(s@.take(n as int) =~= s@);
    while n >= p.len()
        invariant
            n <= s@.len(),
            last_match(s@, p@) == last_match(s@.take(n as int), p@),
        decreases n,
    {
        let start = n - p.len();
        let mut k: usize = 0;
        let mut same = true;
        while k < p.len()
            invariant
                k <= p@.len(),
                start + p@.len() == n <= s@.len(),
                same == (forall|j: int| 0 <= j < k ==> s@[start + j] == p@[j]),
            decreases p@.len() - k,
        {
            if s[start + k] != p[k] {
                same = false;
            }
            k = k + 1;
        }
        let ghost t = s@.take(n as int);
        assert(same == (t.skip(t.len() - p@.len()) =~= p@));
        if same {
            return Some(start);
        }
        if n == 0 {
            return None;
        }
        assert(t.drop_last() =~= s@.take(n - 1));
        n = n - 1;
    }
    None
}

/// Reads a shard suffix off a file name, if it carries one.
pub fn shard_of(name: &str) -> (shard: Option<Shard>)
    ensures
        match shard_parts(name@) {
            Some((stem, index, total, extension)) => shard matches Some(s) && s.stem_text() == stem && s.index_value()
                == index && s.total_text() == total && s.extension_text() == extension,
            None => shard is None,
        },
{
    let chars = chars_of(name);
    let dot = match last_index(&chars, '.') {
        Some(at) => at,
        None => return None,
    };
    let rest = subrange_chars(&chars, 0, dot);
    let extension = subrange_chars(&chars, dot + 1, chars.len());
    let marker = ['-', 'o', 'f', '-'];
    assert(marker@ =~= of_marker());
    let of = match last_occurrence(&rest, &marker) {
        Some(at) => at,
        None => return None,
    };
    assert(rest@ =~= name@.take(dot as int));
    proof {
        lemma_last_match_fits(rest@, of_marker());
    }
    let head = subrange_chars(&rest, 0, of);
    let total = subrange_chars(&rest, of + 4, rest.len());
    let dash = match last_index(&head, '-') {
        Some(at) => at,
        None => return None,
    };
    proof {
        lemma_last_of_fits(head@, '-');
    }
    let stem = subrange_chars(&head, 0, dash);
    let index = subrange_chars(&head, dash + 1, head.len());
    assert(extension@ =~= name@.skip(dot + 1));
    assert(head@ =~= rest@.take(of as int));
    assert(total@ =~= rest@.skip(of + 4));
    assert(stem@ =~= head@.take(dash as int));
    assert(index@ =~= head@.skip(dash + 1));
    if total.len() == 0 || !every_digit(&total) {
        return None;
    }
    if index.len() != total.len() || !every_digit(&index) {
        return None;
    }
    let index_text = string_of(&index);
    assert(crate::text::unsigned_digits(index_text@) =~= index@);
    let value = match parse_unsigned(index_text.as_str(), u64::MAX) {
        Some(v) => v,
        None => return None,
    };
    Some(Shard { stem: string_of(&stem), index: value, total: string_of(&total), extension: string_of(&extension) })
}

proof fn lemma_last_of_fits(s: Seq<char>, c: char)
    ensures
        -1 <= last_of(s, c) < s.len(),
    decreases s.len(),
{
    if s.len() > 0 && s.last() != c {
        lemma_last_of_fits(s.drop_last(), c);
    }
}

proof fn lemma_last_match_fits(s: Seq<char>, p: Seq<char>)
    ensures
        last_match(s, p) == -1 || (0 <= last_match(s, p) && last_match(s, p) + p.len() <= s.len()),
    decreases s.len(),
{
    if s.len() >= p.len() && s.skip(s.len() - p.len()) != p && s.len() > 0 {
        lemma_last_match_fits(s.drop_last(), p);
    }
}

/// Whether every character is an ASCII digit.
pub fn every_digit(s: &[char]) -> (all: bool)
    ensures
        all == all_digits(s@),
{
    let mut i: usize = 0;
    while i < s.len()
        invariant
            i <= s@.len(),
            forall|k: int| 0 <= k < i ==> crate::text::is_digit(#[trigger] s@[k]),
        decreases s@.len() - i,
    {
        if !('0' <= s[i] && s[i] <= '9') {
            return false;
        }
        i = i + 1;
    }
    true
}

/// The name of the file a path leads to: what follows its last `/`.
pub open spec fn file_name(path: Seq<char>) -> Seq<char> {
    path.skip(last_of(path, '/') + 1)
}

/// The path of shard `index` of the model whose shard `parts` were read
/// from the name at `model`, beside it.
pub open spec fn sibling_text(model: Seq<char>, parts: (Seq<char>, u64, Seq<char>, Seq<char>), index: nat) -> Seq<char> {
    directory_of(model) + parts.0 + seq!['-'] + padded(index, parts.2.len()) + of_marker() + parts.2 + seq!['.']
        + parts.3
}

/// The paths of shards 1 to `n`, leaving out the one `parts` were read from.
pub open spec fn siblings_upto(model: Seq<char>, parts: (Seq<char>, u64, Seq<char>, Seq<char>), n: nat) -> Seq<Seq<char>>
    decreases n,
{
    if n == 0 {
        Seq::empty()
    } else {
        let before = siblings_upto(model, parts, (n - 1) as nat);
        if n == parts.1 { before } else { before.push(sibling_text(model, parts, n)) }
    }
}

/// The paths of the other shards of a split model with `count` shards,
/// given the path of one; none where the name carries no shard suffix.
pub open spec fn other_shard_paths(model: Seq<char>, count: u64) -> Seq<Seq<char>> {
    match shard_parts(file_name(model)) {
        Some(parts) => siblings_upto(model, parts, count as nat),
        None => Seq::empty(),
    }
}

/// The paths of the other shards of a split model, given the path of one
/// and the shard count its metadata records.
pub fn other_shards(model: &str, count: u64) -> (paths: Vec<String>)
    ensures
        views(paths@) == other_shard_paths(model@, count),
{
    let chars = chars_of(model);
    let length = chars.len();
    let start: usize = match last_index(&chars, '/') {
        Some(at) => at + 1,
        None => 0,
    };
    let name = string_of(&subrange_chars(&chars, start, length));
    assert(name@ =~= file_name(model@));
    let mut paths: Vec<String> = Vec::new();
    let shard = match shard_of(name.as_str()) {
        Some(shard) => shard,
        None => {
            assert(views(paths@) =~= Seq::<Seq<char>>::empty());
            return paths;
        },
    };
    let ghost parts = shard_parts(file_name(model@))->Some_0;
    let mut index: u64 = 0;
    assert(views(paths@) =~= siblings_upto(model@, parts, 0));
    while index < count
        invariant
            index <= count,
            parts == shard_parts(file_name(model@))->Some_0,
            shard.stem_text() == parts.0,
            shard.index_value() == parts.1,
            shard.total_text() == parts.2,
            shard.extension_text() == parts.3,
            views(paths@) == siblings_upto(model@, parts, index as nat),
        decreases count - index,
    {
        index = index + 1;
        if index != shard.index {
            let path = shard.sibling(model, index);
            let ghost before = paths@;
            paths.push(path);
            assert(views(paths@) =~= views(before).push(path@));
        }
    }
    paths
}

} // verus!


verus! {

proof fn lemma_last_of_finds(s: Seq<char>, c: char)
    ensures
        -1 <= last_of(s, c) < s.len(),
        last_of(s, c) >= 0 ==> s[last_of(s, c)] == c,
    decreases s.len(),
{
    if s.len() > 0 && s.last() != c {
        lemma_last_of_finds(s.drop_last(), c);
        if last_of(s.drop_last(), c) >= 0 {
            assert(s.drop_last()[last_of(s.drop_last(), c)] == s[last_of(s.drop_last(), c)]);
        }
    }
}

proof fn lemma_last_match_finds(s: Seq<char>, p: Seq<char>)
    ensures
        last_match(s, p) >= 0 ==> last_match(s, p) + p.len() <= s.len() && s.subrange(
            last_match(s, p),
            last_match(s, p) + p.len(),
        ) == p,
    decreases s.len(),
{
    if s.len() >= p.len() && s.skip(s.len() - p.len()) == p {
        assert(s.subrange(s.len() - p.len(), s.len() as int) =~= s.skip(s.len() - p.len()));
    } else if s.len() >= p.len() && s.len() > 0 {
        lemma_last_match_finds(s.drop_last(), p);
        let m = last_match(s.drop_last(), p);
        if m >= 0 {
            assert(s.subrange(m, m + p.len()) =~= s.drop_last().subrange(m, m + p.len()));
        }
    }
}

proof fn lemma_leading_zero(s: Seq<char>)
    ensures
        digits_value(seq!['0'] + s) == digits_value(s),
    decreases s.len(),
{
    assert(('0' as u32) == 48);
    if s.len() == 0 {
        assert((seq!['0'] + s).drop_last() =~= Seq::<char>::empty());
        assert((seq!['0'] + s).last() == '0');
        assert(digits_value(Seq::<char>::empty()) == 0);
    } else {
        lemma_leading_zero(s.drop_last());
        assert((seq!['0'] + s).drop_last() =~= seq!['0'] + s.drop_last());
        assert((seq!['0'] + s).last() == s.last());
    }
}

proof fn lemma_digit_char(c: char)
    requires
        is_digit(c),
    ensures
        crate::text::digit_char(((c as u32) - 48) as nat) == c,
{
    if c == '0' {
    } else if c == '1' {
    } else if c == '2' {
    } else if c == '3' {
    } else if c == '4' {
    } else if c == '5' {
    } else if c == '6' {
    } else if c == '7' {
    } else if c == '8' {
    } else {
        assert(c == '9');
    }
}

proof fn lemma_significant(d: Seq<char>)
    requires
        d.len() >= 1,
        all_digits(d),
        d[0] != '0',
    ensures
        digits_value(d) >= 1,
        decimal(digits_value(d)) == d,
    decreases d.len(),
{
    if d.len() == 1 {
        assert(d.drop_last() =~= Seq::<char>::empty());
        assert(digits_value(Seq::<char>::empty()) == 0);
        assert(d.last() == d[0]);
        assert(is_digit(d[0]));
        lemma_digit_char(d[0]);
        assert(d =~= seq![d[0]]);
    } else {
        let front = d.drop_last();
        assert(front[0] == d[0]);
        assert forall|i: int| 0 <= i < front.len() implies is_digit(#[trigger] front[i]) by {
            assert(front[i] == d[i]);
        }
        lemma_significant(front);
        let v = digits_value(d);
        let last = ((d.last() as u32) - 48) as nat;
        assert(is_digit(d[d.len() - 1]));
        assert(v == digits_value(front) * 10 + last);
        assert(v / 10 == digits_value(front) && v % 10 == last);
        lemma_digit_char(d.last());
        assert(d =~= front.push(d.last()));
    }
}

proof fn lemma_zeros_grow(k: nat)
    ensures
        zeros_of(k + 1) == seq!['0'] + zeros_of(k),
{
    assert(zeros_of(k + 1) =~= seq!['0'] + zeros_of(k));
}

/// Digits padded back to their own width are the digits they were read from.
proof fn lemma_padded_back(d: Seq<char>)
    requires
        d.len() >= 1,
        all_digits(d),
    ensures
        padded(digits_value(d), d.len()) == d,
    decreases d.len(),
{
    if d[0] != '0' {
        lemma_significant(d);
        assert(zeros_of(0) =~= Seq::<char>::empty());
        assert(padded(digits_value(d), d.len()) =~= d);
    } else if d.len() == 1 {
        assert(d =~= seq!['0']);
        assert(d.drop_last() =~= Seq::<char>::empty());
        assert(d.last() == '0');
        assert(('0' as u32) == 48);
        assert(digits_value(Seq::<char>::empty()) == 0);
        assert(digits_value(d) == 0);
        assert(zeros_of(0) =~= Seq::<char>::empty());
        assert(padded(0, 1) =~= seq!['0']);
    } else {
        let rest = d.drop_first();
        assert forall|i: int| 0 <= i < rest.len() implies is_digit(#[trigger] rest[i]) by {
            assert(rest[i] == d[i + 1]);
        }
        lemma_padded_back(rest);
        assert(d =~= seq!['0'] + rest);
        lemma_leading_zero(rest);
        let v = digits_value(d);
        assert(v == digits_value(rest));
        assert(decimal(v).len() <= rest.len());
        lemma_zeros_grow(pad_count(v, rest.len()));
        assert(pad_count(v, d.len()) == pad_count(v, rest.len()) + 1);
        assert(padded(v, d.len()) =~= seq!['0'] + padded(v, rest.len()));
    }
}

/// The index a shard's name writes, as written.
pub open spec fn index_text(name: Seq<char>) -> Seq<char> {
    let rest = name.take(last_of(name, '.'));
    let head = rest.take(last_match(rest, of_marker()));
    head.skip(last_of(head, '-') + 1)
}

proof fn lemma_shard_name(name: Seq<char>)
    requires
        shard_parts(name) is Some,
    ensures
        name == shard_parts(name)->Some_0.0 + seq!['-'] + index_text(name) + of_marker() + shard_parts(name)->Some_0.2
            + seq!['.'] + shard_parts(name)->Some_0.3,
        index_text(name).len() == shard_parts(name)->Some_0.2.len(),
        index_text(name).len() >= 1,
        all_digits(index_text(name)),
        digits_value(index_text(name)) == shard_parts(name)->Some_0.1 as nat,
{
    let parts = shard_parts(name)->Some_0;
    let dot = last_of(name, '.');
    let rest = name.take(dot);
    let of = last_match(rest, of_marker());
    let head = rest.take(of);
    let dash = last_of(head, '-');
    lemma_last_of_finds(name, '.');
    lemma_last_match_finds(rest, of_marker());
    lemma_last_of_finds(head, '-');
    assert(name =~= rest + seq!['.'] + parts.3);
    assert(rest =~= head + of_marker() + parts.2);
    assert(head =~= parts.0 + seq!['-'] + index_text(name));
}

/// Naming a shard's own place among its siblings gives back the path it was
/// read from: reading a shard suffix and writing one are each other's undoing.
pub proof fn law_a_shard_names_itself_again(model: Seq<char>)
    requires
        shard_parts(file_name(model)) is Some,
    ensures
        sibling_text(model, shard_parts(file_name(model))->Some_0, shard_parts(file_name(model))->Some_0.1 as nat)
            == model,
{
    let name = file_name(model);
    let parts = shard_parts(name)->Some_0;
    lemma_shard_name(name);
    lemma_padded_back(index_text(name));
    lemma_last_of_finds(model, '/');
    assert(model =~= directory_of(model) + name);
    assert(sibling_text(model, parts, parts.1 as nat) =~= directory_of(model) + name);
}

} // verus!

//! What a child says, the last of it kept: so a child that dies while
//! loading can be asked what it said on the way out.
//!
//! Each of a child's streams is drained by the caller; where its bytes
//! break into lines, what is kept of the lines, and how a failure quotes
//! them, is here. A child that writes without a newline -- a progress bar
//! redrawn with carriage returns -- is split at the longest line rather than
//! held in memory until it stops, and output that is not text is kept
//! readable.

use vstd::prelude::*;

use crate::text::{chars_of, joined, push_joined, push_str, string_of, subrange_bytes, views};

verus! {

/// How many of a child's last lines are kept for a failure to quote.
pub const KEPT: usize = 5;

/// The longest line passed on whole.
pub const LONGEST_LINE: usize = 4096;

/// Where a line that starts at `from` ends: just past the first newline at
/// or after `at`, and before `cap`; at `cap` when there is none.
pub open spec fn newline_from(b: Seq<u8>, at: int, cap: int) -> int
    decreases cap - at,
{
    if at >= cap {
        cap
    } else if b[at] == 10 {
        at + 1
    } else {
        newline_from(b, at + 1, cap)
    }
}

/// Where the line that starts at `from` ends: just past its newline, or
/// after the longest line, or at the end of the bytes, whichever is first.
pub open spec fn line_end(b: Seq<u8>, from: int) -> int {
    let cap = if from + LONGEST_LINE < b.len() {
        from + LONGEST_LINE
    } else {
        b.len() as int
    };
    newline_from(b, from, cap)
}

/// The lines the bytes from `from` break into, each with its newline.
pub open spec fn lines_from(b: Seq<u8>, from: int) -> Seq<Seq<u8>>
    decreases b.len() - from,
{
    if from < 0 || from >= b.len() {
        Seq::empty()
    } else {
        let e = line_end(b, from);
        if e <= from || e > b.len() {
            Seq::empty()
        } else {
            seq![b.subrange(from, e)] + lines_from(b, e)
        }
    }
}

/// Lines put back together, in order.
pub open spec fn together(lines: Seq<Seq<u8>>) -> Seq<u8>
    decreases lines.len(),
{
    if lines.len() == 0 {
        Seq::empty()
    } else {
        lines[0] + together(lines.drop_first())
    }
}

proof fn lemma_newline_from(b: Seq<u8>, at: int, cap: int)
    requires
        at <= cap,
    ensures
        at <= newline_from(b, at, cap) <= cap,
        at < cap ==> at < newline_from(b, at, cap),
        newline_from(b, at, cap) < cap ==> b[newline_from(b, at, cap) - 1] == 10,
    decreases cap - at,
{
    if at < cap && b[at] != 10 {
        lemma_newline_from(b, at + 1, cap);
    }
}

/// What a child wrote, broken into lines, loses nothing and doubles
/// nothing: the lines put back together are the bytes. No line is empty or
/// longer than the longest line, and a line shorter than that which is not
/// the last ends with its newline: a line is split only where it has no end.
pub proof fn law_lines_put_together_are_the_bytes(b: Seq<u8>, from: int)
    requires
        0 <= from <= b.len(),
    ensures
        together(lines_from(b, from)) == b.subrange(from, b.len() as int),
        forall|i: int|
            0 <= i < lines_from(b, from).len() ==> 0 < #[trigger] lines_from(b, from)[i].len() <= LONGEST_LINE,
        forall|i: int|
            0 <= i < lines_from(b, from).len() - 1 && #[trigger] lines_from(b, from)[i].len() < LONGEST_LINE
                ==> lines_from(b, from)[i].last() == 10,
    decreases b.len() - from,
{
    if from == b.len() {
        assert(b.subrange(from, b.len() as int) =~= Seq::<u8>::empty());
    } else {
        let cap = if from + LONGEST_LINE < b.len() {
            from + LONGEST_LINE
        } else {
            b.len() as int
        };
        lemma_newline_from(b, from, cap);
        let e = line_end(b, from);
        let first = b.subrange(from, e);
        law_lines_put_together_are_the_bytes(b, e);
        let lines = lines_from(b, from);
        let rest = lines_from(b, e);
        assert(lines == seq![first] + rest);
        assert(lines.drop_first() =~= rest);
        assert(together(lines) == first + together(rest));
        assert(b.subrange(from, b.len() as int) =~= first + b.subrange(e, b.len() as int));
        assert forall|i: int| 0 <= i < lines.len() implies 0 < #[trigger] lines[i].len() <= LONGEST_LINE by {
            if i > 0 {
                assert(lines[i] == rest[i - 1]);
            }
        }
        assert forall|i: int| 0 <= i < lines.len() - 1 && #[trigger] lines[i].len() < LONGEST_LINE implies lines[i].last()
            == 10 by {
            if i > 0 {
                assert(lines[i] == rest[i - 1]);
            } else {
                assert(rest.len() > 0);
                assert(e < b.len());
                assert(first.last() == b[e - 1]);
            }
        }
    }
}

/// The text bytes read as, with what is not UTF-8 replaced.
pub uninterp spec fn lossy_text(bytes: Seq<u8>) -> Seq<char>;

/// The characters of bytes that are all ASCII.
pub open spec fn ascii_chars(bytes: Seq<u8>) -> Seq<char> {
    bytes.map_values(|c: u8| c as char)
}

/// What is kept once one more line is kept: the oldest let go once five are.
pub open spec fn kept_after(kept: Seq<Seq<char>>, line: Seq<char>) -> Seq<Seq<char>> {
    if kept.len() < KEPT {
        kept.push(line)
    } else {
        kept.drop_first().push(line)
    }
}

/// What is kept once each of these lines is read as text and kept in turn.
pub open spec fn keeping(kept: Seq<Seq<char>>, lines: Seq<Seq<u8>>) -> Seq<Seq<char>>
    decreases lines.len(),
{
    if lines.len() == 0 {
        kept
    } else {
        keeping(kept_after(kept, without_ending(lossy_text(lines[0]))), lines.drop_first())
    }
}

/// Whether every byte is ASCII.
pub open spec fn all_ascii(bytes: Seq<u8>) -> bool {
    forall|i: int| 0 <= i < bytes.len() ==> bytes[i] < 128
}

/// What is kept once each of these lines of ASCII is kept in turn, each
/// byte read as the character it is.
pub open spec fn keeping_ascii(kept: Seq<Seq<char>>, lines: Seq<Seq<u8>>) -> Seq<Seq<char>>
    decreases lines.len(),
{
    if lines.len() == 0 {
        kept
    } else {
        keeping_ascii(kept_after(kept, without_ending(ascii_chars(lines[0]))), lines.drop_first())
    }
}

/// The bytes as text, with every sequence that is not UTF-8 replaced by
/// U+FFFD.
///
/// Trusted: calls `String::from_utf8_lossy`. Its result depends on the bytes
/// alone, and std documents that bytes that are valid UTF-8 -- ASCII among
/// them -- come back unchanged; what replaces the rest is not stated here.
#[verifier::external_body]
fn lossy(bytes: &[u8]) -> (text: String)
    ensures
        text@ == lossy_text(bytes@),
        (forall|i: int| 0 <= i < bytes@.len() ==> bytes@[i] < 128) ==> text@ == ascii_chars(bytes@),
{
    String::from_utf8_lossy(bytes).into_owned()
}

/// Where the line that starts at `from` ends.
pub fn line_end_at(b: &[u8], from: usize) -> (end: usize)
    requires
        from < b@.len(),
    ensures
        end == line_end(b@, from as int),
        from < end <= b@.len(),
        end <= from + LONGEST_LINE,
{
    let cap = if b.len() - from > LONGEST_LINE {
        from + LONGEST_LINE
    } else {
        b.len()
    };
    let mut at = from;
    while at < cap
        invariant
            from <= at <= cap <= b@.len(),
            cap <= from + LONGEST_LINE,
            cap == (if from + LONGEST_LINE < b@.len() { from + LONGEST_LINE } else { b@.len() as int }),
            newline_from(b@, from as int, cap as int) == newline_from(b@, at as int, cap as int),
        decreases cap - at,
    {
        if b[at] == 10 {
            return at + 1;
        }
        at = at + 1;
    }
    cap
}

/// A line without the line ending it was read with: every `\r` and `\n` at
/// its end.
pub open spec fn without_ending(line: Seq<char>) -> Seq<char>
    decreases line.len(),
{
    if line.len() > 0 && (line.last() == '\r' || line.last() == '\n') {
        without_ending(line.drop_last())
    } else {
        line
    }
}

/// The last lines a child wrote, oldest first.
#[derive(Debug, PartialEq, Eq)]
pub struct LastLines {
    lines: Vec<String>,
}

impl LastLines {
    /// No more than five are ever kept.
    #[verifier::type_invariant]
    spec fn keeps_few(&self) -> bool {
        self.lines@.len() <= KEPT
    }

    /// The lines kept, oldest first.
    pub closed spec fn kept(&self) -> Seq<Seq<char>> {
        views(self.lines@)
    }

    /// None kept yet.
    pub fn new() -> (last: LastLines)
        ensures
            last.kept() == Seq::<Seq<char>>::empty(),
    {
        let lines: Vec<String> = Vec::new();
        assert(views(lines@) =~= Seq::<Seq<char>>::empty());
        LastLines { lines }
    }

    /// Keeps one more line, without its ending, letting the oldest go once
    /// five are kept.
    pub fn passed_on(&mut self, line: &str)
        ensures
            final(self).kept().len() <= KEPT,
            old(self).kept().len() < KEPT ==> final(self).kept() == old(self).kept().push(without_ending(line@)),
            old(self).kept().len() == KEPT ==> final(self).kept() == old(self).kept().drop_first().push(
                without_ending(line@),
            ),
    {
        proof {
            use_type_invariant(&*self);
        }
        let chars = chars_of(line);
        let mut end = chars.len();
        assert(chars@.take(end as int) =~= chars@);
        while end > 0 && (chars[end - 1] == '\r' || chars[end - 1] == '\n')
            invariant
                end <= chars@.len(),
                without_ending(chars@) == without_ending(chars@.take(end as int)),
            decreases end,
        {
            assert(chars@.take(end as int).drop_last() =~= chars@.take(end - 1));
            end = end - 1;
        }
        assert(without_ending(chars@.take(end as int)) == chars@.take(end as int));
        let kept = string_of(crate::text::subrange_chars(&chars, 0, end).as_slice());
        assert(kept@ =~= chars@.take(end as int));
        let ghost before = views(self.lines@);
        let mut lines: Vec<String> = Vec::new();
        std::mem::swap(&mut lines, &mut self.lines);
        if lines.len() == KEPT {
            lines.remove(0);
            assert(views(lines@) =~= before.drop_first());
        }
        let ghost middle = views(lines@);
        lines.push(kept);
        assert(views(lines@) =~= middle.push(kept@));
        self.lines = lines;
    }

    /// Breaks what a child wrote into lines and keeps each in turn: at each
    /// newline, and after the longest line where a newline is long in
    /// coming.
    pub fn take_in(&mut self, bytes: &[u8])
        ensures
            final(self).kept().len() <= KEPT,
            final(self).kept() == keeping(old(self).kept(), lines_from(bytes@, 0)),
            all_ascii(bytes@) ==> final(self).kept() == keeping_ascii(old(self).kept(), lines_from(bytes@, 0)),
    {
        proof {
            use_type_invariant(&*self);
        }
        let mut from: usize = 0;
        while from < bytes.len()
            invariant
                from <= bytes@.len(),
                self.kept().len() <= KEPT,
                keeping(old(self).kept(), lines_from(bytes@, 0)) == keeping(self.kept(), lines_from(bytes@, from as int)),
                all_ascii(bytes@) ==> keeping_ascii(old(self).kept(), lines_from(bytes@, 0)) == keeping_ascii(
                    self.kept(),
                    lines_from(bytes@, from as int),
                ),
            decreases bytes@.len() - from,
        {
            let end = line_end_at(bytes, from);
            let piece = subrange_bytes(bytes, from, end);
            let text = lossy(piece.as_slice());
            let ghost line = bytes@.subrange(from as int, end as int);
            let ghost before = self.kept();
            assert(piece@ == line);
            proof {
                if all_ascii(bytes@) {
                    assert forall|j: int| 0 <= j < piece@.len() implies piece@[j] < 128 by {
                        assert(piece@[j] == bytes@[from + j]);
                    }
                }
            }
            assert(lines_from(bytes@, from as int) == seq![line] + lines_from(bytes@, end as int));
            assert((seq![line] + lines_from(bytes@, end as int)).drop_first() =~= lines_from(bytes@, end as int));
            self.passed_on(&text);
            assert(self.kept() == kept_after(before, without_ending(lossy_text(line))));
            assert(all_ascii(bytes@) ==> self.kept() == kept_after(before, without_ending(ascii_chars(line))));
            from = end;
        }
        assert(lines_from(bytes@, from as int) == Seq::<Seq<u8>>::empty());
    }

    /// The lines kept, oldest first.
    pub fn last(&self) -> (lines: &Vec<String>)
        ensures
            views(lines@) == self.kept(),
    {
        &self.lines
    }
}

/// What a failure ends with: the last lines a child said, one to a line
/// and indented; nothing when it said nothing.
pub open spec fn last_words_text(lines: Seq<Seq<char>>) -> Seq<char> {
    if lines.len() == 0 {
        Seq::empty()
    } else {
        "; it said last:\n  "@ + joined(lines, "\n  "@)
    }
}

/// What a failure ends with, from the lines a child said last.
pub fn last_words(lines: &Vec<String>) -> (text: String)
    ensures
        text@ == last_words_text(views(lines@)),
{
    let mut text = String::new();
    if lines.len() > 0 {
        push_str(&mut text, "; it said last:\n  ");
        push_joined(&mut text, lines, "\n  ");
    }
    text
}

} // verus!

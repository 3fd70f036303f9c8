//! Lines of text and the character-indexed edits made on them.

use vstd::prelude::*;
use vstd::string::*;

verus! {

/// What `line` reads after the characters from `start` up to `end` have given
/// way to `with`.
pub open spec fn replaced(line: Seq<char>, with: Seq<char>, start: int, end: int) -> Seq<char> {
    line.subrange(0, start) + with + line.subrange(end, line.len() as int)
}

/// The lines of `text`: the stretches between its line feeds. A text of `n`
/// line feeds has `n + 1` lines, the last of them possibly empty; a carriage
/// return is a character of its line like any other.
pub open spec fn split(text: Seq<char>) -> Seq<Seq<char>>
    decreases text.len(),
{
    if text.len() == 0 {
        seq![Seq::<char>::empty()]
    } else {
        let before = split(text.drop_last());
        if text.last() == '\n' {
            before.push(Seq::<char>::empty())
        } else {
            before.drop_last().push(before.last().push(text.last()))
        }
    }
}

/// The text whose lines are `lines`: a line feed between each two neighbours.
pub open spec fn joined(lines: Seq<Seq<char>>) -> Seq<char>
    decreases lines.len(),
{
    if lines.len() == 0 {
        Seq::<char>::empty()
    } else if lines.len() == 1 {
        lines[0]
    } else {
        joined(lines.drop_last()).push('\n') + lines.last()
    }
}

/// Splitting yields at least one line.
pub proof fn lemma_split_nonempty(text: Seq<char>)
    ensures
        split(text).len() >= 1,
    decreases text.len(),
{
    if text.len() > 0 {
        lemma_split_nonempty(text.drop_last());
    }
}

/// Splitting a text and joining the lines again gives the text back, character
/// for character.
pub proof fn lemma_join_split(text: Seq<char>)
    ensures
        joined(split(text)) == text,
    decreases text.len(),
{
    if text.len() > 0 {
        let rest = text.drop_last();
        let before = split(rest);
        lemma_join_split(rest);
        lemma_split_nonempty(rest);
        if text.last() == '\n' {
            let after = before.push(Seq::<char>::empty());
            assert(after.drop_last() == before);
            assert(joined(after) == rest.push('\n'));
        } else {
            let after = before.drop_last().push(before.last().push(text.last()));
            assert(after.drop_last() == before.drop_last());
            if before.len() == 1 {
                assert(joined(after) == before[0].push(text.last()));
            } else {
                assert(joined(after) == joined(before.drop_last()).push('\n') + before.last().push(
                    text.last(),
                ));
                assert(joined(after) == joined(before).push(text.last()));
            }
        }
        assert(text == rest.push(text.last()));
    }
}

/// No line of a split text holds a line feed.
pub proof fn lemma_split_lines_hold_no_feed(text: Seq<char>, i: int, j: int)
    requires
        0 <= i < split(text).len(),
        0 <= j < split(text)[i].len(),
    ensures
        split(text)[i][j] != '\n',
    decreases text.len(),
{
    if text.len() > 0 {
        let before = split(text.drop_last());
        lemma_split_nonempty(text.drop_last());
        if text.last() == '\n' {
            lemma_split_lines_hold_no_feed(text.drop_last(), i, j);
        } else if i < before.len() - 1 {
            lemma_split_lines_hold_no_feed(text.drop_last(), i, j);
        } else if j < before.last().len() {
            lemma_split_lines_hold_no_feed(text.drop_last(), i, j);
        }
    }
}

/// Replaces the characters of `line` from `char_start` up to `char_end` by
/// `with`. Both bounds count characters, not bytes.
pub fn replace_chars(line: &mut String, with: &str, char_start: usize, char_end: usize)
    requires
        char_start <= char_end <= old(line)@.len(),
    ensures
        final(line)@ == replaced(old(line)@, with@, char_start as int, char_end as int),
{
    let len = line.as_str().unicode_len();
    let mut out = String::from_str(line.as_str().substring_char(0, char_start));
    out.append(with);
    out.append(line.as_str().substring_char(char_end, len));
    *line = out;
}

/// `String::push`: the string grows by the one character `c` at its end.
#[verifier::external_body]
fn push_char(text: &mut String, c: char)
    ensures
        final(text)@ == old(text)@.push(c),
{
    text.push(c);
}

/// The characters of each of `lines`.
pub open spec fn texts(lines: Seq<String>) -> Seq<Seq<char>> {
    Seq::new(lines.len(), |i: int| lines[i]@)
}

/// The text of a source file as a sequence of lines.
#[derive(Clone, Debug, PartialEq, Eq)]
pub struct SourceBuffer {
    pub lines: Vec<String>,
}

impl View for SourceBuffer {
    type V = Seq<Seq<char>>;

    open spec fn view(&self) -> Seq<Seq<char>> {
        texts(self.lines@)
    }
}

impl SourceBuffer {
    /// Cuts `text` into its lines.
    pub fn from_text(text: &str) -> (buffer: SourceBuffer)
        ensures
            buffer@ == split(text@),
    {
        let mut lines: Vec<String> = Vec::new();
        let mut current = String::new();
        let ghost mut seen: Seq<char> = Seq::empty();
        for c in it: text.chars()
            invariant
                it.seq() == text@,
                seen == text@.subrange(0, it.index() as int),
                texts(lines@).push(current@) == split(seen),
        {
            proof {
                let next = text@.subrange(0, it.index() + 1);
                assert(next.drop_last() == seen);
                assert(next.last() == c);
                seen = next;
            }
            if c == '\n' {
                lines.push(current);
                current = String::new();
            } else {
                push_char(&mut current, c);
            }
            assert(texts(lines@).push(current@) == split(seen));
        }
        lines.push(current);
        assert(seen == text@);
        let buffer = SourceBuffer { lines };
        assert(buffer@ == split(text@));
        buffer
    }

    /// Joins the lines into one text again.
    pub fn to_text(&self) -> (text: String)
        ensures
            text@ == joined(self@),
    {
        let mut text = String::new();
        let mut i: usize = 0;
        while i < self.lines.len()
            invariant
                i <= self.lines@.len(),
                text@ == joined(self@.subrange(0, i as int)),
            decreases self.lines@.len() - i,
        {
            assert(self@.subrange(0, i + 1).drop_last() == self@.subrange(0, i as int));
            if i > 0 {
                push_char(&mut text, '\n');
            }
            text.append(self.lines[i].as_str());
            i += 1;
        }
        assert(self@.subrange(0, i as int) == self@);
        text
    }
}

} // verus!

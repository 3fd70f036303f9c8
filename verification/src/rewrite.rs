//! Collapsing one invocation into a native conditional.

use vstd::prelude::*;
use vstd::string::*;
use crate::buffer::{joined, split, texts, SourceBuffer};
use crate::chain::{ChainView, IfChain, Position, Site, Span};
use crate::edit::{
    all_well_placed, applied_all, lemma_none_misplaced, misplaced, well_placed, Edit, Token,
};
use crate::plan::{block_edits, brace_marks, head_edits, plan, planned, stretch_edits};

verus! {

/// A planned edit does not lie where the text has room for it: the positions
/// handed in do not belong to this text.
#[derive(Clone, Copy, Debug, PartialEq, Eq, Structural)]
pub struct SpanError {
    /// Where the first such edit was to start.
    pub at: Position,
}

/// Whether line `line`, counted from 1, lies between the lines that hold the
/// braces of `block`.
pub open spec fn lies_within(block: Span, line: int) -> bool {
    block.start.line < line < block.end.line
}

/// Whether line `line`, counted from 1, is a line of a body of `chain`: it
/// lies within the consequence or within the alternative, on neither of the
/// lines that hold the block's braces.
pub open spec fn is_body_line(chain: ChainView, line: int) -> bool {
    lies_within(chain.then_clause.block, line) || match chain.else_clause {
        Some(alternative) => lies_within(alternative.block, line),
        None => false,
    }
}

/// `line` without its first `deindent` characters, if it is longer than that.
pub open spec fn shifted(line: Seq<char>, deindent: int) -> Seq<char> {
    if line.len() > deindent {
        line.subrange(deindent, line.len() as int)
    } else {
        line
    }
}

/// `lines` with every body line of `chain` shifted to the left.
pub open spec fn reindented(lines: Seq<Seq<char>>, chain: ChainView, deindent: int) -> Seq<
    Seq<char>,
> {
    Seq::new(
        lines.len(),
        |i: int|
            if is_body_line(chain, i + 1) {
                shifted(lines[i], deindent)
            } else {
                lines[i]
            },
    )
}

/// The lines of `lines` strictly between the indices `from` and `to`.
pub open spec fn between(lines: Seq<Seq<char>>, from: int, to: int) -> Seq<Seq<char>> {
    if from < to {
        lines.subrange(from + 1, to)
    } else {
        Seq::<Seq<char>>::empty()
    }
}

/// The lines in their final arrangement. `top` is the index of the line on
/// which the invocation starts, `first` that of the first condition, `last`
/// that of the chain's end and `bottom` that of the closing delimiter.
///
/// The first condition's line moves up and is appended to the top line; the
/// line of the chain's end moves down and is put in front of the bottom
/// line. Lines between top and first, and between last and bottom, stay in
/// their order between the two.
pub open spec fn arranged(
    lines: Seq<Seq<char>>,
    top: int,
    first: int,
    last: int,
    bottom: int,
) -> Seq<Seq<char>>
    recommends
        0 <= top <= first <= last <= bottom < lines.len(),
{
    let head = if top == first {
        lines[first]
    } else {
        lines[top] + lines[first]
    };
    let above = lines.subrange(0, top);
    let below = lines.subrange(bottom + 1, lines.len() as int);
    if first == last {
        let whole = if last == bottom {
            head
        } else {
            head + lines[bottom]
        };
        above.push(whole) + between(lines, top, first) + between(lines, last, bottom) + below
    } else {
        let tail = if last == bottom {
            lines[last]
        } else {
            lines[last] + lines[bottom]
        };
        above.push(head) + between(lines, top, first) + between(lines, first, last) + between(
            lines,
            last,
            bottom,
        ).push(tail) + below
    }
}

/// The character at `bang` is a `!` and falls to `edit`.
pub open spec fn strikes_bang(lines: Seq<Seq<char>>, edit: Edit, bang: Position) -> bool {
    &&& 1 <= bang.line <= lines.len()
    &&& bang.line == edit.at.line
    &&& edit.at.column <= bang.column < edit.until.column
    &&& bang.column < lines[bang.line - 1].len()
    &&& lines[bang.line - 1][bang.column as int] == '!'
}

/// The positions of `chain` and `site` belong to `lines`: every planned edit
/// lies within its line, the edits follow one another without overlap, and
/// the first of them takes away the `!` of the invocation.
pub open spec fn fits(lines: Seq<Seq<char>>, chain: ChainView, site: Site) -> bool {
    &&& all_well_placed(lines, planned(lines, chain, site))
    &&& strikes_bang(lines, planned(lines, chain, site)[0], site.bang_token)
}

/// `lines` with the invocation of `chain` at `site` collapsed into a native
/// conditional.
pub open spec fn collapsed(
    lines: Seq<Seq<char>>,
    chain: ChainView,
    site: Site,
    deindent: int,
) -> Seq<Seq<char>> {
    arranged(
        reindented(applied_all(lines, planned(lines, chain, site)), chain, deindent),
        site.span.start.line - 1,
        chain.statements[0].start().line - 1,
        chain.end().line - 1,
        site.span.end.line - 1,
    )
}

/// The error that the positions of `chain` and `site` meet in `lines`, if
/// they meet one: it names the start of the first edit that is not well
/// placed, or else the place where the `!` of the invocation was to be.
pub open spec fn span_error(lines: Seq<Seq<char>>, chain: ChainView, site: Site) -> Option<
    SpanError,
> {
    match misplaced(lines, planned(lines, chain, site)) {
        Some(i) => Some(SpanError { at: planned(lines, chain, site)[i].at }),
        None => if strikes_bang(lines, planned(lines, chain, site)[0], site.bang_token) {
            None
        } else {
            Some(SpanError { at: site.bang_token })
        },
    }
}

/// The positions fit exactly where they meet no error.
pub proof fn lemma_fits_or_fails(lines: Seq<Seq<char>>, chain: ChainView, site: Site)
    ensures
        fits(lines, chain, site) <==> span_error(lines, chain, site) is None,
{
    lemma_none_misplaced(lines, planned(lines, chain, site));
}

/// Well placed edits come on lines that never go back.
pub proof fn lemma_lines_ascend(lines: Seq<Seq<char>>, edits: Seq<Edit>, i: int, j: int)
    requires
        all_well_placed(lines, edits),
        0 <= i <= j < edits.len(),
    ensures
        edits[i].at.line <= edits[j].at.line,
    decreases j - i,
{
    if i < j {
        lemma_lines_ascend(lines, edits, i, j - 1);
        assert(well_placed(lines, edits, j));
        assert(well_placed(lines, edits, j - 1));
    }
}

/// Where the positions fit, the four lines that the arrangement moves exist
/// and follow one another.
pub proof fn lemma_fits_orders_lines(lines: Seq<Seq<char>>, chain: ChainView, site: Site)
    requires
        chain.well_formed(),
        all_well_placed(lines, planned(lines, chain, site)),
    ensures
        1 <= site.span.start.line <= chain.statements[0].start().line <= chain.end().line
            <= site.span.end.line <= lines.len(),
{
    let edits = planned(lines, chain, site);
    let head = head_edits(lines, chain.statements[0], site);
    let n = edits.len() as int;
    let h = head.len() as int;
    assert(edits[0] == head[0]);
    assert(edits[h - 1] == head[h - 1]);
    let blocks = block_edits(lines, chain, site);
    let b = blocks.len() as int;
    assert(edits[n - 1] == blocks[b - 1]);
    assert(edits[n - 2] == blocks[b - 2]);
    assert(well_placed(lines, edits, 0));
    assert(well_placed(lines, edits, h - 1));
    assert(well_placed(lines, edits, n - 2));
    assert(well_placed(lines, edits, n - 1));
    lemma_lines_ascend(lines, edits, 0, h - 1);
    lemma_lines_ascend(lines, edits, h - 1, n - 2);
    lemma_lines_ascend(lines, edits, n - 2, n - 1);
}

/// Where the plan is well placed, the blocks follow one another between the
/// invocation's first and last line, so every body line lies strictly between
/// those two.
pub proof fn lemma_body_lines_lie_inside(
    lines: Seq<Seq<char>>,
    chain: ChainView,
    site: Site,
    line: int,
)
    requires
        chain.well_formed(),
        all_well_placed(lines, planned(lines, chain, site)),
        is_body_line(chain, line),
    ensures
        site.span.start.line < line < site.span.end.line,
{
    let edits = planned(lines, chain, site);
    let n = edits.len() as int;
    let head = head_edits(lines, chain.statements[0], site);
    let blocks = block_edits(lines, chain, site);
    let marks = brace_marks(chain);
    let stretch = stretch_edits(
        lines,
        chain.then_clause.then_token,
        chain.then_clause.block.start,
        Token::Nothing,
    );
    let b = blocks.len() as int;
    let brace = n - marks.len() - 2;
    assert(edits[0] == head[0]);
    assert(edits[n - 1] == blocks[b - 1]);
    assert(edits[brace] == blocks[stretch.len() - 1]);
    assert(edits[brace].until == chain.then_clause.block.start);
    assert(edits[brace + 1] == blocks[stretch.len() as int]);
    assert(edits[brace + 1] == marks[0]);
    assert(well_placed(lines, edits, 0));
    assert(well_placed(lines, edits, brace));
    assert(well_placed(lines, edits, brace + 1));
    assert(well_placed(lines, edits, n - 1));
    lemma_lines_ascend(lines, edits, 0, brace);
    lemma_lines_ascend(lines, edits, brace, brace + 1);
    lemma_lines_ascend(lines, edits, brace + 1, n - 1);
    if chain.else_clause is Some {
        assert(edits[n - 3] == blocks[b - 3]);
        assert(edits[n - 2] == blocks[b - 2]);
        assert(edits[n - 3] == marks[1]);
        assert(edits[n - 2] == marks[2]);
        assert(well_placed(lines, edits, n - 3));
        assert(well_placed(lines, edits, n - 2));
        lemma_lines_ascend(lines, edits, 0, n - 3);
        lemma_lines_ascend(lines, edits, n - 3, n - 2);
        lemma_lines_ascend(lines, edits, n - 2, n - 1);
    }
}

/// Appends copies of the lines of `source` from index `from` up to `to`.
fn push_lines(out: &mut Vec<String>, source: &Vec<String>, from: usize, to: usize)
    requires
        from <= to <= source@.len(),
    ensures
        texts(final(out)@) == texts(old(out)@) + texts(source@).subrange(from as int, to as int),
{
    let ghost before = texts(out@);
    let mut i: usize = from;
    while i < to
        invariant
            from <= i <= to <= source@.len(),
            texts(out@) == before + texts(source@).subrange(from as int, i as int),
        decreases to - i,
    {
        let ghost so_far = texts(out@);
        out.push(source[i].clone());
        assert(texts(out@) =~= so_far.push(source@[i as int]@));
        assert(texts(source@).subrange(from as int, i + 1) =~= texts(source@).subrange(
            from as int,
            i as int,
        ).push(source@[i as int]@));
        i += 1;
    }
    assert(texts(source@).subrange(from as int, from as int) =~= Seq::<Seq<char>>::empty());
}

/// Appends copies of the lines of `source` strictly between the indices
/// `from` and `to`.
fn push_between(out: &mut Vec<String>, source: &Vec<String>, from: usize, to: usize)
    requires
        to < source@.len(),
    ensures
        texts(final(out)@) == texts(old(out)@) + between(texts(source@), from as int, to as int),
{
    if from < to {
        push_lines(out, source, from + 1, to);
    }
}

impl SourceBuffer {
    /// Shifts every body line of `chain` to the left by `deindent` characters,
    /// but for the lines that are not longer than that.
    pub fn reindent(&mut self, chain: &IfChain, deindent: usize)
        ensures
            final(self)@ == reindented(old(self)@, chain@, deindent as int),
    {
        let ghost before = self@;
        let mut i: usize = 0;
        while i < self.lines.len()
            invariant
                i <= self.lines@.len(),
                self@.len() == before.len(),
                forall|j: int| 0 <= j < i ==> self@[j] == reindented(before, chain@, deindent as int)[j],
                forall|j: int| i <= j < before.len() ==> self@[j] == before[j],
            decreases self.lines@.len() - i,
        {
            let line = i + 1;
            let consequence = chain.then_clause.block;
            let inside = (consequence.start.line < line && line < consequence.end.line)
                || match chain.else_clause {
                Some(alternative) => alternative.block.start.line < line && line
                    < alternative.block.end.line,
                None => false,
            };
            let ghost current = self@;
            if inside {
                let len = self.lines[i].as_str().unicode_len();
                if len > deindent {
                    let rest = String::from_str(self.lines[i].as_str().substring_char(deindent, len));
                    self.lines.set(i, rest);
                    assert(self@ =~= current.update(i as int, rest@));
                }
            }
            assert(self@[i as int] == reindented(before, chain@, deindent as int)[i as int]);
            i += 1;
        }
        assert(self@ =~= reindented(before, chain@, deindent as int));
    }

    /// Puts the lines into their final arrangement, see [`arranged`].
    pub fn arrange(&self, top: usize, first: usize, last: usize, bottom: usize) -> (out:
        SourceBuffer)
        requires
            top <= first <= last <= bottom < self@.len(),
        ensures
            out@ == arranged(self@, top as int, first as int, last as int, bottom as int),
    {
        let count = self.lines.len();
        assert(self@.len() == count);
        let mut lines: Vec<String> = Vec::new();
        push_lines(&mut lines, &self.lines, 0, top);
        assert(texts(lines@) =~= self@.subrange(0, top as int));
        let mut head = self.lines[top].clone();
        if top != first {
            head.append(self.lines[first].as_str());
        }
        if first == last {
            if last != bottom {
                head.append(self.lines[bottom].as_str());
            }
            let ghost above = texts(lines@);
            lines.push(head);
            assert(texts(lines@) =~= above.push(head@));
            push_between(&mut lines, &self.lines, top, first);
            push_between(&mut lines, &self.lines, last, bottom);
        } else {
            let ghost above = texts(lines@);
            lines.push(head);
            assert(texts(lines@) =~= above.push(head@));
            push_between(&mut lines, &self.lines, top, first);
            push_between(&mut lines, &self.lines, first, last);
            push_between(&mut lines, &self.lines, last, bottom);
            let mut tail = self.lines[last].clone();
            if last != bottom {
                tail.append(self.lines[bottom].as_str());
            }
            let ghost upper = texts(lines@);
            lines.push(tail);
            assert(texts(lines@) =~= upper.push(tail@));
        }
        push_lines(&mut lines, &self.lines, bottom + 1, count);
        let out = SourceBuffer { lines };
        assert(out@ =~= arranged(self@, top as int, first as int, last as int, bottom as int));
        out
    }

    /// Collapses the invocation of `chain` at `site` into a native
    /// conditional, or says where the positions do not belong to this text.
    pub fn collapse(self, chain: &IfChain, site: &Site, deindent: usize) -> (out: Result<
        SourceBuffer,
        SpanError,
    >)
        requires
            chain.well_formed(),
        ensures
            out is Ok <==> fits(self@, chain@, *site),
            out is Ok <==> span_error(self@, chain@, *site) is None,
            out matches Ok(buffer) ==> buffer@ == collapsed(self@, chain@, *site, deindent as int),
            out matches Err(error) ==> span_error(self@, chain@, *site) == Some(error),
    {
        let edits = plan(&self, chain, site);
        match self.first_misplaced(&edits) {
            Some(i) => {
                Err(SpanError { at: edits[i].at })
            },
            None => {
                proof {
                    lemma_fits_orders_lines(self@, chain@, *site);
                }
                let bang = site.bang_token;
                let first = edits[0];
                let struck = bang.line == first.at.line && first.at.column <= bang.column
                    && bang.column < first.until.column && self.lines[bang.line
                    - 1].as_str().get_char(bang.column) == '!';
                if !struck {
                    return Err(SpanError { at: bang });
                }
                let mut buffer = self;
                buffer.apply(&edits);
                buffer.reindent(chain, deindent);
                let arranged = buffer.arrange(
                    site.span.start.line - 1,
                    chain.statements[0].start().line - 1,
                    chain.end().line - 1,
                    site.span.end.line - 1,
                );
                Ok(arranged)
            },
        }
    }
}

/// The text of `found` after one rewrite: what `input` reads once the
/// invocation of `chain` at `site` has been collapsed.
pub open spec fn rewritten(input: Seq<char>, chain: ChainView, site: Site, deindent: int) -> Seq<
    char,
> {
    joined(collapsed(split(input), chain, site, deindent))
}

/// Rewrites the invocation of `chain` at `site` in `input` into a native
/// conditional: conditions joined by `&&`, the consequence's block behind
/// them, body lines shifted left by `deindent` characters. Nothing outside
/// the invocation changes. Fails where the positions do not belong to
/// `input`.
pub fn if_to_let_chain(input: &str, deindent: usize, chain: &IfChain, site: &Site) -> (out: Result<
    String,
    SpanError,
>)
    requires
        chain.well_formed(),
    ensures
        out is Ok <==> fits(split(input@), chain@, *site),
        out is Ok <==> span_error(split(input@), chain@, *site) is None,
        out matches Ok(text) ==> text@ == rewritten(input@, chain@, *site, deindent as int),
        out matches Err(error) ==> span_error(split(input@), chain@, *site) == Some(error),
{
    match SourceBuffer::from_text(input).collapse(chain, site, deindent) {
        Ok(buffer) => Ok(buffer.to_text()),
        Err(error) => Err(error),
    }
}

} // verus!

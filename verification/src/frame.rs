//! What a rewrite leaves alone: everything in front of the invocation and
//! everything behind it.

use vstd::prelude::*;
use crate::chain::{ChainView, Site};
use crate::edit::{
    all_well_placed, applied_all, lemma_edits_ascend, lemma_rest_well_placed, well_placed, Edit,
};
use crate::plan::{block_edits, head_edits, planned};
use crate::rewrite::{
    arranged, between, collapsed, fits, is_body_line, lemma_body_lines_lie_inside,
    lemma_fits_orders_lines, reindented,
};

verus! {

/// `line` begins with the first `length` characters of `other`.
pub open spec fn same_start(line: Seq<char>, other: Seq<char>, length: int) -> bool {
    &&& 0 <= length <= line.len()
    &&& length <= other.len()
    &&& line.subrange(0, length) == other.subrange(0, length)
}

/// `line` ends with what `other` holds from column `from` on.
pub open spec fn same_end(line: Seq<char>, other: Seq<char>, from: int) -> bool {
    &&& 0 <= from <= other.len()
    &&& other.len() - from <= line.len()
    &&& line.subrange(line.len() - (other.len() - from), line.len() as int) == other.subrange(
        from,
        other.len() as int,
    )
}

/// Edits change no line in front of the first of them and none behind the
/// last, and keep the number of lines.
proof fn lemma_edits_keep_other_lines(lines: Seq<Seq<char>>, edits: Seq<Edit>, j: int)
    requires
        edits.len() > 0,
        all_well_placed(lines, edits),
        0 <= j < lines.len(),
        j < edits[0].at.line - 1 || edits.last().at.line - 1 < j,
    ensures
        applied_all(lines, edits).len() == lines.len(),
        applied_all(lines, edits)[j] == lines[j],
    decreases edits.len(),
{
    let after = edits.last().applied(lines);
    let rest = edits.drop_last();
    lemma_rest_well_placed(lines, edits);
    assert(well_placed(lines, edits, edits.len() - 1));
    assert(well_placed(lines, edits, 0));
    assert(applied_all(lines, edits) == applied_all(after, rest));
    if rest.len() > 0 {
        lemma_edits_ascend(lines, edits, 0, edits.len() - 1);
        lemma_edits_ascend(lines, edits, edits.len() - 2, edits.len() - 1);
        assert(well_placed(lines, edits, edits.len() - 2));
        lemma_edits_keep_other_lines(after, rest, j);
    } else {
        assert(applied_all(after, rest) == after);
    }
    assert(after[j] == lines[j]);
}

/// Edits keep the number of lines.
proof fn lemma_edits_keep_count(lines: Seq<Seq<char>>, edits: Seq<Edit>)
    requires
        all_well_placed(lines, edits),
    ensures
        applied_all(lines, edits).len() == lines.len(),
    decreases edits.len(),
{
    if edits.len() > 0 {
        lemma_rest_well_placed(lines, edits);
        lemma_edits_keep_count(edits.last().applied(lines), edits.drop_last());
    }
}

/// Edits keep what stands on a line in front of the first of them.
proof fn lemma_edits_keep_the_start(lines: Seq<Seq<char>>, edits: Seq<Edit>)
    requires
        edits.len() > 0,
        all_well_placed(lines, edits),
    ensures
        same_start(
            applied_all(lines, edits)[edits[0].at.line - 1],
            lines[edits[0].at.line - 1],
            edits[0].at.column as int,
        ),
    decreases edits.len(),
{
    let last = edits.last();
    let after = last.applied(lines);
    let rest = edits.drop_last();
    let row = edits[0].at.line - 1;
    let column = edits[0].at.column as int;
    lemma_rest_well_placed(lines, edits);
    assert(well_placed(lines, edits, edits.len() - 1));
    assert(well_placed(lines, edits, 0));
    if rest.len() > 0 {
        lemma_edits_ascend(lines, edits, 0, edits.len() - 1);
        lemma_edits_keep_the_start(after, rest);
        assert(after[row].subrange(0, column) =~= lines[row].subrange(0, column));
    } else {
        assert(applied_all(lines, edits) == applied_all(after, rest));
        assert(applied_all(after, rest) == after);
        assert(after[row].subrange(0, column) =~= lines[row].subrange(0, column));
    }
}

/// Edits keep what stands on a line from `column` on, where `column` lies at
/// or behind the end of the last edit.
proof fn lemma_edits_keep_the_end(lines: Seq<Seq<char>>, edits: Seq<Edit>, row: int, column: int)
    requires
        all_well_placed(lines, edits),
        0 <= row < lines.len(),
        0 <= column <= lines[row].len(),
        edits.len() > 0 ==> edits.last().until.line - 1 < row || (edits.last().until.line - 1
            == row && edits.last().until.column <= column),
    ensures
        applied_all(lines, edits).len() == lines.len(),
        same_end(applied_all(lines, edits)[row], lines[row], column),
    decreases edits.len(),
{
    if edits.len() == 0 {
        assert(lines[row].subrange(lines[row].len() - (lines[row].len() - column), lines[row].len() as int)
            =~= lines[row].subrange(column, lines[row].len() as int));
    } else {
        let last = edits.last();
        let after = last.applied(lines);
        let rest = edits.drop_last();
        lemma_rest_well_placed(lines, edits);
        assert(well_placed(lines, edits, edits.len() - 1));
        let moved = if last.at.line - 1 == row {
            column - last.until.column + last.at.column + last.token.text().len()
        } else {
            column
        };
        assert(after[row].len() - moved == lines[row].len() - column);
        assert(after[row].subrange(moved, after[row].len() as int) =~= lines[row].subrange(
            column,
            lines[row].len() as int,
        ));
        if rest.len() > 0 {
            lemma_edits_ascend(lines, edits, edits.len() - 2, edits.len() - 1);
            assert(well_placed(lines, edits, edits.len() - 2));
        }
        lemma_edits_keep_the_end(after, rest, row, moved);
    }
}

/// How many lines an arrangement takes away: one where the first condition
/// moves up, one where the chain's end moves down.
pub open spec fn lines_gone(top: int, first: int, last: int, bottom: int) -> int {
    (if top < first {
        1int
    } else {
        0int
    }) + (if last < bottom {
        1int
    } else {
        0int
    })
}

/// Where an arrangement puts the line that ends with the bottom line: in the
/// place of the bottom line, or, where the whole chain stands on one line,
/// in the place of the top line.
pub open spec fn bottom_row(top: int, first: int, last: int, bottom: int) -> int {
    if first == last {
        top
    } else {
        bottom - lines_gone(top, first, last, bottom)
    }
}

/// An arrangement keeps the lines above the top line and below the bottom
/// line; its top line begins with the old top line, and the line that took
/// the bottom line in ends with it.
proof fn lemma_arranged_rows(lines: Seq<Seq<char>>, top: int, first: int, last: int, bottom: int)
    requires
        0 <= top <= first <= last <= bottom < lines.len(),
    ensures
        ({
            let out = arranged(lines, top, first, last, bottom);
            let gone = lines_gone(top, first, last, bottom);
            &&& out.len() == lines.len() - gone
            &&& gone <= bottom - top
            &&& forall|j: int| 0 <= j < top ==> out[j] == lines[j]
            &&& forall|j: int| bottom < j < lines.len() ==> out[j - gone] == lines[j]
            &&& same_start(out[top], lines[top], lines[top].len() as int)
            &&& top <= bottom_row(top, first, last, bottom) < out.len()
            &&& same_end(out[bottom_row(top, first, last, bottom)], lines[bottom], 0)
        }),
{
    let out = arranged(lines, top, first, last, bottom);
    let gone = lines_gone(top, first, last, bottom);
    let above = lines.subrange(0, top);
    let below = lines.subrange(bottom + 1, lines.len() as int);
    let lead = between(lines, top, first);
    let body = between(lines, first, last);
    let trail = between(lines, last, bottom);
    let head = if top == first {
        lines[first]
    } else {
        lines[top] + lines[first]
    };
    assert(head.subrange(0, lines[top].len() as int) =~= lines[top]);
    assert(lines[top].subrange(0, lines[top].len() as int) =~= lines[top]);
    assert(lines[bottom].subrange(0, lines[bottom].len() as int) =~= lines[bottom]);
    if first == last {
        let whole = if last == bottom {
            head
        } else {
            head + lines[bottom]
        };
        let upper = above.push(whole) + lead + trail;
        assert(out == upper + below);
        assert(upper.len() == top + 1 + lead.len() + trail.len());
        assert(out[top] == whole);
        assert(whole.subrange(0, lines[top].len() as int) =~= lines[top]);
        assert(whole.subrange(whole.len() - lines[bottom].len(), whole.len() as int)
            =~= lines[bottom]);
        assert forall|j: int| bottom < j < lines.len() implies out[j - gone] == lines[j] by {
            assert(out[j - gone] == below[j - gone - upper.len()]);
        }
    } else {
        let tail = if last == bottom {
            lines[last]
        } else {
            lines[last] + lines[bottom]
        };
        let upper = above.push(head) + lead + body + trail.push(tail);
        assert(out == upper + below);
        assert(upper.len() == top + 1 + lead.len() + body.len() + trail.len() + 1);
        assert(out[top] == head);
        assert(out[bottom - gone] == tail);
        assert(tail.subrange(tail.len() - lines[bottom].len(), tail.len() as int)
            =~= lines[bottom]);
        assert forall|j: int| bottom < j < lines.len() implies out[j - gone] == lines[j] by {
            assert(out[j - gone] == below[j - gone - upper.len()]);
        }
    }
}

/// Collapsing an invocation leaves alone what stands around it: the lines
/// above it, what stands in front of it on its first line, what stands
/// behind it on its last line, and the lines below. At most two lines go,
/// one where the first condition moves up and one where the chain's end
/// moves down, and the lines below move up by as many. `row` is the line of
/// the result that ends with what stood behind the invocation.
pub proof fn lemma_collapse_keeps_the_rest(
    lines: Seq<Seq<char>>,
    chain: ChainView,
    site: Site,
    deindent: nat,
)
    requires
        chain.well_formed(),
        fits(lines, chain, site),
    ensures
        ({
            let out = collapsed(lines, chain, site, deindent as int);
            let top = site.span.start.line - 1;
            let bottom = site.span.end.line - 1;
            let gone = lines.len() - out.len();
            let row = bottom_row(
                top,
                chain.statements[0].start().line - 1,
                chain.end().line - 1,
                bottom,
            );
            &&& 0 <= top <= bottom < lines.len()
            &&& 0 <= gone <= 2
            &&& gone <= bottom - top
            &&& forall|j: int| 0 <= j < top ==> out[j] == lines[j]
            &&& same_start(out[top], lines[top], site.span.start.column as int)
            &&& top <= row <= bottom - gone
            &&& same_end(out[row], lines[bottom], site.span.end.column as int)
            &&& forall|j: int| bottom < j < lines.len() ==> out[j - gone] == lines[j]
        }),
{
    let edits = planned(lines, chain, site);
    let edited = applied_all(lines, edits);
    let shifted = reindented(edited, chain, deindent as int);
    let out = collapsed(lines, chain, site, deindent as int);
    let top = site.span.start.line - 1;
    let first = chain.statements[0].start().line - 1;
    let last = chain.end().line - 1;
    let bottom = site.span.end.line - 1;
    let n = edits.len() as int;
    lemma_fits_orders_lines(lines, chain, site);
    lemma_edits_keep_count(lines, edits);
    let head = head_edits(lines, chain.statements[0], site);
    let blocks = block_edits(lines, chain, site);
    assert(head.len() >= 1);
    assert(blocks.len() >= 3);
    assert(n >= head.len() + blocks.len());
    assert(edits[0] == head[0]);
    assert(edits[n - 1] == blocks[blocks.len() - 1]);
    assert(well_placed(lines, edits, 0));
    assert(well_placed(lines, edits, n - 1));
    assert forall|j: int| 0 <= j <= top || bottom <= j < lines.len() implies shifted[j]
        == edited[j] by {
        if is_body_line(chain, j + 1) {
            lemma_body_lines_lie_inside(lines, chain, site, j + 1);
        }
    }
    lemma_arranged_rows(shifted, top, first, last, bottom);
    let gone = lines_gone(top, first, last, bottom);
    assert(out == arranged(shifted, top, first, last, bottom));
    assert forall|j: int| 0 <= j < top implies out[j] == lines[j] by {
        lemma_edits_keep_other_lines(lines, edits, j);
    }
    assert forall|j: int| bottom < j < lines.len() implies out[j - gone] == lines[j] by {
        lemma_edits_keep_other_lines(lines, edits, j);
    }
    lemma_edits_keep_the_start(lines, edits);
    lemma_edits_keep_the_end(lines, edits, bottom, site.span.end.column as int);
    let start = site.span.start.column as int;
    assert(edits[0].at == site.span.start);
    assert(same_start(edited[top], lines[top], start));
    assert(shifted[top] == edited[top]);
    assert(same_start(out[top], shifted[top], shifted[top].len() as int));
    assert(shifted[top].subrange(0, shifted[top].len() as int).subrange(0, start)
        =~= shifted[top].subrange(0, start));
    assert(out[top].subrange(0, start) =~= out[top].subrange(
        0,
        shifted[top].len() as int,
    ).subrange(0, start));
    let kept = lines[bottom].len() - site.span.end.column;
    let end = out[bottom_row(top, first, last, bottom)];
    let full = shifted[bottom].len() as int;
    assert(end.subrange(end.len() - kept, end.len() as int) =~= end.subrange(
        end.len() - full,
        end.len() as int,
    ).subrange(full - kept, full));
    assert(shifted[bottom].subrange(0, full) =~= shifted[bottom]);
}

} // verus!

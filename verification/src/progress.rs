//! Why rewriting comes to an end: every rewrite takes the `!` of one
//! invocation out of the text and puts none in.

use vstd::prelude::*;
use crate::buffer::{joined, lemma_join_split, replaced, split};
use crate::chain::{ChainView, Position, Site};
use crate::driver::{
    all_rewrite, answers, findings, next_state, next_text, rewrites, runs, text_after, Scan,
    State,
};
use crate::edit::{
    all_well_placed, applied_all, lemma_edits_ascend, lemma_rest_well_placed, well_placed, Edit,
    Token,
};
use crate::grammar::assembled;
use crate::plan::planned;
use crate::rewrite::{
    arranged, between, collapsed, fits, lemma_fits_orders_lines, reindented, rewritten,
    strikes_bang,
};

verus! {

/// How many `!` a text holds.
pub open spec fn bangs(text: Seq<char>) -> nat
    decreases text.len(),
{
    if text.len() == 0 {
        0
    } else {
        bangs(text.drop_last()) + if text.last() == '!' {
            1nat
        } else {
            0nat
        }
    }
}

/// How many `!` the lines hold together.
pub open spec fn bangs_in(lines: Seq<Seq<char>>) -> nat
    decreases lines.len(),
{
    if lines.len() == 0 {
        0
    } else {
        bangs_in(lines.drop_last()) + bangs(lines.last())
    }
}

proof fn lemma_bangs_add(left: Seq<char>, right: Seq<char>)
    ensures
        bangs(left + right) == bangs(left) + bangs(right),
    decreases right.len(),
{
    if right.len() == 0 {
        assert(left + right == left);
    } else {
        assert((left + right).drop_last() == left + right.drop_last());
        lemma_bangs_add(left, right.drop_last());
    }
}

proof fn lemma_bangs_in_add(left: Seq<Seq<char>>, right: Seq<Seq<char>>)
    ensures
        bangs_in(left + right) == bangs_in(left) + bangs_in(right),
    decreases right.len(),
{
    if right.len() == 0 {
        assert(left + right == left);
    } else {
        assert((left + right).drop_last() == left + right.drop_last());
        lemma_bangs_in_add(left, right.drop_last());
    }
}

proof fn lemma_bangs_in_push(lines: Seq<Seq<char>>, line: Seq<char>)
    ensures
        bangs_in(lines.push(line)) == bangs_in(lines) + bangs(line),
{
    assert(lines.push(line).drop_last() == lines);
}

proof fn lemma_bangs_joined(lines: Seq<Seq<char>>)
    ensures
        bangs(joined(lines)) == bangs_in(lines),
    decreases lines.len(),
{
    if lines.len() == 1 {
        assert(bangs_in(lines.drop_last()) == 0);
    } else if lines.len() > 1 {
        let upper = joined(lines.drop_last());
        lemma_bangs_joined(lines.drop_last());
        assert(upper.push('\n').drop_last() == upper);
        lemma_bangs_add(upper.push('\n'), lines.last());
    }
}

/// A line's `!` are those before, within and behind any stretch of it.
proof fn lemma_bangs_parts(line: Seq<char>, from: int, to: int)
    requires
        0 <= from <= to <= line.len(),
    ensures
        bangs(line) == bangs(line.subrange(0, from)) + bangs(line.subrange(from, to)) + bangs(
            line.subrange(to, line.len() as int),
        ),
{
    let a = line.subrange(0, from);
    let b = line.subrange(from, to);
    let c = line.subrange(to, line.len() as int);
    assert(line == a + b + c);
    lemma_bangs_add(a, b);
    lemma_bangs_add(a + b, c);
}

/// A stretch that holds a `!` counts at least one.
proof fn lemma_bangs_found(line: Seq<char>, at: int)
    requires
        0 <= at < line.len(),
        line[at] == '!',
    ensures
        bangs(line) >= 1,
    decreases line.len(),
{
    if at < line.len() - 1 {
        lemma_bangs_found(line.drop_last(), at);
    }
}

proof fn lemma_bangs_push(text: Seq<char>, c: char)
    ensures
        bangs(text.push(c)) == bangs(text) + if c == '!' {
            1nat
        } else {
            0nat
        },
{
    assert(text.push(c).drop_last() == text);
}

proof fn lemma_token_holds_no_bang(token: Token)
    ensures
        bangs(token.text()) == 0,
{
    let none = Seq::<char>::empty();
    assert(bangs(none) == 0);
    match token {
        Token::Nothing => {
            assert(bangs(token.text()) == 0);
        },
        Token::If => {
            lemma_bangs_push(none, 'i');
            lemma_bangs_push(none.push('i'), 'f');
            lemma_bangs_push(none.push('i').push('f'), ' ');
            assert(token.text() == none.push('i').push('f').push(' '));
        },
        Token::And => {
            lemma_bangs_push(none, '&');
            lemma_bangs_push(none.push('&'), '&');
            lemma_bangs_push(none.push('&').push('&'), ' ');
            assert(token.text() == none.push('&').push('&').push(' '));
        },
        Token::Open => {
            lemma_bangs_push(none, '(');
            assert(token.text() == none.push('('));
        },
        Token::Close => {
            lemma_bangs_push(none, ')');
            assert(token.text() == none.push(')'));
        },
    }
}

proof fn lemma_bangs_in_update(lines: Seq<Seq<char>>, at: int, line: Seq<char>)
    requires
        0 <= at < lines.len(),
    ensures
        bangs_in(lines.update(at, line)) + bangs(lines[at]) == bangs_in(lines) + bangs(line),
    decreases lines.len(),
{
    if at == lines.len() - 1 {
        assert(lines.update(at, line).drop_last() == lines.drop_last());
    } else {
        assert(lines.update(at, line).drop_last() == lines.drop_last().update(at, line));
        lemma_bangs_in_update(lines.drop_last(), at, line);
    }
}

/// An edit takes out the `!` of its range and puts none in.
proof fn lemma_edit_takes(lines: Seq<Seq<char>>, edit: Edit)
    requires
        edit.fits(lines),
    ensures
        bangs_in(edit.applied(lines)) + bangs(
            lines[edit.at.line - 1].subrange(edit.at.column as int, edit.until.column as int),
        ) == bangs_in(lines),
{
    let old = lines[edit.at.line - 1];
    let from = edit.at.column as int;
    let to = edit.until.column as int;
    let new = replaced(old, edit.token.text(), from, to);
    lemma_bangs_parts(old, from, to);
    lemma_token_holds_no_bang(edit.token);
    lemma_bangs_add(old.subrange(0, from), edit.token.text());
    lemma_bangs_add(old.subrange(0, from) + edit.token.text(), old.subrange(to, old.len() as int));
    lemma_bangs_in_update(lines, edit.at.line - 1, new);
}

/// Edits that take away a `!` with the first of them leave fewer `!` than
/// there were.
proof fn lemma_edits_take_a_bang(lines: Seq<Seq<char>>, edits: Seq<Edit>, bang: Position)
    requires
        edits.len() > 0,
        all_well_placed(lines, edits),
        strikes_bang(lines, edits[0], bang),
    ensures
        bangs_in(applied_all(lines, edits)) < bangs_in(lines),
        applied_all(lines, edits).len() == lines.len(),
    decreases edits.len(),
{
    let last = edits.last();
    let after = last.applied(lines);
    let rest = edits.drop_last();
    assert(well_placed(lines, edits, edits.len() - 1));
    assert(well_placed(lines, edits, 0));
    lemma_edit_takes(lines, last);
    if edits.len() == 1 {
        let line = lines[last.at.line - 1];
        let range = line.subrange(last.at.column as int, last.until.column as int);
        assert(range[bang.column - last.at.column] == '!');
        lemma_bangs_found(range, bang.column - last.at.column);
        assert(applied_all(after, rest) == after);
    } else {
        lemma_rest_well_placed(lines, edits);
        lemma_edits_ascend(lines, edits, 0, edits.len() - 1);
        assert(strikes_bang(after, rest[0], bang));
        lemma_edits_take_a_bang(after, rest, bang);
    }
}

/// Lines that hold no more `!` one by one hold no more together.
proof fn lemma_bangs_in_below(lower: Seq<Seq<char>>, upper: Seq<Seq<char>>)
    requires
        lower.len() == upper.len(),
        forall|i: int| 0 <= i < lower.len() ==> bangs(lower[i]) <= bangs(upper[i]),
    ensures
        bangs_in(lower) <= bangs_in(upper),
    decreases lower.len(),
{
    if lower.len() > 0 {
        lemma_bangs_in_below(lower.drop_last(), upper.drop_last());
    }
}

proof fn lemma_reindent_adds_none(lines: Seq<Seq<char>>, chain: ChainView, deindent: int)
    requires
        deindent >= 0,
    ensures
        bangs_in(reindented(lines, chain, deindent)) <= bangs_in(lines),
{
    let lower = reindented(lines, chain, deindent);
    assert forall|i: int| 0 <= i < lower.len() implies bangs(lower[i]) <= bangs(lines[i]) by {
        if lines[i].len() > deindent {
            lemma_bangs_parts(lines[i], deindent, lines[i].len() as int);
        }
    }
    lemma_bangs_in_below(lower, lines);
}

/// The `!` of the lines from `from` up to `to`.
proof fn lemma_bangs_in_range(lines: Seq<Seq<char>>, from: int, mid: int, to: int)
    requires
        0 <= from <= mid <= to <= lines.len(),
    ensures
        bangs_in(lines.subrange(from, to)) == bangs_in(lines.subrange(from, mid)) + bangs_in(
            lines.subrange(mid, to),
        ),
{
    assert(lines.subrange(from, to) == lines.subrange(from, mid) + lines.subrange(mid, to));
    lemma_bangs_in_add(lines.subrange(from, mid), lines.subrange(mid, to));
}

proof fn lemma_bangs_in_one(lines: Seq<Seq<char>>, at: int)
    requires
        0 <= at < lines.len(),
    ensures
        bangs_in(lines.subrange(at, at + 1)) == bangs(lines[at]),
{
    let one = lines.subrange(at, at + 1);
    assert(one.drop_last() == Seq::<Seq<char>>::empty());
    assert(bangs_in(one.drop_last()) == 0);
    assert(one.last() == lines[at]);
}

/// The `!` of the lines behind line `from`, up to and with line `to`.
pub open spec fn bangs_behind(lines: Seq<Seq<char>>, from: int, to: int) -> nat {
    if from < to {
        bangs_in(between(lines, from, to)) + bangs(lines[to])
    } else {
        0
    }
}

proof fn lemma_bangs_behind(lines: Seq<Seq<char>>, from: int, to: int)
    requires
        0 <= from <= to < lines.len(),
    ensures
        bangs_in(lines.subrange(from + 1, to + 1)) == bangs_behind(lines, from, to),
{
    if from < to {
        lemma_bangs_in_range(lines, from + 1, to, to + 1);
        lemma_bangs_in_one(lines, to);
    } else {
        assert(lines.subrange(from + 1, to + 1) == Seq::<Seq<char>>::empty());
    }
}

/// The `!` of all lines, told by the four lines that an arrangement moves.
pub open spec fn bangs_by_parts(
    lines: Seq<Seq<char>>,
    top: int,
    first: int,
    last: int,
    bottom: int,
) -> nat {
    bangs_in(lines.subrange(0, top)) + bangs(lines[top]) + bangs_behind(lines, top, first)
        + bangs_behind(lines, first, last) + bangs_behind(lines, last, bottom) + bangs_in(
        lines.subrange(bottom + 1, lines.len() as int),
    )
}

proof fn lemma_lines_by_parts(lines: Seq<Seq<char>>, top: int, first: int, last: int, bottom: int)
    requires
        0 <= top <= first <= last <= bottom < lines.len(),
    ensures
        bangs_in(lines) == bangs_by_parts(lines, top, first, last, bottom),
{
    let n = lines.len() as int;
    assert(lines == lines.subrange(0, n));
    lemma_bangs_in_range(lines, 0, top, n);
    lemma_bangs_in_range(lines, top, top + 1, n);
    lemma_bangs_in_one(lines, top);
    lemma_bangs_in_range(lines, top + 1, first + 1, n);
    lemma_bangs_in_range(lines, first + 1, last + 1, n);
    lemma_bangs_in_range(lines, last + 1, bottom + 1, n);
    lemma_bangs_behind(lines, top, first);
    lemma_bangs_behind(lines, first, last);
    lemma_bangs_behind(lines, last, bottom);
}

proof fn lemma_arranged_by_parts(
    lines: Seq<Seq<char>>,
    top: int,
    first: int,
    last: int,
    bottom: int,
)
    requires
        0 <= top <= first <= last <= bottom < lines.len(),
    ensures
        bangs_in(arranged(lines, top, first, last, bottom)) == bangs_by_parts(
            lines,
            top,
            first,
            last,
            bottom,
        ),
{
    let n = lines.len() as int;
    let none = Seq::<Seq<char>>::empty();
    let above = lines.subrange(0, top);
    let below = lines.subrange(bottom + 1, n);
    let lead = between(lines, top, first);
    let body = between(lines, first, last);
    let trail = between(lines, last, bottom);
    assert(bangs_in(none) == 0);
    let head = if top == first {
        lines[first]
    } else {
        lines[top] + lines[first]
    };
    assert(bangs(head) + bangs_in(lead) == bangs(lines[top]) + bangs_behind(lines, top, first)) by {
        lemma_bangs_add(lines[top], lines[first]);
    }
    if first == last {
        let whole = if last == bottom {
            head
        } else {
            head + lines[bottom]
        };
        assert(bangs(whole) + bangs_in(trail) == bangs(head) + bangs_behind(lines, last, bottom)) by {
            lemma_bangs_add(head, lines[bottom]);
        }
        assert(bangs_in(above.push(whole) + lead + trail + below) == bangs_in(above) + bangs(whole)
            + bangs_in(lead) + bangs_in(trail) + bangs_in(below)) by {
            lemma_bangs_in_push(above, whole);
            lemma_bangs_in_add(above.push(whole), lead);
            lemma_bangs_in_add(above.push(whole) + lead, trail);
            lemma_bangs_in_add(above.push(whole) + lead + trail, below);
        }
    } else {
        let tail = if last == bottom {
            lines[last]
        } else {
            lines[last] + lines[bottom]
        };
        assert(bangs_in(body) + bangs_in(trail) + bangs(tail) == bangs_behind(lines, first, last)
            + bangs_behind(lines, last, bottom)) by {
            lemma_bangs_add(lines[last], lines[bottom]);
        }
        assert(bangs_in(above.push(head) + lead + body + trail.push(tail) + below) == bangs_in(above)
            + bangs(head) + bangs_in(lead) + bangs_in(body) + bangs_in(trail) + bangs(tail)
            + bangs_in(below)) by {
            lemma_bangs_in_push(above, head);
            lemma_bangs_in_add(above.push(head), lead);
            lemma_bangs_in_add(above.push(head) + lead, body);
            lemma_bangs_in_push(trail, tail);
            lemma_bangs_in_add(above.push(head) + lead + body, trail.push(tail));
            lemma_bangs_in_add(above.push(head) + lead + body + trail.push(tail), below);
        }
    }
}

/// Arranging the lines moves every `!` and loses none.
proof fn lemma_arranging_keeps(lines: Seq<Seq<char>>, top: int, first: int, last: int, bottom: int)
    requires
        0 <= top <= first <= last <= bottom < lines.len(),
    ensures
        bangs_in(arranged(lines, top, first, last, bottom)) == bangs_in(lines),
{
    lemma_lines_by_parts(lines, top, first, last, bottom);
    lemma_arranged_by_parts(lines, top, first, last, bottom);
}

/// A rewrite leaves fewer `!` in the text than it found: it takes away the
/// one that made the invocation, and what it puts in holds none.
pub proof fn lemma_rewrite_takes_a_bang(text: Seq<char>, chain: ChainView, site: Site, deindent: nat)
    requires
        chain.well_formed(),
        fits(split(text), chain, site),
    ensures
        bangs(rewritten(text, chain, site, deindent as int)) < bangs(text),
{
    let lines = split(text);
    let edits = planned(lines, chain, site);
    let edited = applied_all(lines, edits);
    let shifted = reindented(edited, chain, deindent as int);
    lemma_join_split(text);
    lemma_bangs_joined(lines);
    lemma_edits_take_a_bang(lines, edits, site.bang_token);
    lemma_reindent_adds_none(edited, chain, deindent as int);
    lemma_fits_orders_lines(lines, chain, site);
    lemma_arranging_keeps(
        shifted,
        site.span.start.line - 1,
        chain.statements[0].start().line - 1,
        chain.end().line - 1,
        site.span.end.line - 1,
    );
    lemma_bangs_joined(collapsed(lines, chain, site, deindent as int));
}

/// Passes come to an end: a pass that rewrites leaves fewer `!` in the text
/// than it found, whatever the locator reported. So a text is rewritten at
/// most as often as it holds `!`, and from the pass that does not rewrite on,
/// the text stays as it is.
pub proof fn lemma_pass_takes_a_bang(text: Seq<char>, deindent: nat, scan: Scan)
    ensures
        rewrites(text, scan) ==> bangs(next_text(text, deindent as int, scan)) < bangs(text),
        !rewrites(text, scan) ==> next_text(text, deindent as int, scan) == text,
{
    if rewrites(text, scan) {
        match scan {
            Scan::Found { site, clauses } => {
                lemma_rewrite_takes_a_bang(text, assembled(clauses@), site, deindent);
            },
            _ => {},
        }
    }
}

/// A pass on a text in which the locator finds nothing rewrites nothing,
/// leaves the text as it is, says nothing and ends the work: once the last
/// invocation is gone, no further pass reports a change.
pub proof fn lemma_nothing_found_ends_the_work(text: Seq<char>, deindent: nat)
    ensures
        !rewrites(text, Scan::Absent),
        next_text(text, deindent as int, Scan::Absent) == text,
        findings(text, Scan::Absent).len() == 0,
        next_state(text, Scan::Absent) == State::Done,
{
}

/// Passes that all rewrite are no more than the text holds `!`: each takes
/// one away for good.
pub proof fn lemma_passes_are_bounded<F: Fn(&str) -> Scan>(
    locate: F,
    text: Seq<char>,
    deindent: nat,
    scans: Seq<Scan>,
)
    requires
        all_rewrite(locate, text, deindent as int, scans),
    ensures
        scans.len() + bangs(text_after(text, deindent as int, scans)) <= bangs(text),
    decreases scans.len(),
{
    if scans.len() > 0 {
        lemma_passes_are_bounded(locate, text, deindent, scans.drop_last());
        lemma_pass_takes_a_bang(
            text_after(text, deindent as int, scans.drop_last()),
            deindent,
            scans.last(),
        );
    }
}

/// `locate` gives one answer to texts that read the same.
pub open spec fn single_valued<F: Fn(&str) -> Scan>(locate: F) -> bool {
    forall|one: &str, other: &str, first: Scan, second: Scan|
        one@ == other@ && #[trigger] call_ensures(locate, (one,), first) && #[trigger] call_ensures(
            locate,
            (other,),
            second,
        ) ==> first == second
}

/// Passes that all rewrite start with an answer to the text as it was, and
/// that answer rewrites.
proof fn lemma_first_pass<F: Fn(&str) -> Scan>(
    locate: F,
    text: Seq<char>,
    deindent: int,
    scans: Seq<Scan>,
)
    requires
        scans.len() > 0,
        all_rewrite(locate, text, deindent, scans),
    ensures
        answers(locate, text, scans[0]),
        rewrites(text, scans[0]),
    decreases scans.len(),
{
    if scans.len() > 1 {
        lemma_first_pass(locate, text, deindent, scans.drop_last());
    } else {
        assert(scans.drop_last().len() == 0);
    }
}

/// A second run rewrites nothing: where the locator gives one answer to one
/// text, a run on what a whole run left consists of the one pass that ended
/// the first, and that pass does not rewrite.
pub proof fn lemma_second_run_rewrites_nothing<F: Fn(&str) -> Scan>(
    locate: F,
    text: Seq<char>,
    deindent: nat,
    scans: Seq<Scan>,
    last: Scan,
    again: Seq<Scan>,
    again_last: Scan,
)
    requires
        single_valued(locate),
        runs(locate, text, deindent as int, scans, last),
        runs(locate, text_after(text, deindent as int, scans), deindent as int, again, again_last),
    ensures
        again.len() == 0,
        again_last == last,
{
    let left = text_after(text, deindent as int, scans);
    if again.len() > 0 {
        lemma_first_pass(locate, left, deindent as int, again);
    }
}

} // verus!

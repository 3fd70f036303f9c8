//! The edits that collapse one invocation, listed in the order of the text.

use vstd::prelude::*;
use vstd::string::*;
use crate::buffer::SourceBuffer;
use crate::chain::{ChainView, IfChain, Position, Site, Statement};
use crate::edit::{Edit, Token};

verus! {

/// An edit of no width at `at`.
pub open spec fn mark(at: Position) -> Edit {
    Edit { at, until: at, token: Token::Nothing }
}

/// The end of line `line` of `lines`.
pub open spec fn line_end(lines: Seq<Seq<char>>, line: usize) -> Position {
    Position {
        line,
        column: if 1 <= line <= lines.len() {
            lines[line - 1].len() as usize
        } else {
            0
        },
    }
}

/// The keyword that the first condition still lacks: a guard brings its own
/// `if`, a binding has none.
pub open spec fn lead_token(first: Statement) -> Token {
    if first.is_binding() {
        Token::If
    } else {
        Token::Nothing
    }
}

/// What happens from the invocation's start up to the first condition. On
/// one line, that stretch becomes the lead token. On two lines, the upper
/// one is cut at the invocation's start, and the lower one loses what stands
/// before the condition and gains the lead token.
pub open spec fn head_edits(lines: Seq<Seq<char>>, first: Statement, site: Site) -> Seq<Edit> {
    if site.span.start.line == first.start().line {
        seq![Edit { at: site.span.start, until: first.start(), token: lead_token(first) }]
    } else {
        seq![
            Edit {
                at: site.span.start,
                until: line_end(lines, site.span.start.line),
                token: Token::Nothing,
            },
            Edit {
                at: Position { line: first.start().line, column: 0 },
                until: first.start(),
                token: lead_token(first),
            },
        ]
    }
}

/// The edits that put `token` in the place of the text from `from` up to
/// `to`. On one line that is one edit. Over several lines, the first of them
/// loses what stands from `from` on and gains the token, and the last loses
/// what stands in front of `to`; the lines between them stay.
pub open spec fn stretch_edits(
    lines: Seq<Seq<char>>,
    from: Position,
    to: Position,
    token: Token,
) -> Seq<Edit> {
    if from.line == to.line {
        seq![Edit { at: from, until: to, token }]
    } else {
        seq![
            Edit { at: from, until: line_end(lines, from.line), token },
            Edit { at: Position { line: to.line, column: 0 }, until: to, token: Token::Nothing },
        ]
    }
}

/// The join in front of a condition that is not the first: its lead-in, a
/// guard's `if` and what follows it up to the expression, becomes `&& `.
pub open spec fn join_edits(lines: Seq<Seq<char>>, statement: Statement, first: bool) -> Seq<
    Edit,
> {
    if first {
        Seq::<Edit>::empty()
    } else {
        stretch_edits(lines, statement.start(), statement.start_after_if(), Token::And)
    }
}

/// The parenthesis in front of a tested expression that binds more loosely
/// than `&&`.
pub open spec fn open_edits(statement: Statement) -> Seq<Edit> {
    if statement.form().binds_loosely() {
        seq![Edit { at: statement.expr(), until: statement.expr(), token: Token::Open }]
    } else {
        Seq::<Edit>::empty()
    }
}

/// What becomes of a condition's `;`: the closing parenthesis where one was
/// opened, nothing otherwise.
pub open spec fn close_edit(statement: Statement) -> Edit {
    Edit {
        at: statement.semi().start,
        until: statement.semi().end,
        token: if statement.form().binds_loosely() {
            Token::Close
        } else {
            Token::Nothing
        },
    }
}

/// The edits of one condition.
pub open spec fn statement_edits(lines: Seq<Seq<char>>, statement: Statement, first: bool) -> Seq<
    Edit,
> {
    join_edits(lines, statement, first) + open_edits(statement).push(close_edit(statement))
}

/// The edits of all conditions, in their order.
pub open spec fn statements_edits(lines: Seq<Seq<char>>, statements: Seq<Statement>) -> Seq<Edit>
    decreases statements.len(),
{
    if statements.len() == 0 {
        Seq::<Edit>::empty()
    } else {
        statements_edits(lines, statements.drop_last()) + statement_edits(
            lines,
            statements.last(),
            statements.len() == 1,
        )
    }
}

/// The marks at the braces behind the consequence's opening one.
pub open spec fn brace_marks(chain: ChainView) -> Seq<Edit> {
    match chain.else_clause {
        Some(alternative) => seq![
            mark(chain.then_clause.block.end),
            mark(alternative.block.start),
            mark(alternative.block.end),
        ],
        None => seq![mark(chain.then_clause.block.end)],
    }
}

/// What happens at the invocation's end. Where the chain ends on the line of
/// the closing delimiter, everything between the two goes, the delimiter too.
/// Otherwise that line loses everything up to and with the delimiter.
pub open spec fn tail_edit(chain: ChainView, site: Site) -> Edit {
    if chain.end().line == site.span.end.line {
        Edit { at: chain.end(), until: site.span.end, token: Token::Nothing }
    } else {
        Edit {
            at: Position { line: site.span.end.line, column: 0 },
            until: site.span.end,
            token: Token::Nothing,
        }
    }
}

/// What happens behind the conditions: the word in front of the consequence
/// goes, with everything up to the opening brace.
pub open spec fn block_edits(lines: Seq<Seq<char>>, chain: ChainView, site: Site) -> Seq<Edit> {
    stretch_edits(
        lines,
        chain.then_clause.then_token,
        chain.then_clause.block.start,
        Token::Nothing,
    ) + brace_marks(chain).push(tail_edit(chain, site))
}

/// All edits within lines that collapse the invocation of `chain` at `site`.
pub open spec fn planned(lines: Seq<Seq<char>>, chain: ChainView, site: Site) -> Seq<Edit>
    recommends
        chain.well_formed(),
{
    head_edits(lines, chain.statements[0], site) + statements_edits(lines, chain.statements)
        + block_edits(lines, chain, site)
}

/// The end of line `line` of `buffer`.
fn end_of_line(buffer: &SourceBuffer, line: usize) -> (at: Position)
    ensures
        at == line_end(buffer@, line),
{
    let column = if 1 <= line && line <= buffer.lines.len() {
        buffer.lines[line - 1].as_str().unicode_len()
    } else {
        0
    };
    Position { line, column }
}

/// Adds the edits that put `token` in the place of the text from `from` up
/// to `to`.
fn push_stretch(
    edits: &mut Vec<Edit>,
    buffer: &SourceBuffer,
    from: Position,
    to: Position,
    token: Token,
)
    ensures
        final(edits)@ == old(edits)@ + stretch_edits(buffer@, from, to, token),
{
    let ghost before = edits@;
    if from.line == to.line {
        edits.push(Edit { at: from, until: to, token });
    } else {
        edits.push(Edit { at: from, until: end_of_line(buffer, from.line), token });
        edits.push(
            Edit { at: Position { line: to.line, column: 0 }, until: to, token: Token::Nothing },
        );
    }
    assert(edits@ =~= before + stretch_edits(buffer@, from, to, token));
}

/// Lists the edits within lines that collapse the invocation of `chain` at
/// `site` in `buffer`.
pub fn plan(buffer: &SourceBuffer, chain: &IfChain, site: &Site) -> (edits: Vec<Edit>)
    requires
        chain.well_formed(),
    ensures
        edits@ == planned(buffer@, chain@, *site),
{
    let mut edits: Vec<Edit> = Vec::new();
    let first = chain.statements[0];
    let lead = match first {
        Statement::IfExpr(_) => Token::Nothing,
        Statement::Local(_) => Token::If,
    };
    if site.span.start.line == first.start().line {
        edits.push(Edit { at: site.span.start, until: first.start(), token: lead });
    } else {
        edits.push(
            Edit {
                at: site.span.start,
                until: end_of_line(buffer, site.span.start.line),
                token: Token::Nothing,
            },
        );
        edits.push(
            Edit {
                at: Position { line: first.start().line, column: 0 },
                until: first.start(),
                token: lead,
            },
        );
    }
    assert(edits@ =~= head_edits(buffer@, chain.statements@[0], *site));
    let ghost head = edits@;
    let mut i: usize = 0;
    while i < chain.statements.len()
        invariant
            i <= chain.statements@.len(),
            edits@ == head + statements_edits(buffer@, chain.statements@.subrange(0, i as int)),
        decreases chain.statements@.len() - i,
    {
        let statement = chain.statements[i];
        let ghost so_far = edits@;
        if i > 0 {
            push_stretch(
                &mut edits,
                buffer,
                statement.start(),
                statement.start_after_if(),
                Token::And,
            );
        }
        let wrap = statement.form().needs_parens();
        if wrap {
            edits.push(Edit { at: statement.expr(), until: statement.expr(), token: Token::Open });
        }
        edits.push(
            Edit {
                at: statement.semi().start,
                until: statement.semi().end,
                token: if wrap {
                    Token::Close
                } else {
                    Token::Nothing
                },
            },
        );
        proof {
            let upto = chain.statements@.subrange(0, i + 1);
            assert(upto.drop_last() == chain.statements@.subrange(0, i as int));
            assert(upto.last() == statement);
            assert(edits@ =~= so_far + statement_edits(buffer@, statement, i == 0));
        }
        i += 1;
    }
    assert(chain.statements@.subrange(0, i as int) == chain.statements@);
    let ghost conditions = edits@;
    push_stretch(
        &mut edits,
        buffer,
        chain.then_clause.then_token,
        chain.then_clause.block.start,
        Token::Nothing,
    );
    edits.push(
        Edit {
            at: chain.then_clause.block.end,
            until: chain.then_clause.block.end,
            token: Token::Nothing,
        },
    );
    match chain.else_clause {
        Some(alternative) => {
            edits.push(
                Edit {
                    at: alternative.block.start,
                    until: alternative.block.start,
                    token: Token::Nothing,
                },
            );
            edits.push(
                Edit { at: alternative.block.end, until: alternative.block.end, token: Token::Nothing },
            );
        },
        None => {},
    }
    if chain.end().line == site.span.end.line {
        edits.push(Edit { at: chain.end(), until: site.span.end, token: Token::Nothing });
    } else {
        edits.push(
            Edit {
                at: Position { line: site.span.end.line, column: 0 },
                until: site.span.end,
                token: Token::Nothing,
            },
        );
    }
    assert(edits@ =~= conditions + block_edits(buffer@, chain@, *site));
    edits
}

} // verus!

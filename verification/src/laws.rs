//! What holds of every plan, whatever the chain.

use vstd::prelude::*;
use crate::chain::{ChainView, Position, Site, Statement};
use crate::edit::{all_well_placed, lemma_edits_ascend, Edit, Token};
use crate::plan::{
    block_edits, close_edit, head_edits, join_edits, open_edits, planned, statement_edits,
    statements_edits, stretch_edits,
};

verus! {

/// How many of `edits` put in `token`.
pub open spec fn count_token(edits: Seq<Edit>, token: Token) -> nat
    decreases edits.len(),
{
    if edits.len() == 0 {
        0
    } else {
        count_token(edits.drop_last(), token) + if edits.last().token == token {
            1nat
        } else {
            0nat
        }
    }
}

/// How many of `statements` test an expression that binds more loosely than
/// `&&`.
pub open spec fn count_loose(statements: Seq<Statement>) -> nat
    decreases statements.len(),
{
    if statements.len() == 0 {
        0
    } else {
        count_loose(statements.drop_last()) + if statements.last().form().binds_loosely() {
            1nat
        } else {
            0nat
        }
    }
}

/// Counting over two lists in a row adds up.
pub proof fn lemma_count_adds(left: Seq<Edit>, right: Seq<Edit>, token: Token)
    ensures
        count_token(left + right, token) == count_token(left, token) + count_token(right, token),
    decreases right.len(),
{
    if right.len() == 0 {
        assert(left + right == left);
    } else {
        assert((left + right).drop_last() == left + right.drop_last());
        lemma_count_adds(left, right.drop_last(), token);
    }
}

/// One more edit adds one to the count of its token and nothing to the
/// others.
pub proof fn lemma_count_push(edits: Seq<Edit>, edit: Edit, token: Token)
    ensures
        count_token(edits.push(edit), token) == count_token(edits, token) + if edit.token == token {
            1nat
        } else {
            0nat
        },
{
    assert(edits.push(edit).drop_last() == edits);
}

/// A stretch puts its token in once.
proof fn lemma_stretch_counts(
    lines: Seq<Seq<char>>,
    from: Position,
    to: Position,
    token: Token,
    counted: Token,
)
    requires
        counted != Token::Nothing,
    ensures
        count_token(stretch_edits(lines, from, to, token), counted) == if token == counted {
            1nat
        } else {
            0nat
        },
{
    let none = Seq::<Edit>::empty();
    let edits = stretch_edits(lines, from, to, token);
    assert(edits == none.push(edits[0]) || edits == none.push(edits[0]).push(edits[1]));
    lemma_count_push(none, edits[0], counted);
    if from.line != to.line {
        lemma_count_push(none.push(edits[0]), edits[1], counted);
    }
}

/// Counts over the edits of one condition.
proof fn lemma_statement_counts(lines: Seq<Seq<char>>, statement: Statement, first: bool)
    ensures
        count_token(statement_edits(lines, statement, first), Token::And) == if first {
            0nat
        } else {
            1nat
        },
        count_token(statement_edits(lines, statement, first), Token::Open) == if statement.form().binds_loosely() {
            1nat
        } else {
            0nat
        },
        count_token(statement_edits(lines, statement, first), Token::Close) == if statement.form().binds_loosely() {
            1nat
        } else {
            0nat
        },
        count_token(statement_edits(lines, statement, first), Token::If) == 0,
{
    let none = Seq::<Edit>::empty();
    let joins = join_edits(lines, statement, first);
    let opens = open_edits(statement);
    let closed = opens.push(close_edit(statement));
    if !first {
        let from = statement.start();
        let to = statement.start_after_if();
        lemma_stretch_counts(lines, from, to, Token::And, Token::And);
        lemma_stretch_counts(lines, from, to, Token::And, Token::Open);
        lemma_stretch_counts(lines, from, to, Token::And, Token::Close);
        lemma_stretch_counts(lines, from, to, Token::And, Token::If);
    }
    if statement.form().binds_loosely() {
        let open = Edit { at: statement.expr(), until: statement.expr(), token: Token::Open };
        assert(opens == none.push(open));
        lemma_count_push(none, open, Token::And);
        lemma_count_push(none, open, Token::Open);
        lemma_count_push(none, open, Token::Close);
        lemma_count_push(none, open, Token::If);
    }
    lemma_count_push(opens, close_edit(statement), Token::And);
    lemma_count_push(opens, close_edit(statement), Token::Open);
    lemma_count_push(opens, close_edit(statement), Token::Close);
    lemma_count_push(opens, close_edit(statement), Token::If);
    lemma_count_adds(joins, closed, Token::And);
    lemma_count_adds(joins, closed, Token::Open);
    lemma_count_adds(joins, closed, Token::Close);
    lemma_count_adds(joins, closed, Token::If);
}

/// Counts over the edits of all conditions.
proof fn lemma_statements_counts(lines: Seq<Seq<char>>, statements: Seq<Statement>)
    ensures
        count_token(statements_edits(lines, statements), Token::And) == if statements.len() == 0 {
            0
        } else {
            statements.len() - 1
        },
        count_token(statements_edits(lines, statements), Token::Open) == count_loose(statements),
        count_token(statements_edits(lines, statements), Token::Close) == count_loose(statements),
        count_token(statements_edits(lines, statements), Token::If) == 0,
    decreases statements.len(),
{
    if statements.len() > 0 {
        let before = statements_edits(lines, statements.drop_last());
        let last = statement_edits(lines, statements.last(), statements.len() == 1);
        lemma_statements_counts(lines, statements.drop_last());
        lemma_statement_counts(lines, statements.last(), statements.len() == 1);
        lemma_count_adds(before, last, Token::And);
        lemma_count_adds(before, last, Token::Open);
        lemma_count_adds(before, last, Token::Close);
        lemma_count_adds(before, last, Token::If);
    }
}

/// A list of edits that put in nothing counts nothing.
proof fn lemma_count_silent(edits: Seq<Edit>, token: Token)
    requires
        token != Token::Nothing,
        forall|i: int| 0 <= i < edits.len() ==> edits[i].token == Token::Nothing,
    ensures
        count_token(edits, token) == 0,
    decreases edits.len(),
{
    if edits.len() > 0 {
        lemma_count_silent(edits.drop_last(), token);
    }
}

/// Counts over the edits in front of and behind the conditions: a keyword
/// in front of a first condition that is a binding, and nothing else.
proof fn lemma_frame_counts(lines: Seq<Seq<char>>, chain: ChainView, site: Site)
    requires
        chain.well_formed(),
    ensures
        count_token(head_edits(lines, chain.statements[0], site), Token::And) == 0,
        count_token(head_edits(lines, chain.statements[0], site), Token::Open) == 0,
        count_token(head_edits(lines, chain.statements[0], site), Token::Close) == 0,
        count_token(head_edits(lines, chain.statements[0], site), Token::If)
            == if chain.statements[0].is_binding() {
            1nat
        } else {
            0nat
        },
        count_token(block_edits(lines, chain, site), Token::And) == 0,
        count_token(block_edits(lines, chain, site), Token::Open) == 0,
        count_token(block_edits(lines, chain, site), Token::Close) == 0,
        count_token(block_edits(lines, chain, site), Token::If) == 0,
{
    let head = head_edits(lines, chain.statements[0], site);
    let rest = head.drop_last();
    assert(head == rest.push(head.last()));
    lemma_count_silent(rest, Token::And);
    lemma_count_silent(rest, Token::Open);
    lemma_count_silent(rest, Token::Close);
    lemma_count_silent(rest, Token::If);
    lemma_count_push(rest, head.last(), Token::And);
    lemma_count_push(rest, head.last(), Token::Open);
    lemma_count_push(rest, head.last(), Token::Close);
    lemma_count_push(rest, head.last(), Token::If);
    let blocks = block_edits(lines, chain, site);
    lemma_count_silent(blocks, Token::And);
    lemma_count_silent(blocks, Token::Open);
    lemma_count_silent(blocks, Token::Close);
    lemma_count_silent(blocks, Token::If);
}

/// A chain of N conditions is joined by N - 1 operators: the plan puts in
/// `&& ` once in front of every condition but the first, and nowhere else.
pub proof fn lemma_joins_number_one_less(lines: Seq<Seq<char>>, chain: ChainView, site: Site)
    requires
        chain.well_formed(),
    ensures
        count_token(planned(lines, chain, site), Token::And) == chain.statements.len() - 1,
{
    let head = head_edits(lines, chain.statements[0], site);
    let middle = statements_edits(lines, chain.statements);
    let blocks = block_edits(lines, chain, site);
    lemma_frame_counts(lines, chain, site);
    lemma_statements_counts(lines, chain.statements);
    lemma_count_adds(head, middle, Token::And);
    lemma_count_adds(head + middle, blocks, Token::And);
}

/// The plan opens and closes one pair of parentheses for every condition
/// whose tested expression is a logical or, or a closure, and none besides.
pub proof fn lemma_parentheses_number_the_loose(
    lines: Seq<Seq<char>>,
    chain: ChainView,
    site: Site,
)
    requires
        chain.well_formed(),
    ensures
        count_token(planned(lines, chain, site), Token::Open) == count_loose(chain.statements),
        count_token(planned(lines, chain, site), Token::Close) == count_loose(chain.statements),
{
    let head = head_edits(lines, chain.statements[0], site);
    let middle = statements_edits(lines, chain.statements);
    let blocks = block_edits(lines, chain, site);
    lemma_frame_counts(lines, chain, site);
    lemma_statements_counts(lines, chain.statements);
    lemma_count_adds(head, middle, Token::Open);
    lemma_count_adds(head + middle, blocks, Token::Open);
    lemma_count_adds(head, middle, Token::Close);
    lemma_count_adds(head + middle, blocks, Token::Close);
}

/// The conditional gets exactly one keyword: a first condition that is a
/// guard keeps its own `if`, and the plan puts one in front of a first
/// condition that is a binding, and nowhere else.
pub proof fn lemma_keyword_only_for_leading_binding(
    lines: Seq<Seq<char>>,
    chain: ChainView,
    site: Site,
)
    requires
        chain.well_formed(),
    ensures
        count_token(planned(lines, chain, site), Token::If) == if chain.statements[0].is_binding() {
            1nat
        } else {
            0nat
        },
{
    let head = head_edits(lines, chain.statements[0], site);
    let middle = statements_edits(lines, chain.statements);
    let blocks = block_edits(lines, chain, site);
    lemma_frame_counts(lines, chain, site);
    lemma_statements_counts(lines, chain.statements);
    lemma_count_adds(head, middle, Token::If);
    lemma_count_adds(head + middle, blocks, Token::If);
}

/// The edits of each condition are among those of all conditions.
proof fn lemma_statements_edits_hold(
    lines: Seq<Seq<char>>,
    statements: Seq<Statement>,
    i: int,
    edit: Edit,
)
    requires
        0 <= i < statements.len(),
        statement_edits(lines, statements[i], i == 0).contains(edit),
    ensures
        statements_edits(lines, statements).contains(edit),
    decreases statements.len(),
{
    let before = statements_edits(lines, statements.drop_last());
    let last = statement_edits(lines, statements.last(), statements.len() == 1);
    if i == statements.len() - 1 {
        let k = choose|k: int| 0 <= k < last.len() && last[k] == edit;
        assert((before + last)[before.len() + k] == edit);
    } else {
        lemma_statements_edits_hold(lines, statements.drop_last(), i, edit);
        let k = choose|k: int| 0 <= k < before.len() && before[k] == edit;
        assert((before + last)[k] == edit);
    }
}

/// The edits of each condition are part of the plan.
proof fn lemma_plan_holds(chain: ChainView, lines: Seq<Seq<char>>, site: Site, i: int, edit: Edit)
    requires
        0 <= i < chain.statements.len(),
        statement_edits(lines, chain.statements[i], i == 0).contains(edit),
    ensures
        planned(lines, chain, site).contains(edit),
{
    let head = head_edits(lines, chain.statements[0], site);
    let middle = statements_edits(lines, chain.statements);
    lemma_statements_edits_hold(lines, chain.statements, i, edit);
    let k = choose|k: int| 0 <= k < middle.len() && middle[k] == edit;
    assert(planned(lines, chain, site)[head.len() + k] == edit);
}

/// A condition whose tested expression is a logical or, or a closure, is
/// wrapped: the plan puts `(` in front of the expression and `)` in the
/// place of the condition's `;`. Any other condition only loses its `;`.
pub proof fn lemma_loose_conditions_are_wrapped(
    lines: Seq<Seq<char>>,
    chain: ChainView,
    site: Site,
    i: int,
)
    requires
        0 <= i < chain.statements.len(),
    ensures
        planned(lines, chain, site).contains(close_edit(chain.statements[i])),
        chain.statements[i].form().binds_loosely() ==> {
            &&& close_edit(chain.statements[i]).token == Token::Close
            &&& planned(lines, chain, site).contains(
                Edit {
                    at: chain.statements[i].expr(),
                    until: chain.statements[i].expr(),
                    token: Token::Open,
                },
            )
        },
        !chain.statements[i].form().binds_loosely() ==> close_edit(chain.statements[i]).token
            == Token::Nothing,
{
    let statement = chain.statements[i];
    let edits = statement_edits(lines, statement, i == 0);
    let joins = join_edits(lines, statement, i == 0);
    let opens = open_edits(statement);
    assert(edits[(joins.len() + opens.len()) as int] == close_edit(statement));
    lemma_plan_holds(chain, lines, site, i, close_edit(statement));
    if statement.form().binds_loosely() {
        let open = Edit { at: statement.expr(), until: statement.expr(), token: Token::Open };
        assert(edits[joins.len() as int] == open);
        lemma_plan_holds(chain, lines, site, i, open);
    }
}

/// Every condition but the first is joined to the one before it: the plan
/// puts `&& ` in the place of its lead-in.
pub proof fn lemma_later_conditions_are_joined(
    lines: Seq<Seq<char>>,
    chain: ChainView,
    site: Site,
    i: int,
)
    requires
        1 <= i < chain.statements.len(),
    ensures
        exists|k: int|
            0 <= k < planned(lines, chain, site).len() && (#[trigger] planned(
                lines,
                chain,
                site,
            )[k]).at == chain.statements[i].start() && planned(lines, chain, site)[k].token
                == Token::And,
{
    let statement = chain.statements[i];
    let join = statement_edits(lines, statement, false)[0];
    assert(join.at == statement.start() && join.token == Token::And);
    lemma_plan_holds(chain, lines, site, i, join);
    let k = choose|k: int|
        0 <= k < planned(lines, chain, site).len() && planned(lines, chain, site)[k] == join;
    assert(planned(lines, chain, site)[k].at == statement.start());
}

/// How an evaluation went: how many conditions were tested, and whether the
/// consequence runs. Where it does not, the alternative runs if there is
/// one.
pub struct Run {
    pub tested: nat,
    pub consequence: bool,
}

/// A chain from condition `from` on, read as conditionals nested in one
/// another: a condition is tested, and only if it holds the next one is.
/// `holds[i]` says whether condition `i` holds.
pub open spec fn nested_run(holds: Seq<bool>, from: nat) -> Run
    decreases holds.len() - from,
{
    if from >= holds.len() {
        Run { tested: from, consequence: true }
    } else if holds[from as int] {
        nested_run(holds, from + 1)
    } else {
        Run { tested: from + 1, consequence: false }
    }
}

/// The first `n` conditions joined by `&&`. The operator groups to the left,
/// tests its left side first and its right side only if the left one holds.
pub open spec fn joined_run(holds: Seq<bool>, n: nat) -> Run
    decreases n,
{
    if n <= 1 {
        Run { tested: 1, consequence: holds[0] }
    } else {
        let left = joined_run(holds, (n - 1) as nat);
        if left.consequence {
            Run { tested: n, consequence: holds[n - 1] }
        } else {
            left
        }
    }
}

/// The nested reading of the first `n` conditions, started at `from`, goes
/// as that of all conditions until it has passed them.
proof fn lemma_nested_prefix(holds: Seq<bool>, n: nat, from: nat)
    requires
        from <= n <= holds.len(),
    ensures
        nested_run(holds.subrange(0, n as int), from).consequence ==> nested_run(holds, from)
            == nested_run(holds, n),
        !nested_run(holds.subrange(0, n as int), from).consequence ==> nested_run(holds, from)
            == nested_run(holds.subrange(0, n as int), from),
        nested_run(holds.subrange(0, n as int), from).consequence ==> nested_run(
            holds.subrange(0, n as int),
            from,
        ).tested == n,
    decreases n - from,
{
    if from < n {
        lemma_nested_prefix(holds, n, from + 1);
    }
}

/// The joined conditions go as the nested ones.
proof fn lemma_joined_prefix(holds: Seq<bool>, n: nat)
    requires
        1 <= n <= holds.len(),
    ensures
        joined_run(holds, n) == nested_run(holds.subrange(0, n as int), 0),
    decreases n,
{
    let upto = holds.subrange(0, n as int);
    if n == 1 {
        assert(nested_run(upto, 1) == Run { tested: 1, consequence: true });
    } else {
        let shorter = (n - 1) as nat;
        lemma_joined_prefix(holds, shorter);
        assert(upto.subrange(0, shorter as int) == holds.subrange(0, shorter as int));
        lemma_nested_prefix(upto, shorter, 0);
        assert(nested_run(upto, n) == Run { tested: n, consequence: true });
    }
}

/// Joining keeps the order of evaluation: the conditions joined by `&&` are
/// tested from left to right up to the first that fails, exactly as the
/// nested conditionals of the chain are, and the consequence runs in the one
/// reading if and only if it runs in the other.
pub proof fn lemma_joined_runs_as_nested(holds: Seq<bool>)
    requires
        holds.len() > 0,
    ensures
        joined_run(holds, holds.len()) == nested_run(holds, 0),
        nested_run(holds, 0).consequence <==> forall|i: int| 0 <= i < holds.len() ==> holds[i],
{
    lemma_joined_prefix(holds, holds.len());
    assert(holds.subrange(0, holds.len() as int) == holds);
    lemma_nested_all(holds, 0);
}

/// The nested reading reaches the consequence exactly if every condition
/// from `from` on holds.
proof fn lemma_nested_all(holds: Seq<bool>, from: nat)
    requires
        from <= holds.len(),
    ensures
        nested_run(holds, from).consequence <==> forall|i: int|
            from <= i < holds.len() ==> holds[i],
    decreases holds.len() - from,
{
    if from < holds.len() {
        lemma_nested_all(holds, from + 1);
    }
}

/// `place` lies at or behind `other` in the text.
pub open spec fn at_or_behind(place: Position, other: Position) -> bool {
    other.line < place.line || (other.line == place.line && other.column <= place.column)
}

/// How many edits the first `i` conditions have.
pub open spec fn edits_before(lines: Seq<Seq<char>>, statements: Seq<Statement>, i: int) -> int {
    statements_edits(lines, statements.subrange(0, i)).len() as int
}

/// The edits of condition `i` stand in a row among those of all conditions,
/// behind those of the conditions before it.
proof fn lemma_statement_block(lines: Seq<Seq<char>>, statements: Seq<Statement>, i: int)
    requires
        0 <= i < statements.len(),
    ensures
        edits_before(lines, statements, i + 1) == edits_before(lines, statements, i) + statement_edits(lines, 
            statements[i],
            i == 0,
        ).len(),
        edits_before(lines, statements, i + 1) <= statements_edits(lines, statements).len(),
        ({
            let own = statement_edits(lines, statements[i], i == 0);
            forall|k: int|
                0 <= k < own.len() ==> statements_edits(lines, statements)[edits_before(lines, statements, i)
                    + k] == #[trigger] own[k]
        }),
    decreases statements.len(),
{
    let shorter = statements.drop_last();
    let upto = statements.subrange(0, i + 1);
    assert(upto.drop_last() == statements.subrange(0, i));
    assert(upto.last() == statements[i]);
    if i == statements.len() - 1 {
        assert(upto == statements);
        assert(shorter == statements.subrange(0, i));
    } else {
        lemma_statement_block(lines, shorter, i);
        assert(shorter.subrange(0, i) == statements.subrange(0, i));
        assert(shorter.subrange(0, i + 1) == statements.subrange(0, i + 1));
    }
}

/// Later conditions have their edits further on.
proof fn lemma_edits_before_grows(
    lines: Seq<Seq<char>>,
    statements: Seq<Statement>,
    i: int,
    j: int,
)
    requires
        0 <= i <= j <= statements.len(),
    ensures
        edits_before(lines, statements, i) <= edits_before(lines, statements, j),
    decreases j - i,
{
    if i < j {
        lemma_statement_block(lines, statements, j - 1);
        lemma_edits_before_grows(lines, statements, i, j - 1);
    }
}

/// Where the plan is well placed, the conditions stand in the text in the
/// order in which they are tested: each starts at or behind the `;` of the
/// one before it. So the order of the operands of `&&` in the rewritten text
/// is the order of the chain.
pub proof fn lemma_conditions_stand_in_order(
    lines: Seq<Seq<char>>,
    chain: ChainView,
    site: Site,
    i: int,
    j: int,
)
    requires
        all_well_placed(lines, planned(lines, chain, site)),
        0 <= i < j < chain.statements.len(),
    ensures
        at_or_behind(chain.statements[j].start(), chain.statements[i].semi().end),
{
    let statements = chain.statements;
    let edits = planned(lines, chain, site);
    let head = head_edits(lines, statements[0], site);
    let middle = statements_edits(lines, statements);
    let offset = head.len() as int;
    lemma_statement_block(lines, statements, i);
    lemma_statement_block(lines, statements, j);
    lemma_edits_before_grows(lines, statements, i + 1, j);
    let of_i = statement_edits(lines, statements[i], i == 0);
    let of_j = statement_edits(lines, statements[j], j == 0);
    let close = edits_before(lines, statements, i + 1) - 1;
    let join = edits_before(lines, statements, j);
    assert(of_i[of_i.len() - 1] == close_edit(statements[i]));
    assert(middle[edits_before(lines, statements, i) + (of_i.len() - 1)] == close_edit(statements[i]));
    assert(of_j[0].at == statements[j].start());
    assert(middle[join + 0] == of_j[0]);
    assert(edits[offset + close] == middle[close]);
    assert(edits[offset + join] == middle[join]);
    lemma_edits_ascend(lines, edits, offset + close, offset + join);
}

} // verus!

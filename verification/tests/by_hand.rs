//! The library's functions on values written out by hand.

use if_to_let_chain::buffer::{replace_chars, SourceBuffer};
use if_to_let_chain::chain::{
    Else, ExprForm, IfChain, IfExpr, Local, Position, Site, Span, Statement, Then,
};
use if_to_let_chain::driver::{modify, pass, Diagnostic, Driver, Finding, Scan, State};
use if_to_let_chain::edit::{Edit, Token};
use if_to_let_chain::grammar::{is_reserved, Clause, Init, ShapeError};
use if_to_let_chain::plan::plan;
use if_to_let_chain::rewrite::{if_to_let_chain, SpanError};

fn at(line: usize, column: usize) -> Position {
    Position { line, column }
}

fn span(line: usize, from: usize, to: usize) -> Span {
    Span { start: at(line, from), end: at(line, to) }
}

fn buffer(lines: &[&str]) -> SourceBuffer {
    SourceBuffer { lines: lines.iter().map(|line| String::from(*line)).collect() }
}

fn guard(line: usize, if_column: usize, expr_column: usize, semi_column: usize) -> IfExpr {
    IfExpr {
        if_token: at(line, if_column),
        expr: at(line, expr_column),
        form: ExprForm::Other,
        semi_token: span(line, semi_column, semi_column + 1),
    }
}

/// `if_chain! { if a; if b; then { c } }`, all on line 1 from column 0.
const ONE_LINE: &str = "if_chain! { if a; if b; then { c } }";

fn one_line_site() -> Site {
    Site { span: span(1, 0, 36), bang_token: at(1, 8) }
}

fn one_line_clauses() -> Vec<Clause> {
    vec![
        Clause::Guard(guard(1, 12, 15, 16)),
        Clause::Guard(guard(1, 18, 21, 22)),
        Clause::Then(Then { then_token: at(1, 24), block: span(1, 29, 34) }),
    ]
}

fn one_line_chain() -> IfChain {
    IfChain::assemble(&one_line_clauses()).unwrap()
}

#[test]
fn replace_chars_counts_characters() {
    let mut line = String::from("héllo wörld");
    replace_chars(&mut line, "ipp", 1, 5);
    assert_eq!(line, "hipp wörld");
}

#[test]
fn replace_chars_inserts_where_the_range_is_empty() {
    let mut line = String::from("ab");
    replace_chars(&mut line, "(", 1, 1);
    assert_eq!(line, "a(b");
    replace_chars(&mut line, ")", 3, 3);
    assert_eq!(line, "a(b)");
    replace_chars(&mut line, "é", 0, 0);
    assert_eq!(line, "éa(b)");
}

#[test]
fn replace_chars_cuts_to_the_end() {
    let mut line = String::from("abcdéf");
    replace_chars(&mut line, "", 2, 6);
    assert_eq!(line, "ab");
    replace_chars(&mut line, "", 0, 2);
    assert_eq!(line, "");
}

#[test]
fn from_text_cuts_at_line_feeds_only() {
    assert_eq!(SourceBuffer::from_text("a\nb\n"), buffer(&["a", "b", ""]));
    assert_eq!(SourceBuffer::from_text(""), buffer(&[""]));
    assert_eq!(SourceBuffer::from_text("\n"), buffer(&["", ""]));
    assert_eq!(SourceBuffer::from_text("a\r\nb"), buffer(&["a\r", "b"]));
    assert_eq!(SourceBuffer::from_text("no feed"), buffer(&["no feed"]));
}

#[test]
fn to_text_puts_a_line_feed_between_lines() {
    assert_eq!(buffer(&["a", "b", ""]).to_text(), "a\nb\n");
    assert_eq!(buffer(&["a"]).to_text(), "a");
    assert_eq!(buffer(&[]).to_text(), "");
    assert_eq!(buffer(&["", ""]).to_text(), "\n");
}

#[test]
fn splitting_and_joining_gives_the_text_back() {
    for text in ["", "\n", "a", "a\n", "\na", "a\r\nb\r\n", "é\n\n\nü", "x\n \n\t\n"] {
        assert_eq!(SourceBuffer::from_text(text).to_text(), text);
    }
}

#[test]
fn tokens_read_as_they_are_written() {
    assert_eq!(Token::Nothing.as_str(), "");
    assert_eq!(Token::If.as_str(), "if ");
    assert_eq!(Token::And.as_str(), "&& ");
    assert_eq!(Token::Open.as_str(), "(");
    assert_eq!(Token::Close.as_str(), ")");
}

#[test]
fn only_or_and_closure_need_parentheses() {
    assert!(ExprForm::Or.needs_parens());
    assert!(ExprForm::Closure.needs_parens());
    assert!(!ExprForm::Other.needs_parens());
}

#[test]
fn a_guard_starts_at_its_keyword() {
    let statement = Statement::IfExpr(IfExpr {
        if_token: at(3, 8),
        expr: at(3, 11),
        form: ExprForm::Or,
        semi_token: span(4, 20, 21),
    });
    assert_eq!(statement.start(), at(3, 8));
    assert_eq!(statement.start_after_if(), at(3, 11));
    assert_eq!(statement.expr(), at(3, 11));
    assert_eq!(statement.semi(), span(4, 20, 21));
    assert_eq!(statement.form(), ExprForm::Or);
}

#[test]
fn a_binding_starts_at_its_let() {
    let statement = Statement::Local(Local {
        let_token: at(3, 8),
        init: at(3, 22),
        form: ExprForm::Closure,
        semi_token: span(3, 30, 31),
    });
    assert_eq!(statement.start(), at(3, 8));
    assert_eq!(statement.start_after_if(), at(3, 8));
    assert_eq!(statement.expr(), at(3, 22));
    assert_eq!(statement.semi(), span(3, 30, 31));
    assert_eq!(statement.form(), ExprForm::Closure);
}

#[test]
fn a_chain_ends_with_its_last_block() {
    let mut chain = one_line_chain();
    assert_eq!(chain.end(), at(1, 34));
    chain.else_clause = Some(Else { block: span(2, 4, 9) });
    assert_eq!(chain.end(), at(2, 9));
}

#[test]
fn a_clause_starts_at_its_first_token() {
    assert_eq!(Clause::Guard(guard(2, 4, 7, 9)).start(), at(2, 4));
    let binding = Clause::Binding { let_token: at(5, 1), init: None, semi_token: span(5, 6, 7) };
    assert_eq!(binding.start(), at(5, 1));
    assert_eq!(binding.condition(), None);
    assert_eq!(Clause::Then(Then { then_token: at(6, 2), block: span(6, 7, 9) }).start(), at(6, 2));
    assert_eq!(Clause::Else(Else { block: span(7, 3, 5) }).start(), at(7, 3));
}

#[test]
fn a_binding_with_an_expression_is_a_condition() {
    let binding = Clause::Binding {
        let_token: at(5, 1),
        init: Some(Init { at: at(5, 9), form: ExprForm::Or }),
        semi_token: span(5, 15, 16),
    };
    assert_eq!(
        binding.condition(),
        Some(Statement::Local(Local {
            let_token: at(5, 1),
            init: at(5, 9),
            form: ExprForm::Or,
            semi_token: span(5, 15, 16),
        }))
    );
    assert_eq!(
        Clause::Guard(guard(2, 4, 7, 9)).condition(),
        Some(Statement::IfExpr(guard(2, 4, 7, 9)))
    );
    assert_eq!(Clause::Else(Else { block: span(7, 3, 5) }).condition(), None);
}

#[test]
fn assemble_reads_conditions_consequence_and_alternative() {
    let mut clauses = one_line_clauses();
    assert_eq!(
        IfChain::assemble(&clauses),
        Ok(IfChain {
            statements: vec![
                Statement::IfExpr(guard(1, 12, 15, 16)),
                Statement::IfExpr(guard(1, 18, 21, 22)),
            ],
            then_clause: Then { then_token: at(1, 24), block: span(1, 29, 34) },
            else_clause: None,
        })
    );
    clauses.push(Clause::Else(Else { block: span(1, 40, 45) }));
    let chain = IfChain::assemble(&clauses).unwrap();
    assert_eq!(chain.statements.len(), 2);
    assert_eq!(chain.else_clause, Some(Else { block: span(1, 40, 45) }));
}

#[test]
fn assemble_wants_a_consequence() {
    assert_eq!(IfChain::assemble(&vec![]), Err(ShapeError::MissingThen));
    assert_eq!(
        IfChain::assemble(&vec![Clause::Guard(guard(1, 12, 15, 16))]),
        Err(ShapeError::MissingThen)
    );
    assert_eq!(
        IfChain::assemble(&vec![
            Clause::Guard(guard(1, 12, 15, 16)),
            Clause::Else(Else { block: span(1, 20, 25) }),
            Clause::Then(Then { then_token: at(1, 26), block: span(1, 31, 36) }),
        ]),
        Err(ShapeError::MissingThen)
    );
}

#[test]
fn assemble_wants_a_condition() {
    assert_eq!(
        IfChain::assemble(&vec![Clause::Then(Then {
            then_token: at(1, 12),
            block: span(1, 17, 22)
        })]),
        Err(ShapeError::NoConditions)
    );
}

#[test]
fn assemble_wants_every_binding_matched_against_something() {
    assert_eq!(
        IfChain::assemble(&vec![
            Clause::Guard(guard(1, 12, 15, 16)),
            Clause::Binding { let_token: at(2, 4), init: None, semi_token: span(2, 9, 10) },
            Clause::Then(Then { then_token: at(3, 4), block: span(3, 9, 14) }),
        ]),
        Err(ShapeError::MissingInit { at: at(2, 4) })
    );
}

#[test]
fn assemble_wants_nothing_behind_the_blocks() {
    let consequence = Clause::Then(Then { then_token: at(1, 24), block: span(1, 29, 34) });
    let alternative = Clause::Else(Else { block: span(1, 40, 45) });
    let mut clauses = one_line_clauses();
    clauses.push(Clause::Guard(guard(2, 0, 3, 4)));
    assert_eq!(IfChain::assemble(&clauses), Err(ShapeError::Unexpected { at: at(2, 0) }));
    let mut clauses = one_line_clauses();
    clauses.push(consequence);
    assert_eq!(IfChain::assemble(&clauses), Err(ShapeError::Unexpected { at: at(1, 24) }));
    let mut clauses = one_line_clauses();
    clauses.push(alternative);
    clauses.push(alternative);
    assert_eq!(IfChain::assemble(&clauses), Err(ShapeError::Unexpected { at: at(1, 40) }));
}

#[test]
fn plan_lists_the_edits_in_the_order_of_the_text() {
    let edits = plan(&buffer(&[ONE_LINE]), &one_line_chain(), &one_line_site());
    let nothing = Token::Nothing;
    assert_eq!(
        edits,
        vec![
            Edit { at: at(1, 0), until: at(1, 12), token: nothing },
            Edit { at: at(1, 16), until: at(1, 17), token: nothing },
            Edit { at: at(1, 18), until: at(1, 21), token: Token::And },
            Edit { at: at(1, 22), until: at(1, 23), token: nothing },
            Edit { at: at(1, 24), until: at(1, 29), token: nothing },
            Edit { at: at(1, 34), until: at(1, 34), token: nothing },
            Edit { at: at(1, 34), until: at(1, 36), token: nothing },
        ]
    );
}

#[test]
fn plan_wraps_a_loose_binding_and_leads_with_a_keyword() {
    // if_chain! {
    //     let t = a || b;
    //     then { c } else { d }
    // }
    let text = buffer(&["if_chain! {", "    let t = a || b;", "    then { c } else { d }", "}"]);
    let chain = IfChain {
        statements: vec![Statement::Local(Local {
            let_token: at(2, 4),
            init: at(2, 12),
            form: ExprForm::Or,
            semi_token: span(2, 18, 19),
        })],
        then_clause: Then { then_token: at(3, 4), block: span(3, 9, 14) },
        else_clause: Some(Else { block: span(3, 20, 25) }),
    };
    let site = Site { span: Span { start: at(1, 0), end: at(4, 1) }, bang_token: at(1, 8) };
    let nothing = Token::Nothing;
    assert_eq!(
        plan(&text, &chain, &site),
        vec![
            Edit { at: at(1, 0), until: at(1, 11), token: nothing },
            Edit { at: at(2, 0), until: at(2, 4), token: Token::If },
            Edit { at: at(2, 12), until: at(2, 12), token: Token::Open },
            Edit { at: at(2, 18), until: at(2, 19), token: Token::Close },
            Edit { at: at(3, 4), until: at(3, 9), token: nothing },
            Edit { at: at(3, 14), until: at(3, 14), token: nothing },
            Edit { at: at(3, 20), until: at(3, 20), token: nothing },
            Edit { at: at(3, 25), until: at(3, 25), token: nothing },
            Edit { at: at(4, 0), until: at(4, 1), token: nothing },
        ]
    );
    assert_eq!(
        text.collapse(&chain, &site, 4),
        Ok(buffer(&["if let t = (a || b)", "    { c } else { d }"]))
    );
}

#[test]
fn first_misplaced_finds_what_does_not_fit() {
    let text = buffer(&["abc", "de"]);
    let good = Edit { at: at(1, 1), until: at(1, 3), token: Token::Nothing };
    assert_eq!(text.first_misplaced(&vec![]), None);
    assert_eq!(text.first_misplaced(&vec![good]), None);
    let off_the_line = Edit { at: at(2, 1), until: at(2, 3), token: Token::Nothing };
    assert_eq!(text.first_misplaced(&vec![good, off_the_line]), Some(1));
    let no_such_line = Edit { at: at(3, 0), until: at(3, 0), token: Token::Nothing };
    assert_eq!(text.first_misplaced(&vec![no_such_line]), Some(0));
    let line_zero = Edit { at: at(0, 0), until: at(0, 0), token: Token::Nothing };
    assert_eq!(text.first_misplaced(&vec![line_zero]), Some(0));
    let over_two_lines = Edit { at: at(1, 1), until: at(2, 1), token: Token::Nothing };
    assert_eq!(text.first_misplaced(&vec![over_two_lines]), Some(0));
    let backwards = Edit { at: at(1, 2), until: at(1, 1), token: Token::Nothing };
    assert_eq!(text.first_misplaced(&vec![backwards]), Some(0));
    let overlapping = Edit { at: at(1, 2), until: at(1, 3), token: Token::Nothing };
    assert_eq!(text.first_misplaced(&vec![good, overlapping]), Some(1));
    let behind = Edit { at: at(1, 3), until: at(1, 3), token: Token::Open };
    let next_line = Edit { at: at(2, 0), until: at(2, 2), token: Token::Close };
    assert_eq!(text.first_misplaced(&vec![good, behind, next_line]), None);
    assert_eq!(text.first_misplaced(&vec![next_line, good]), Some(1));
}

#[test]
fn apply_makes_every_edit_where_it_was_planned() {
    let mut text = buffer(&["if a || b;", "if c;", "untouched"]);
    text.apply(&vec![
        Edit { at: at(1, 3), until: at(1, 3), token: Token::Open },
        Edit { at: at(1, 9), until: at(1, 10), token: Token::Close },
        Edit { at: at(2, 0), until: at(2, 3), token: Token::And },
        Edit { at: at(2, 4), until: at(2, 5), token: Token::Nothing },
    ]);
    assert_eq!(text, buffer(&["if (a || b)", "&& c", "untouched"]));
}

#[test]
fn reindent_shifts_body_lines_only() {
    // Line 2 opens the consequence, line 5 closes it and opens the
    // alternative, line 8 closes that.
    let chain = IfChain {
        statements: vec![Statement::IfExpr(guard(1, 0, 3, 4))],
        then_clause: Then {
            then_token: at(2, 0),
            block: Span { start: at(2, 5), end: at(5, 1) },
        },
        else_clause: Some(Else { block: Span { start: at(5, 7), end: at(8, 1) } }),
    };
    let mut text = buffer(&[
        "    if a;",
        "    then {",
        "        b",
        "    ",
        "    } else {",
        "     c",
        "  d",
        "    }",
        "    after",
    ]);
    text.reindent(&chain, 4);
    assert_eq!(
        text,
        buffer(&[
            "    if a;",
            "    then {",
            "    b",
            "    ",
            "    } else {",
            " c",
            "  d",
            "    }",
            "    after",
        ])
    );
}

#[test]
fn arrange_moves_the_first_line_up_and_the_last_line_down() {
    let text = buffer(&["0", "top ", "lead", "first", "body", "last", "trail", " bottom", "8"]);
    assert_eq!(
        text.arrange(1, 3, 5, 7),
        buffer(&["0", "top first", "lead", "body", "trail", "last bottom", "8"])
    );
}

#[test]
fn arrange_leaves_lines_that_need_no_move() {
    let text = buffer(&["a", "b", "c", "d"]);
    assert_eq!(text.arrange(1, 1, 2, 2), buffer(&["a", "b", "c", "d"]));
    assert_eq!(text.arrange(0, 0, 0, 0), buffer(&["a", "b", "c", "d"]));
    assert_eq!(text.arrange(0, 1, 2, 3), buffer(&["ab", "cd"]));
    assert_eq!(text.arrange(0, 1, 1, 3), buffer(&["abd", "c"]));
    assert_eq!(text.arrange(0, 2, 2, 3), buffer(&["acd", "b"]));
    assert_eq!(text.arrange(1, 1, 1, 3), buffer(&["a", "bd", "c"]));
    assert_eq!(text.arrange(0, 3, 3, 3), buffer(&["ad", "b", "c"]));
}

#[test]
fn rewrite_of_one_line() {
    assert_eq!(
        if_to_let_chain(ONE_LINE, 4, &one_line_chain(), &one_line_site()),
        Ok(String::from("if a && b { c }"))
    );
}

#[test]
fn rewrite_keeps_what_stands_around() {
    let text = format!("x\nlet y = {ONE_LINE};\r\nz\n");
    let mut site = one_line_site();
    site.span = span(2, 8, 44);
    site.bang_token = at(2, 16);
    let clauses = vec![
        Clause::Guard(guard(2, 20, 23, 24)),
        Clause::Guard(guard(2, 26, 29, 30)),
        Clause::Then(Then { then_token: at(2, 32), block: span(2, 37, 42) }),
    ];
    let chain = IfChain::assemble(&clauses).unwrap();
    assert_eq!(
        if_to_let_chain(&text, 4, &chain, &site),
        Ok(String::from("x\nlet y = if a && b { c };\r\nz\n"))
    );
}

#[test]
fn rewrite_fails_where_a_separator_is_off_its_line() {
    let mut chain = one_line_chain();
    chain.statements[1] = Statement::IfExpr(guard(1, 18, 21, 36));
    assert_eq!(
        if_to_let_chain(ONE_LINE, 4, &chain, &one_line_site()),
        Err(SpanError { at: at(1, 36) })
    );
}

#[test]
fn rewrite_fails_where_positions_go_back() {
    let mut chain = one_line_chain();
    chain.statements.swap(0, 1);
    assert_eq!(
        if_to_let_chain(ONE_LINE, 4, &chain, &one_line_site()),
        Err(SpanError { at: at(1, 12) })
    );
}

#[test]
fn rewrite_fails_where_the_invocation_ends_before_the_chain() {
    let mut site = one_line_site();
    site.span = span(1, 0, 30);
    assert_eq!(
        if_to_let_chain(ONE_LINE, 4, &one_line_chain(), &site),
        Err(SpanError { at: at(1, 34) })
    );
}

#[test]
fn rewrite_fails_where_a_line_is_missing() {
    let mut site = one_line_site();
    site.span = Span { start: at(1, 0), end: at(2, 1) };
    assert_eq!(
        if_to_let_chain(ONE_LINE, 4, &one_line_chain(), &site),
        Err(SpanError { at: at(2, 0) })
    );
}

#[test]
fn rewrite_fails_where_the_bang_is_none() {
    let mut site = one_line_site();
    site.bang_token = at(1, 7);
    assert_eq!(
        if_to_let_chain(ONE_LINE, 4, &one_line_chain(), &site),
        Err(SpanError { at: at(1, 7) })
    );
    site.bang_token = at(1, 12);
    assert_eq!(
        if_to_let_chain(ONE_LINE, 4, &one_line_chain(), &site),
        Err(SpanError { at: at(1, 12) })
    );
    site.bang_token = at(2, 8);
    assert_eq!(
        if_to_let_chain(ONE_LINE, 4, &one_line_chain(), &site),
        Err(SpanError { at: at(2, 8) })
    );
}

#[test]
fn rewrite_takes_a_consequence_word_and_brace_on_two_lines() {
    // if_chain! {
    //     if a;
    //     then
    //     { c }
    // }
    let text = "if_chain! {\n    if a;\n    then\n    { c }\n}";
    let chain = IfChain {
        statements: vec![Statement::IfExpr(guard(2, 4, 7, 8))],
        then_clause: Then { then_token: at(3, 4), block: span(4, 4, 9) },
        else_clause: None,
    };
    let site = Site { span: Span { start: at(1, 0), end: at(5, 1) }, bang_token: at(1, 8) };
    assert_eq!(
        plan(&buffer(&["if_chain! {", "    if a;", "    then", "    { c }", "}"]), &chain, &site),
        vec![
            Edit { at: at(1, 0), until: at(1, 11), token: Token::Nothing },
            Edit { at: at(2, 0), until: at(2, 4), token: Token::Nothing },
            Edit { at: at(2, 8), until: at(2, 9), token: Token::Nothing },
            Edit { at: at(3, 4), until: at(3, 8), token: Token::Nothing },
            Edit { at: at(4, 0), until: at(4, 4), token: Token::Nothing },
            Edit { at: at(4, 9), until: at(4, 9), token: Token::Nothing },
            Edit { at: at(5, 0), until: at(5, 1), token: Token::Nothing },
        ]
    );
    assert_eq!(if_to_let_chain(text, 4, &chain, &site), Ok(String::from("if a\n    \n{ c }")));
}

#[test]
fn rewrite_fails_where_the_brace_stands_before_the_consequence_word() {
    let mut chain = one_line_chain();
    chain.then_clause = Then { then_token: at(1, 29), block: span(1, 24, 34) };
    assert_eq!(
        if_to_let_chain(ONE_LINE, 4, &chain, &one_line_site()),
        Err(SpanError { at: at(1, 29) })
    );
}

#[test]
fn a_pass_joins_one_time_less_than_there_are_conditions() {
    // if_chain! { if a; if b; if c; if d; then { e } }
    let text = "if_chain! { if a; if b; if c; if d; then { e } }";
    let clauses = vec![
        Clause::Guard(guard(1, 12, 15, 16)),
        Clause::Guard(guard(1, 18, 21, 22)),
        Clause::Guard(guard(1, 24, 27, 28)),
        Clause::Guard(guard(1, 30, 33, 34)),
        Clause::Then(Then { then_token: at(1, 36), block: span(1, 41, 46) }),
    ];
    let chain = IfChain::assemble(&clauses).unwrap();
    let site = Site { span: span(1, 0, 48), bang_token: at(1, 8) };
    let edits = plan(&buffer(&[text]), &chain, &site);
    assert_eq!(edits.iter().filter(|edit| edit.token == Token::And).count(), 3);
    let out = if_to_let_chain(text, 4, &chain, &site).unwrap();
    assert_eq!(out, "if a && b && c && d { e }");
    assert_eq!(out.matches("&&").count(), 3);
}

#[test]
fn a_pass_takes_a_bang_out_of_the_text() {
    let text = format!("a! {ONE_LINE} b!");
    let mut site = one_line_site();
    site.span = span(1, 3, 39);
    site.bang_token = at(1, 11);
    let clauses = vec![
        Clause::Guard(guard(1, 15, 18, 19)),
        Clause::Guard(guard(1, 21, 24, 25)),
        Clause::Then(Then { then_token: at(1, 27), block: span(1, 32, 37) }),
    ];
    let mut contents = text.clone();
    let mut diagnostics = Vec::new();
    assert!(pass(&mut contents, 4, &Scan::Found { site, clauses }, &mut diagnostics));
    assert_eq!(contents, "a! if a && b { c } b!");
    assert_eq!(text.matches('!').count(), 3);
    assert_eq!(contents.matches('!').count(), 2);
}

#[test]
fn pass_reports_a_file_that_cannot_be_read() {
    let mut contents = String::from("fn f( {");
    let mut diagnostics = Vec::new();
    let scan = Scan::Unparsable { line: 1, message: String::from("expected `)`") };
    assert!(!pass(&mut contents, 4, &scan, &mut diagnostics));
    assert_eq!(contents, "fn f( {");
    assert_eq!(
        diagnostics,
        vec![Diagnostic { line: 1, finding: Finding::Unparsable(String::from("expected `)`")) }]
    );
}

#[test]
fn pass_reports_a_body_that_cannot_be_read() {
    let mut contents = String::from(ONE_LINE);
    let mut diagnostics =
        vec![Diagnostic { line: 7, finding: Finding::LeadingGap }];
    let scan = Scan::Malformed { line: 1, message: String::from("expected local") };
    assert!(!pass(&mut contents, 4, &scan, &mut diagnostics));
    assert_eq!(contents, ONE_LINE);
    assert_eq!(
        diagnostics,
        vec![
            Diagnostic { line: 7, finding: Finding::LeadingGap },
            Diagnostic { line: 1, finding: Finding::Malformed(String::from("expected local")) },
        ]
    );
}

#[test]
fn pass_reports_a_body_that_is_no_chain() {
    let mut contents = String::from(ONE_LINE);
    let mut diagnostics = Vec::new();
    let scan = Scan::Found {
        site: one_line_site(),
        clauses: vec![Clause::Then(Then { then_token: at(1, 24), block: span(1, 29, 34) })],
    };
    assert!(!pass(&mut contents, 4, &scan, &mut diagnostics));
    assert_eq!(contents, ONE_LINE);
    assert_eq!(
        diagnostics,
        vec![Diagnostic { line: 1, finding: Finding::Shape(ShapeError::NoConditions) }]
    );
}

#[test]
fn pass_reports_positions_that_do_not_fit() {
    let mut contents = String::from("short");
    let mut diagnostics = Vec::new();
    let scan = Scan::Found { site: one_line_site(), clauses: one_line_clauses() };
    assert!(!pass(&mut contents, 4, &scan, &mut diagnostics));
    assert_eq!(contents, "short");
    assert_eq!(
        diagnostics,
        vec![Diagnostic {
            line: 1,
            finding: Finding::Span(SpanError { at: at(1, 0) }),
        }]
    );
}

#[test]
fn pass_says_nothing_where_nothing_is_found() {
    let mut contents = String::from(ONE_LINE);
    let mut diagnostics = Vec::new();
    assert!(!pass(&mut contents, 4, &Scan::Absent, &mut diagnostics));
    assert_eq!(contents, ONE_LINE);
    assert!(diagnostics.is_empty());
}

#[test]
fn pass_reports_lines_before_the_first_condition() {
    let text = "if_chain! {\n\n    // why\n    if a;\n    then { c }\n}";
    let scan = Scan::Found {
        site: Site { span: Span { start: at(1, 0), end: at(6, 1) }, bang_token: at(1, 8) },
        clauses: vec![
            Clause::Guard(guard(4, 4, 7, 8)),
            Clause::Then(Then { then_token: at(5, 4), block: span(5, 9, 14) }),
        ],
    };
    let mut contents = String::from(text);
    let mut diagnostics = Vec::new();
    assert!(pass(&mut contents, 4, &scan, &mut diagnostics));
    assert_eq!(contents, "if a\n\n    // why\n    { c }");
    assert_eq!(diagnostics, vec![Diagnostic { line: 3, finding: Finding::LeadingGap }]);
}

#[test]
fn a_driver_scans_until_nothing_is_found() {
    let mut driver = Driver::new(String::from(ONE_LINE), 4);
    assert_eq!(driver.state, State::Scanning);
    assert!(!driver.modified);
    assert!(driver.diagnostics.is_empty());
    assert_eq!(driver.deindent, 4);
    driver.step(&Scan::Found { site: one_line_site(), clauses: one_line_clauses() });
    assert_eq!(driver.state, State::Scanning);
    assert!(driver.modified);
    assert_eq!(driver.contents, "if a && b { c }");
    driver.step(&Scan::Absent);
    assert_eq!(driver.state, State::Done);
    assert!(driver.modified);
    assert_eq!(driver.contents, "if a && b { c }");
    let done = driver.clone();
    driver.step(&Scan::Found { site: one_line_site(), clauses: one_line_clauses() });
    assert_eq!(driver, done);
}

#[test]
fn a_driver_fails_and_keeps_what_it_has() {
    let mut driver = Driver::new(String::from(ONE_LINE), 4);
    driver.step(&Scan::Found { site: one_line_site(), clauses: one_line_clauses() });
    driver.step(&Scan::Unparsable { line: 1, message: String::from("no") });
    assert_eq!(driver.state, State::Failed);
    assert!(driver.modified);
    assert_eq!(driver.contents, "if a && b { c }");
    assert_eq!(
        driver.diagnostics,
        vec![Diagnostic { line: 1, finding: Finding::Unparsable(String::from("no")) }]
    );
    let failed = driver.clone();
    driver.step(&Scan::Absent);
    assert_eq!(driver, failed);
}

#[test]
fn a_driver_that_finds_nothing_has_not_modified() {
    let mut driver = Driver::new(String::from("fn f() {}\n"), 0);
    driver.step(&Scan::Absent);
    assert_eq!(driver.state, State::Done);
    assert!(!driver.modified);
    assert_eq!(driver.contents, "fn f() {}\n");
    assert!(driver.diagnostics.is_empty());
}

/// Finds the one-line invocation where the text is exactly that.
fn locate_one_line(text: &str) -> Scan {
    if text == ONE_LINE {
        Scan::Found { site: one_line_site(), clauses: one_line_clauses() }
    } else {
        Scan::Absent
    }
}

#[test]
fn modify_passes_until_nothing_is_found() {
    let mut contents = String::from(ONE_LINE);
    let mut diagnostics = Vec::new();
    assert!(modify(&mut contents, 4, locate_one_line, &mut diagnostics));
    assert_eq!(contents, "if a && b { c }");
    assert!(diagnostics.is_empty());
    assert!(!modify(&mut contents, 4, locate_one_line, &mut diagnostics));
    assert_eq!(contents, "if a && b { c }");
    assert!(diagnostics.is_empty());
}

#[test]
fn modify_leaves_a_text_without_invocation_alone() {
    let mut contents = String::from("fn f() {}\n");
    let mut diagnostics = Vec::new();
    assert!(!modify(&mut contents, 4, |_: &str| Scan::Absent, &mut diagnostics));
    assert_eq!(contents, "fn f() {}\n");
    assert!(diagnostics.is_empty());
}

#[test]
fn modify_stops_at_the_first_failure() {
    let mut contents = String::from("fn f( {");
    let mut diagnostics = Vec::new();
    let locate = |_: &str| Scan::Unparsable { line: 1, message: String::from("expected `)`") };
    assert!(!modify(&mut contents, 4, locate, &mut diagnostics));
    assert_eq!(contents, "fn f( {");
    assert_eq!(
        diagnostics,
        vec![Diagnostic { line: 1, finding: Finding::Unparsable(String::from("expected `)`")) }]
    );
}

#[test]
fn modify_ends_even_where_the_locator_repeats_itself() {
    let mut contents = String::from(ONE_LINE);
    let mut diagnostics = Vec::new();
    let calls = std::cell::Cell::new(0);
    let locate = |_: &str| {
        calls.set(calls.get() + 1);
        Scan::Found { site: one_line_site(), clauses: one_line_clauses() }
    };
    assert!(modify(&mut contents, 4, locate, &mut diagnostics));
    assert_eq!(contents, "if a && b { c }");
    assert_eq!(calls.get(), 2);
    assert_eq!(
        diagnostics,
        vec![Diagnostic { line: 1, finding: Finding::Span(SpanError { at: at(1, 16) }) }]
    );
}

#[test]
fn only_one_name_is_reserved() {
    assert!(is_reserved("if_chain"));
    assert!(!is_reserved("if_chains"));
    assert!(!is_reserved("if_chai"));
    assert!(!is_reserved("IF_CHAIN"));
    assert!(!is_reserved(""));
}

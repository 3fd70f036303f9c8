//! The grammar of an invocation's body: one or more conditions, the
//! consequence, and at most one alternative behind it.

use vstd::prelude::*;
use vstd::string::*;
use crate::chain::{
    ChainView, Else, ExprForm, IfChain, IfExpr, Local, Position, Span, Statement, Then,
};

verus! {

/// The name by which the macro is invoked: the last segment of the path in
/// front of the `!`.
pub open spec fn reserved_name() -> Seq<char> {
    "if_chain"@
}

/// Whether a macro whose path ends in `name` is the one to rewrite.
pub fn is_reserved(name: &str) -> (reserved: bool)
    ensures
        reserved == (name@ == reserved_name()),
{
    String::from_str(name) == String::from_str("if_chain")
}

/// The expression that a binding is matched against.
#[derive(Clone, Copy, Debug, PartialEq, Eq, Structural)]
pub struct Init {
    /// Where the expression starts.
    pub at: Position,
    /// Its outermost form.
    pub form: ExprForm,
}

/// One item of an invocation's body, as a parser reads it off the tokens.
#[derive(Clone, Copy, Debug, PartialEq, Eq, Structural)]
pub enum Clause {
    /// `if`, an expression and `;`.
    Guard(IfExpr),
    /// A `let` statement, with or without an expression behind `=`.
    Binding { let_token: Position, init: Option<Init>, semi_token: Span },
    /// A word and a block.
    Then(Then),
    /// `else` and a block.
    Else(Else),
}

/// Why the items of a body are no chain.
#[derive(Clone, Copy, Debug, PartialEq, Eq, Structural)]
pub enum ShapeError {
    /// No consequence follows the conditions.
    MissingThen,
    /// The consequence comes first: there is nothing to test.
    NoConditions,
    /// The binding at `at` is matched against nothing.
    MissingInit { at: Position },
    /// The item at `at` stands where the body has to end.
    Unexpected { at: Position },
}

impl Clause {
    /// Where the item starts.
    pub open spec fn spec_start(&self) -> Position {
        match *self {
            Clause::Guard(guard) => guard.if_token,
            Clause::Binding { let_token, .. } => let_token,
            Clause::Then(consequence) => consequence.then_token,
            Clause::Else(alternative) => alternative.block.start,
        }
    }

    /// Where the item starts; for an alternative, where its block starts.
    #[verifier::when_used_as_spec(spec_start)]
    pub fn start(&self) -> (at: Position)
        ensures
            at == self.spec_start(),
    {
        match *self {
            Clause::Guard(guard) => guard.if_token,
            Clause::Binding { let_token, .. } => let_token,
            Clause::Then(consequence) => consequence.then_token,
            Clause::Else(alternative) => alternative.block.start,
        }
    }

    /// The condition that the item is, if it is one: a guard, or a binding
    /// that is matched against an expression.
    pub open spec fn spec_condition(&self) -> Option<Statement> {
        match *self {
            Clause::Guard(guard) => Some(Statement::IfExpr(guard)),
            Clause::Binding { let_token, init: Some(init), semi_token } => Some(
                Statement::Local(Local { let_token, init: init.at, form: init.form, semi_token }),
            ),
            _ => None,
        }
    }

    /// The condition that the item is, if it is one.
    #[verifier::when_used_as_spec(spec_condition)]
    pub fn condition(&self) -> (statement: Option<Statement>)
        ensures
            statement == self.spec_condition(),
    {
        match *self {
            Clause::Guard(guard) => Some(Statement::IfExpr(guard)),
            Clause::Binding { let_token, init: Some(init), semi_token } => Some(
                Statement::Local(Local { let_token, init: init.at, form: init.form, semi_token }),
            ),
            _ => None,
        }
    }
}

/// The index of the first item from `from` on that is no condition, or the
/// number of items if there is none.
pub open spec fn conditions_end(clauses: Seq<Clause>, from: int) -> int
    decreases clauses.len() - from,
{
    if 0 <= from < clauses.len() && clauses[from].condition() is Some {
        conditions_end(clauses, from + 1)
    } else {
        from
    }
}

/// What is wrong with the shape of `clauses`, if anything is: the conditions
/// come first, the consequence follows, and behind it stands the alternative
/// or nothing.
pub open spec fn shape_error(clauses: Seq<Clause>) -> Option<ShapeError> {
    let k = conditions_end(clauses, 0);
    if k >= clauses.len() {
        Some(ShapeError::MissingThen)
    } else {
        match clauses[k] {
            Clause::Binding { let_token, .. } => Some(ShapeError::MissingInit { at: let_token }),
            Clause::Then(_) => if k == 0 {
                Some(ShapeError::NoConditions)
            } else if clauses.len() == k + 1 {
                None
            } else if !(clauses[k + 1] is Else) {
                Some(ShapeError::Unexpected { at: clauses[k + 1].start() })
            } else if clauses.len() == k + 2 {
                None
            } else {
                Some(ShapeError::Unexpected { at: clauses[k + 2].start() })
            },
            _ => Some(ShapeError::MissingThen),
        }
    }
}

/// The chain that `clauses` make where their shape is right: the conditions
/// in their order, the consequence behind them, and the alternative if one
/// follows.
pub open spec fn assembled(clauses: Seq<Clause>) -> ChainView {
    let k = conditions_end(clauses, 0);
    ChainView {
        statements: Seq::new(k as nat, |i: int| clauses[i].condition()->0),
        then_clause: clauses[k]->Then_0,
        else_clause: if clauses.len() == k + 2 {
            Some(clauses[k + 1]->Else_0)
        } else {
            None
        },
    }
}

impl IfChain {
    /// Reads the items of a body as a chain, or says why they are none.
    pub fn assemble(clauses: &Vec<Clause>) -> (out: Result<IfChain, ShapeError>)
        ensures
            out is Ok <==> shape_error(clauses@) is None,
            out matches Ok(chain) ==> chain@ == assembled(clauses@) && chain.well_formed(),
            out matches Err(error) ==> shape_error(clauses@) == Some(error),
    {
        let mut statements: Vec<Statement> = Vec::new();
        let mut k: usize = 0;
        loop
            invariant
                k <= clauses@.len(),
                conditions_end(clauses@, k as int) == conditions_end(clauses@, 0),
                statements@.len() == k,
                forall|i: int| 0 <= i < k ==> clauses@[i].condition() == Some(#[trigger] statements@[i]),
            ensures
                k >= clauses@.len() || clauses@[k as int].condition() is None,
            decreases clauses@.len() - k,
        {
            if k >= clauses.len() {
                break ;
            }
            match clauses[k].condition() {
                Some(statement) => {
                    statements.push(statement);
                    k += 1;
                },
                None => {
                    break ;
                },
            }
        }
        assert(conditions_end(clauses@, 0) == k);
        if k >= clauses.len() {
            return Err(ShapeError::MissingThen);
        }
        match clauses[k] {
            Clause::Binding { let_token, .. } => Err(ShapeError::MissingInit { at: let_token }),
            Clause::Then(then_clause) => {
                if k == 0 {
                    Err(ShapeError::NoConditions)
                } else if clauses.len() == k + 1 {
                    assert(statements@ =~= assembled(clauses@).statements);
                    Ok(IfChain { statements, then_clause, else_clause: None })
                } else {
                    match clauses[k + 1] {
                        Clause::Else(alternative) => {
                            if clauses.len() == k + 2 {
                                assert(statements@ =~= assembled(clauses@).statements);
                                Ok(
                                    IfChain {
                                        statements,
                                        then_clause,
                                        else_clause: Some(alternative),
                                    },
                                )
                            } else {
                                Err(ShapeError::Unexpected { at: clauses[k + 2].start() })
                            }
                        },
                        _ => Err(ShapeError::Unexpected { at: clauses[k + 1].start() }),
                    }
                }
            },
            _ => Err(ShapeError::MissingThen),
        }
    }
}

} // verus!

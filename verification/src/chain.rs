//! The pieces of one invocation, as positions in the text that holds it.

use vstd::prelude::*;

verus! {

/// A place in a text: `line` counts from 1, `column` counts the characters
/// before the place on its line, from 0.
#[derive(Clone, Copy, Debug, PartialEq, Eq, Structural)]
pub struct Position {
    pub line: usize,
    pub column: usize,
}

/// A stretch of text from `start` up to, but without, `end`.
#[derive(Clone, Copy, Debug, PartialEq, Eq, Structural)]
pub struct Span {
    pub start: Position,
    pub end: Position,
}

/// The outermost form of a tested expression, as far as joining cares.
#[derive(Clone, Copy, Debug, PartialEq, Eq, Structural)]
pub enum ExprForm {
    /// A logical or of two operands.
    Or,
    /// A closure literal.
    Closure,
    /// Any other expression.
    Other,
}

impl ExprForm {
    /// Whether an expression of this form must be wrapped before it can be an
    /// operand of `&&`.
    pub open spec fn binds_loosely(self) -> bool {
        self == ExprForm::Or || self == ExprForm::Closure
    }

    /// Whether an expression of this form must be wrapped before it can be an
    /// operand of `&&`: a logical or would take the neighbouring operand into
    /// its right side, and a closure would swallow everything after it.
    pub fn needs_parens(self) -> (wrap: bool)
        ensures
            wrap == self.binds_loosely(),
    {
        match self {
            ExprForm::Or => true,
            ExprForm::Closure => true,
            ExprForm::Other => false,
        }
    }
}

/// A guard: `if`, a boolean expression and `;`.
#[derive(Clone, Copy, Debug, PartialEq, Eq, Structural)]
pub struct IfExpr {
    /// Where the keyword `if` starts.
    pub if_token: Position,
    /// Where the expression starts.
    pub expr: Position,
    /// The expression's outermost form.
    pub form: ExprForm,
    /// The closing `;`.
    pub semi_token: Span,
}

/// A binding: `let`, a pattern, `=`, the expression it is matched against
/// and `;`.
#[derive(Clone, Copy, Debug, PartialEq, Eq, Structural)]
pub struct Local {
    /// Where the keyword `let` starts.
    pub let_token: Position,
    /// Where the expression after `=` starts.
    pub init: Position,
    /// That expression's outermost form.
    pub form: ExprForm,
    /// The closing `;`.
    pub semi_token: Span,
}

/// One condition of a chain.
#[derive(Clone, Copy, Debug, PartialEq, Eq, Structural)]
pub enum Statement {
    IfExpr(IfExpr),
    Local(Local),
}

impl Statement {
    pub open spec fn spec_start(&self) -> Position {
        match self {
            Statement::IfExpr(guard) => guard.if_token,
            Statement::Local(binding) => binding.let_token,
        }
    }

    pub open spec fn spec_start_after_if(&self) -> Position {
        match self {
            Statement::IfExpr(guard) => guard.expr,
            Statement::Local(binding) => binding.let_token,
        }
    }

    pub open spec fn spec_semi(&self) -> Span {
        match self {
            Statement::IfExpr(guard) => guard.semi_token,
            Statement::Local(binding) => binding.semi_token,
        }
    }

    pub open spec fn spec_expr(&self) -> Position {
        match self {
            Statement::IfExpr(guard) => guard.expr,
            Statement::Local(binding) => binding.init,
        }
    }

    pub open spec fn spec_form(&self) -> ExprForm {
        match self {
            Statement::IfExpr(guard) => guard.form,
            Statement::Local(binding) => binding.form,
        }
    }

    pub open spec fn is_binding(self) -> bool {
        self is Local
    }

    /// Where the condition starts: at its `if`, or at its `let`.
    #[verifier::when_used_as_spec(spec_start)]
    pub fn start(&self) -> (at: Position)
        ensures
            at == self.spec_start(),
    {
        match self {
            Statement::IfExpr(guard) => guard.if_token,
            Statement::Local(binding) => binding.let_token,
        }
    }

    /// Where the part starts that stays when a leading `if` is dropped: the
    /// guard's expression, or the binding's `let`.
    #[verifier::when_used_as_spec(spec_start_after_if)]
    pub fn start_after_if(&self) -> (at: Position)
        ensures
            at == self.spec_start_after_if(),
    {
        match self {
            Statement::IfExpr(guard) => guard.expr,
            Statement::Local(binding) => binding.let_token,
        }
    }

    /// The closing `;`.
    #[verifier::when_used_as_spec(spec_semi)]
    pub fn semi(&self) -> (at: Span)
        ensures
            at == self.spec_semi(),
    {
        match self {
            Statement::IfExpr(guard) => guard.semi_token,
            Statement::Local(binding) => binding.semi_token,
        }
    }

    /// Where the tested expression starts: the guard's expression, or what
    /// the binding's pattern is matched against.
    #[verifier::when_used_as_spec(spec_expr)]
    pub fn expr(&self) -> (at: Position)
        ensures
            at == self.spec_expr(),
    {
        match self {
            Statement::IfExpr(guard) => guard.expr,
            Statement::Local(binding) => binding.init,
        }
    }

    /// The outermost form of the tested expression.
    #[verifier::when_used_as_spec(spec_form)]
    pub fn form(&self) -> (form: ExprForm)
        ensures
            form == self.spec_form(),
    {
        match self {
            Statement::IfExpr(guard) => guard.form,
            Statement::Local(binding) => binding.form,
        }
    }
}

/// The clause that runs when every condition holds: the word that introduces
/// it and its block, braces and all.
#[derive(Clone, Copy, Debug, PartialEq, Eq, Structural)]
pub struct Then {
    pub then_token: Position,
    pub block: Span,
}

/// The clause that runs when a condition fails: its block, braces and all.
#[derive(Clone, Copy, Debug, PartialEq, Eq, Structural)]
pub struct Else {
    pub block: Span,
}

/// One invocation's body: conditions in the order in which they are tested,
/// the consequence, and an alternative if there is one.
#[derive(Clone, Debug, PartialEq, Eq)]
pub struct IfChain {
    pub statements: Vec<Statement>,
    pub then_clause: Then,
    pub else_clause: Option<Else>,
}

/// A chain as a value: what [`IfChain`] holds, the conditions as a sequence.
pub struct ChainView {
    pub statements: Seq<Statement>,
    pub then_clause: Then,
    pub else_clause: Option<Else>,
}

impl ChainView {
    /// A chain tests at least one condition.
    pub open spec fn well_formed(self) -> bool {
        self.statements.len() > 0
    }

    /// Where the chain's text ends: behind the closing brace of its last block.
    pub open spec fn end(self) -> Position {
        match self.else_clause {
            Some(alternative) => alternative.block.end,
            None => self.then_clause.block.end,
        }
    }
}

impl View for IfChain {
    type V = ChainView;

    open spec fn view(&self) -> ChainView {
        ChainView {
            statements: self.statements@,
            then_clause: self.then_clause,
            else_clause: self.else_clause,
        }
    }
}

impl IfChain {
    /// A chain tests at least one condition.
    pub open spec fn well_formed(&self) -> bool {
        self@.well_formed()
    }

    pub open spec fn spec_end(&self) -> Position {
        match self.else_clause {
            Some(alternative) => alternative.block.end,
            None => self.then_clause.block.end,
        }
    }

    /// Where the chain's text ends: behind the closing brace of its last block.
    #[verifier::when_used_as_spec(spec_end)]
    pub fn end(&self) -> (at: Position)
        ensures
            at == self.spec_end(),
    {
        match &self.else_clause {
            Some(alternative) => alternative.block.end,
            None => self.then_clause.block.end,
        }
    }
}

/// Where an invocation stands: from the first character of the macro's path
/// to behind its closing delimiter, and the place of the `!` between.
#[derive(Clone, Copy, Debug, PartialEq, Eq, Structural)]
pub struct Site {
    pub span: Span,
    pub bang_token: Position,
}

} // verus!

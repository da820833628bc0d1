//! The evaluator: reduces the tree to an integer, statement by statement.
//!
//! Arithmetic wraps around in 64 bits. What cannot be evaluated (an error
//! node, a variable without a binding, a division by zero) ends the
//! evaluation with a failure that is kept; no value stands in for it.

use vstd::prelude::*;
use vstd::hash_map::StringHashMap;
use crate::ast::lexer::TextSpan;
use crate::ast::{
    program_effect, ASTBinaryExpression, ASTBinaryOperatorKind, ASTExpression,
    ASTExpressionKind, ASTLetStatement, ASTNumberExpression, ASTParenthesizedExpression,
    ASTStatement, ASTStatementKind, ASTVariableExpression, ASTVisitor, Ast, ExprView, StmtView,
};

verus! {

/// Why an evaluation ended without a value.
#[derive(Debug, Clone, Copy, PartialEq, Eq, Structural)]
pub enum EvalError {
    /// The tree holds an error node.
    ErrorNode,
    /// A variable was read that no `let` had bound.
    UnboundVariable,
    /// The right operand of a division was zero.
    DivisionByZero,
}

/// The quotient of `left` by `right`, rounded toward zero.
pub open spec fn truncated_quotient(left: int, right: int) -> int
    recommends
        right != 0,
{
    let magnitude = (if left >= 0 {
        left
    } else {
        -left
    }) / (if right >= 0 {
        right
    } else {
        -right
    });
    if (left >= 0) == (right >= 0) {
        magnitude
    } else {
        -magnitude
    }
}

/// The quotient in 64 bits. The one quotient that does not fit, that of the
/// least integer by -1, wraps around to the least integer.
pub open spec fn wrapping_quotient(left: i64, right: i64) -> i64
    recommends
        right != 0,
{
    if truncated_quotient(left as int, right as int) > i64::MAX {
        i64::MIN
    } else {
        truncated_quotient(left as int, right as int) as i64
    }
}

/// What `kind` makes of two operand values.
pub open spec fn apply_operator(kind: ASTBinaryOperatorKind, left: i64, right: i64) -> Result<
    i64,
    EvalError,
> {
    match kind {
        ASTBinaryOperatorKind::Add => Ok(left.wrapping_add(right)),
        ASTBinaryOperatorKind::Subtract => Ok(left.wrapping_sub(right)),
        ASTBinaryOperatorKind::Multiply => Ok(left.wrapping_mul(right)),
        ASTBinaryOperatorKind::Divide => {
            if right == 0 {
                Err(EvalError::DivisionByZero)
            } else {
                Ok(wrapping_quotient(left, right))
            }
        },
    }
}

/// The value of `expression` under the bindings `variables`. The left
/// operand is evaluated before the right one, and the first failure is the
/// result.
pub open spec fn value_of(expression: ExprView, variables: Map<Seq<char>, i64>) -> Result<
    i64,
    EvalError,
>
    decreases expression,
{
    match expression {
        ExprView::Number(number) => Ok(number),
        ExprView::Binary { operator, left, right } => match value_of(*left, variables) {
            Err(error) => Err(error),
            Ok(left_value) => match value_of(*right, variables) {
                Err(error) => Err(error),
                Ok(right_value) => apply_operator(operator.kind, left_value, right_value),
            },
        },
        ExprView::Parenthesized(inner) => value_of(*inner, variables),
        ExprView::Variable(identifier) => {
            if variables.contains_key(identifier.span.literal) {
                Ok(variables[identifier.span.literal])
            } else {
                Err(EvalError::UnboundVariable)
            }
        },
        ExprView::Error(_) => Err(EvalError::ErrorNode),
    }
}

/// The mathematical content of an [`ASTEvaluator`].
pub struct EvalState {
    pub last_value: Option<i64>,
    pub variables: Map<Seq<char>, i64>,
    pub failure: Option<EvalError>,
}

impl EvalState {
    /// The state before anything is evaluated.
    pub open spec fn initial() -> EvalState {
        EvalState { last_value: None, variables: Map::empty(), failure: None }
    }

    /// The state in which an evaluation ends that fails with `error`.
    pub open spec fn failed(self, error: EvalError) -> EvalState {
        EvalState { last_value: None, variables: self.variables, failure: Some(error) }
    }

    /// The state after `expression` is visited. After a failure nothing
    /// changes any more.
    pub open spec fn after_expression(self, expression: ExprView) -> EvalState {
        if self.failure is Some {
            self
        } else {
            match value_of(expression, self.variables) {
                Ok(value) => EvalState {
                    last_value: Some(value),
                    variables: self.variables,
                    failure: None,
                },
                Err(error) => self.failed(error),
            }
        }
    }

    /// The state after `statement` is visited. A `let` binds the name to the
    /// value of the initializer, in place of any earlier binding.
    pub open spec fn after_statement(self, statement: StmtView) -> EvalState {
        match statement {
            StmtView::Expression(expression) => self.after_expression(expression),
            StmtView::Let { identifier, initializer } => {
                if self.failure is Some {
                    self
                } else {
                    match value_of(initializer, self.variables) {
                        Ok(value) => EvalState {
                            last_value: Some(value),
                            variables: self.variables.insert(identifier.span.literal, value),
                            failure: None,
                        },
                        Err(error) => self.failed(error),
                    }
                }
            },
        }
    }

    /// The state after `statements` are visited in order.
    pub open spec fn after_program(self, statements: Seq<StmtView>) -> EvalState
        decreases statements.len(),
    {
        if statements.len() == 0 {
            self
        } else {
            self.after_program(statements.drop_last()).after_statement(statements.last())
        }
    }

    /// What the evaluation has come to: the failure if there is one, else
    /// the value of the last statement, if there was a statement.
    pub open spec fn outcome(self) -> Result<Option<i64>, EvalError> {
        match self.failure {
            Some(error) => Err(error),
            None => Ok(self.last_value),
        }
    }
}

/// What `kind` makes of two operand values.
pub fn apply(kind: ASTBinaryOperatorKind, left: i64, right: i64) -> (result: Result<
    i64,
    EvalError,
>)
    ensures
        result == apply_operator(kind, left, right),
{
    match kind {
        ASTBinaryOperatorKind::Add => Ok(left.wrapping_add(right)),
        ASTBinaryOperatorKind::Subtract => Ok(left.wrapping_sub(right)),
        ASTBinaryOperatorKind::Multiply => Ok(left.wrapping_mul(right)),
        ASTBinaryOperatorKind::Divide => {
            if right == 0 {
                Err(EvalError::DivisionByZero)
            } else {
                match left.checked_div(right) {
                    Some(quotient) => Ok(quotient),
                    None => Ok(i64::MIN),
                }
            }
        },
    }
}

/// A consumer of the tree that evaluates it.
pub struct ASTEvaluator {
    /// The value of what was visited last, if it had one.
    pub last_value: Option<i64>,
    /// The bindings made so far.
    pub variables: StringHashMap<i64>,
    /// Why the evaluation has ended, if it has.
    pub failure: Option<EvalError>,
}

impl View for ASTEvaluator {
    type V = EvalState;

    open spec fn view(&self) -> EvalState {
        EvalState {
            last_value: self.last_value,
            variables: self.variables@,
            failure: self.failure,
        }
    }
}

impl ASTEvaluator {
    pub fn new() -> (evaluator: Self)
        ensures
            evaluator@ == EvalState::initial(),
    {
        Self { last_value: None, variables: StringHashMap::new(), failure: None }
    }

    /// The value bound to `name`, if there is one.
    pub fn lookup(&self, name: &str) -> (value: Option<i64>)
        ensures
            value == if self@.variables.contains_key(name@) {
                Some(self@.variables[name@])
            } else {
                None
            },
    {
        match self.variables.get(name) {
            Some(value) => Some(*value),
            None => None,
        }
    }

    /// What the evaluation has come to.
    pub fn outcome(&self) -> (outcome: Result<Option<i64>, EvalError>)
        ensures
            outcome == self@.outcome(),
    {
        match self.failure {
            Some(error) => Err(error),
            None => Ok(self.last_value),
        }
    }

    /// Ends the evaluation with `error`.
    fn fail(&mut self, error: EvalError)
        ensures
            final(self)@ == old(self)@.failed(error),
    {
        self.last_value = None;
        self.failure = Some(error);
    }
}

impl ASTVisitor for ASTEvaluator {
    open spec fn expression_effect(&self, expression: ExprView, after: &Self) -> bool {
        after@ == self@.after_expression(expression)
    }

    open spec fn statement_effect(&self, statement: StmtView, after: &Self) -> bool {
        after@ == self@.after_statement(statement)
    }

    fn do_visit_statement(&mut self, stmt: &ASTStatement) {
        match &stmt.kind {
            ASTStatementKind::Expression(expr) => {
                self.visit_expression(expr);
            },
            ASTStatementKind::LetStatement(expr) => {
                self.visit_let_statement(expr);
            },
        }
    }

    fn visit_let_statement(&mut self, let_statement: &ASTLetStatement) {
        if self.failure.is_some() {
            return ;
        }
        self.visit_expression(&let_statement.initializer);
        match self.last_value {
            Some(value) => {
                self.variables.insert(let_statement.identifier.span.literal.clone(), value);
            },
            None => {},
        }
    }

    fn visit_statement(&mut self, stmt: &ASTStatement) {
        self.do_visit_statement(stmt)
    }

    fn do_visit_expression(&mut self, expr: &ASTExpression)
        decreases expr, 0nat,
    {
        match &expr.kind {
            ASTExpressionKind::Number(number) => self.visit_number_expression(number),
            ASTExpressionKind::Binary(expr) => self.visit_binary_expression(expr),
            ASTExpressionKind::Parenthesized(expr) => self.visit_parenthesized_expression(expr),
            ASTExpressionKind::Variable(expr) => self.visit_variable_expression(expr),
            ASTExpressionKind::Error(span) => self.visit_error(span),
        }
    }

    fn visit_expression(&mut self, expr: &ASTExpression)
        decreases expr, 1nat,
    {
        self.do_visit_expression(expr)
    }

    fn visit_binary_expression(&mut self, binary_expr: &ASTBinaryExpression)
        decreases binary_expr, 0nat,
    {
        if self.failure.is_some() {
            return ;
        }
        self.visit_expression(&binary_expr.left);
        let left = match self.last_value {
            Some(value) => value,
            None => {
                return ;
            },
        };
        self.visit_expression(&binary_expr.right);
        let right = match self.last_value {
            Some(value) => value,
            None => {
                return ;
            },
        };
        match apply(binary_expr.operator.kind, left, right) {
            Ok(value) => {
                self.last_value = Some(value);
            },
            Err(error) => self.fail(error),
        }
    }

    fn visit_parenthesized_expression(&mut self, expr: &ASTParenthesizedExpression)
        decreases expr, 0nat,
    {
        self.do_visit_expression(&expr.expression)
    }

    fn visit_error(&mut self, span: &TextSpan) {
        if self.failure.is_some() {
            return ;
        }
        self.fail(EvalError::ErrorNode)
    }

    fn visit_number_expression(&mut self, number: &ASTNumberExpression) {
        if self.failure.is_some() {
            return ;
        }
        self.last_value = Some(number.number);
    }

    fn visit_variable_expression(&mut self, variable_expression: &ASTVariableExpression) {
        if self.failure.is_some() {
            return ;
        }
        match self.variables.get(variable_expression.identifier()) {
            Some(value) => {
                self.last_value = Some(*value);
            },
            None => self.fail(EvalError::UnboundVariable),
        }
    }
}

/// Visiting a program with an evaluator leaves it in the state that the
/// statements lead to one after the other.
pub proof fn lemma_program_effect(
    before: &ASTEvaluator,
    statements: Seq<StmtView>,
    after: &ASTEvaluator,
)
    requires
        program_effect(before, statements, after),
    ensures
        after@ == before@.after_program(statements),
    decreases statements.len(),
{
    if statements.len() > 0 {
        let middle = choose|middle: ASTEvaluator|
            program_effect(before, statements.drop_last(), &middle)
                && #[trigger] middle.statement_effect(statements.last(), after);
        lemma_program_effect(before, statements.drop_last(), &middle);
    }
}

/// Evaluates `ast` from the initial state: the value of the last statement
/// (none for an empty program), or the first failure.
pub fn evaluate(ast: &Ast) -> (outcome: Result<Option<i64>, EvalError>)
    ensures
        outcome == EvalState::initial().after_program(ast@).outcome(),
{
    let mut evaluator = ASTEvaluator::new();
    let ghost before = evaluator;
    ast.visit(&mut evaluator);
    proof {
        lemma_program_effect(&before, ast@, &evaluator);
    }
    evaluator.outcome()
}

/// A division whose operands have values and whose right operand has the
/// value zero has no value: it fails, as a division by zero, whatever the
/// left operand is.
pub proof fn lemma_division_by_zero_fails(
    operator: crate::ast::OperatorView,
    left: ExprView,
    right: ExprView,
    variables: Map<Seq<char>, i64>,
)
    requires
        operator.kind == ASTBinaryOperatorKind::Divide,
        value_of(left, variables) is Ok,
        value_of(right, variables) == Ok::<i64, EvalError>(0),
    ensures
        value_of(
            ExprView::Binary { operator, left: Box::new(left), right: Box::new(right) },
            variables,
        ) == Err::<i64, EvalError>(EvalError::DivisionByZero),
{
}

/// An expression without an error node never fails for an error node.
pub proof fn lemma_error_free_value(expression: ExprView, variables: Map<Seq<char>, i64>)
    requires
        crate::ast::parser_laws::error_free(expression),
    ensures
        value_of(expression, variables) != Err::<i64, EvalError>(EvalError::ErrorNode),
    decreases expression,
{
    match expression {
        ExprView::Binary { operator, left, right } => {
            lemma_error_free_value(*left, variables);
            lemma_error_free_value(*right, variables);
        },
        ExprView::Parenthesized(inner) => {
            lemma_error_free_value(*inner, variables);
        },
        _ => {},
    }
}

/// A program without an error node never fails for an error node.
pub proof fn lemma_error_free_program(state: EvalState, statements: Seq<StmtView>)
    requires
        state.failure != Some(EvalError::ErrorNode),
        crate::ast::parser_laws::program_error_free(statements),
    ensures
        state.after_program(statements).failure != Some(EvalError::ErrorNode),
    decreases statements.len(),
{
    if statements.len() > 0 {
        lemma_error_free_program(state, statements.drop_last());
        let before = state.after_program(statements.drop_last());
        match statements.last() {
            StmtView::Expression(expression) => {
                lemma_error_free_value(expression, before.variables);
            },
            StmtView::Let { identifier, initializer } => {
                lemma_error_free_value(initializer, before.variables);
            },
        }
    }
}

} // verus!

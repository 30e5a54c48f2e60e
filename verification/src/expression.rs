//! The predicate language evaluated against rows: comparisons over typed
//! values and the logical connectives `and` / `or`.
//!
//! A comparison of an incomparable pair (differing variants, or anything
//! against null) yields `false`, never an error. A missing column or an
//! unparseable numeric literal is an error, and `and` / `or` propagate an
//! error from either operand instead of defaulting to `false`.
use crate::row::Row;
use crate::values::spec_parse_to_number;
use crate::values::spec_type_value_cmp;
use crate::values::spec_type_value_eq;
use crate::values::type_value_eq;
use crate::values::type_value_partial_cmp;
use crate::values::parse_number_literal;
use crate::values::StringTypeValue;
use crate::values::TypeValue;
use crate::values::ValueOrdering;
use vstd::prelude::*;

verus! {

/// A statement tree that cannot be turned into an expression.
#[derive(Debug, Clone, Copy, PartialEq, Eq, Structural)]
pub enum ExpressionConversionError {
    StandardError(),
}

/// Why evaluating an expression against a row failed.
#[derive(Debug, Clone, Copy, PartialEq, Eq, Structural)]
pub enum ExpressionEvaluationError {
    /// An identifier names a column the row does not have.
    MissingColumn,
    /// A numeric literal does not denote a representable number.
    LiteralParseError,
    /// The expression has a shape that cannot be evaluated.
    NotSupported,
}

/// A predicate tree: comparisons and logical connectives over literals
/// and column identifiers.
#[derive(Debug)]
pub enum Expression {
    BinaryOp(Box<Expression>, Box<Expression>, ExpressionBinaryOperator),
    Value(ExpressionValue),
    Identifier(ExpressionIdentifier),
}

/// A literal: the text of a number, or a quoted string.
#[derive(Debug)]
pub enum ExpressionValue {
    Number(String),
    String(String),
}

/// A column reference.
#[derive(Debug)]
pub struct ExpressionIdentifier {
    pub value: String,
}

#[derive(Debug, Clone, Copy, PartialEq, Eq, Structural)]
pub enum ExpressionBinaryOperator {
    Gt,
    Lt,
    GtEq,
    LtEq,
    Eq,
    NotEq,
    And,
    Or,
    Xor,
}

/// The value a literal denotes: a string as itself, a number by parsing
/// its text.
pub open spec fn spec_literal_value(v: ExpressionValue) -> Result<
    TypeValue,
    ExpressionEvaluationError,
> {
    match v {
        ExpressionValue::Number(s) => match spec_parse_to_number(s@) {
            Some(n) => Ok(TypeValue::NumberValueType(n)),
            None => Err(ExpressionEvaluationError::LiteralParseError),
        },
        ExpressionValue::String(s) => Ok(
            TypeValue::StringTypeValue(StringTypeValue { value: s }),
        ),
    }
}

/// What a leaf resolves to against a row: an identifier to the row's
/// value for that column, a literal to its own value.
pub open spec fn spec_resolve(e: Expression, row: Map<Seq<char>, TypeValue>) -> Result<
    TypeValue,
    ExpressionEvaluationError,
> {
    match e {
        Expression::Identifier(id) => if row.contains_key(id.value@) {
            Ok(row[id.value@])
        } else {
            Err(ExpressionEvaluationError::MissingColumn)
        },
        Expression::Value(v) => spec_literal_value(v),
        Expression::BinaryOp(_, _, _) => Err(ExpressionEvaluationError::NotSupported),
    }
}

/// What a comparison operator says of two values. An incomparable pair
/// is never less, greater, or equal, so every ordering query on it is
/// `false` and `!=` is `true` exactly on unequal values.
pub open spec fn spec_apply_op(op: ExpressionBinaryOperator, a: TypeValue, b: TypeValue) -> bool {
    match op {
        ExpressionBinaryOperator::Gt => spec_type_value_cmp(a, b) == Some(ValueOrdering::Greater),
        ExpressionBinaryOperator::Lt => spec_type_value_cmp(a, b) == Some(ValueOrdering::Less),
        ExpressionBinaryOperator::GtEq => spec_type_value_cmp(a, b) == Some(ValueOrdering::Greater)
            || spec_type_value_cmp(a, b) == Some(ValueOrdering::Equal),
        ExpressionBinaryOperator::LtEq => spec_type_value_cmp(a, b) == Some(ValueOrdering::Less)
            || spec_type_value_cmp(a, b) == Some(ValueOrdering::Equal),
        ExpressionBinaryOperator::Eq => spec_type_value_eq(a, b),
        ExpressionBinaryOperator::NotEq => !spec_type_value_eq(a, b),
        _ => false,
    }
}

/// A comparison's outcome: both operands resolve and the operator is
/// applied; a failing operand fails the comparison, the left one first.
pub open spec fn spec_compare(
    l: Expression,
    r: Expression,
    op: ExpressionBinaryOperator,
    row: Map<Seq<char>, TypeValue>,
) -> Result<bool, ExpressionEvaluationError> {
    match (spec_resolve(l, row), spec_resolve(r, row)) {
        (Ok(a), Ok(b)) => Ok(spec_apply_op(op, a, b)),
        (Err(e1), _) => Err(e1),
        (_, Err(e2)) => Err(e2),
    }
}

/// What evaluating a predicate against a row yields. Both operands of
/// `and` / `or` are always evaluated; an error in either propagates, the
/// left one first.
pub open spec fn spec_evaluate(e: Expression, row: Map<Seq<char>, TypeValue>) -> Result<
    bool,
    ExpressionEvaluationError,
>
    decreases e,
{
    match e {
        Expression::BinaryOp(l, r, op) => match op {
            ExpressionBinaryOperator::And => match (
                spec_evaluate(*l, row),
                spec_evaluate(*r, row),
            ) {
                (Ok(a), Ok(b)) => Ok(a && b),
                (Err(e1), _) => Err(e1),
                (_, Err(e2)) => Err(e2),
            },
            ExpressionBinaryOperator::Or => match (
                spec_evaluate(*l, row),
                spec_evaluate(*r, row),
            ) {
                (Ok(a), Ok(b)) => Ok(a || b),
                (Err(e1), _) => Err(e1),
                (_, Err(e2)) => Err(e2),
            },
            ExpressionBinaryOperator::Xor => Err(ExpressionEvaluationError::NotSupported),
            _ => spec_compare(*l, *r, op, row),
        },
        _ => Err(ExpressionEvaluationError::NotSupported),
    }
}

impl ExpressionValue {
    /// The value this literal denotes.
    pub fn to_type_value(&self) -> (r: Result<TypeValue, ExpressionEvaluationError>)
        ensures
            r == spec_literal_value(*self),
    {
        match self {
            ExpressionValue::Number(s) => match parse_number_literal(s.as_str()) {
                Some(n) => Ok(TypeValue::NumberValueType(n)),
                None => Err(ExpressionEvaluationError::LiteralParseError),
            },
            ExpressionValue::String(s) => Ok(
                TypeValue::StringTypeValue(StringTypeValue { value: s.clone() }),
            ),
        }
    }
}

/// Resolves both operands against the row and applies a comparison
/// operator to them.
pub fn compare(
    left: &Expression,
    right: &Expression,
    op: ExpressionBinaryOperator,
    values: &Row,
) -> (r: Result<bool, ExpressionEvaluationError>)
    ensures
        r == spec_compare(*left, *right, op, values@),
{
    let lv = left.resolve(values);
    let rv = right.resolve(values);
    match (lv, rv) {
        (Ok(a), Ok(b)) => {
            let holds = match op {
                ExpressionBinaryOperator::Gt => match type_value_partial_cmp(&a, &b) {
                    Some(ValueOrdering::Greater) => true,
                    _ => false,
                },
                ExpressionBinaryOperator::Lt => match type_value_partial_cmp(&a, &b) {
                    Some(ValueOrdering::Less) => true,
                    _ => false,
                },
                ExpressionBinaryOperator::GtEq => match type_value_partial_cmp(&a, &b) {
                    Some(ValueOrdering::Greater) => true,
                    Some(ValueOrdering::Equal) => true,
                    _ => false,
                },
                ExpressionBinaryOperator::LtEq => match type_value_partial_cmp(&a, &b) {
                    Some(ValueOrdering::Less) => true,
                    Some(ValueOrdering::Equal) => true,
                    _ => false,
                },
                ExpressionBinaryOperator::Eq => type_value_eq(&a, &b),
                ExpressionBinaryOperator::NotEq => !type_value_eq(&a, &b),
                _ => false,
            };
            Ok(holds)
        },
        (Err(e1), _) => Err(e1),
        (_, Err(e2)) => Err(e2),
    }
}

impl Expression {
    /// Resolves this leaf against a row.
    pub fn resolve(&self, values: &Row) -> (r: Result<TypeValue, ExpressionEvaluationError>)
        ensures
            r == spec_resolve(*self, values@),
    {
        match self {
            Expression::Identifier(id) => match values.get(&id.value) {
                Some(v) => Ok(v),
                None => Err(ExpressionEvaluationError::MissingColumn),
            },
            Expression::Value(v) => v.to_type_value(),
            Expression::BinaryOp(_, _, _) => Err(ExpressionEvaluationError::NotSupported),
        }
    }

    /// Evaluates this predicate against a row.
    pub fn evaluate(&self, values: &Row) -> (r: Result<bool, ExpressionEvaluationError>)
        ensures
            r == spec_evaluate(*self, values@),
        decreases *self,
    {
        match self {
            Expression::BinaryOp(l, r, op) => match op {
                ExpressionBinaryOperator::And => {
                    let lv = l.evaluate(values);
                    let rv = r.evaluate(values);
                    match (lv, rv) {
                        (Ok(a), Ok(b)) => Ok(a && b),
                        (Err(e1), _) => Err(e1),
                        (_, Err(e2)) => Err(e2),
                    }
                },
                ExpressionBinaryOperator::Or => {
                    let lv = l.evaluate(values);
                    let rv = r.evaluate(values);
                    match (lv, rv) {
                        (Ok(a), Ok(b)) => Ok(a || b),
                        (Err(e1), _) => Err(e1),
                        (_, Err(e2)) => Err(e2),
                    }
                },
                ExpressionBinaryOperator::Xor => Err(ExpressionEvaluationError::NotSupported),
                _ => compare(l, r, *op, values),
            },
            _ => Err(ExpressionEvaluationError::NotSupported),
        }
    }
}

/// The column names an expression mentions.
pub open spec fn expr_idents(e: Expression) -> Set<Seq<char>>
    decreases e,
{
    match e {
        Expression::BinaryOp(l, r, _) => expr_idents(*l).union(expr_idents(*r)),
        Expression::Identifier(id) => set![id.value@],
        Expression::Value(_) => Set::empty(),
    }
}

/// Whether every numeric literal in an expression denotes a number.
pub open spec fn expr_literals_ok(e: Expression) -> bool
    decreases e,
{
    match e {
        Expression::BinaryOp(l, r, _) => expr_literals_ok(*l) && expr_literals_ok(*r),
        Expression::Value(v) => spec_literal_value(v) is Ok,
        Expression::Identifier(_) => true,
    }
}

pub open spec fn is_leaf(e: Expression) -> bool {
    match e {
        Expression::Value(_) => true,
        Expression::Identifier(_) => true,
        _ => false,
    }
}

/// Whether an expression has an evaluable shape: connectives over
/// comparisons whose operands are leaves, with no `xor`.
pub open spec fn expr_well_formed(e: Expression) -> bool
    decreases e,
{
    match e {
        Expression::BinaryOp(l, r, op) => match op {
            ExpressionBinaryOperator::And => expr_well_formed(*l) && expr_well_formed(*r),
            ExpressionBinaryOperator::Or => expr_well_formed(*l) && expr_well_formed(*r),
            ExpressionBinaryOperator::Xor => false,
            _ => is_leaf(*l) && is_leaf(*r),
        },
        _ => false,
    }
}

/// Evaluation is a function of the expression and the row alone: two
/// results of evaluating the same expression against the same row are
/// the same, error or not.
pub proof fn lemma_evaluate_deterministic(
    e: Expression,
    row: Map<Seq<char>, TypeValue>,
    r1: Result<bool, ExpressionEvaluationError>,
    r2: Result<bool, ExpressionEvaluationError>,
)
    requires
        r1 == spec_evaluate(e, row),
        r2 == spec_evaluate(e, row),
    ensures
        r1 == r2,
{
}

/// A well-formed expression whose literals denote numbers and whose
/// identifiers the row all binds evaluates without error.
pub proof fn lemma_evaluate_total(e: Expression, row: Map<Seq<char>, TypeValue>)
    requires
        expr_well_formed(e),
        expr_literals_ok(e),
        expr_idents(e).subset_of(row.dom()),
    ensures
        spec_evaluate(e, row) is Ok,
    decreases e,
{
    match e {
        Expression::BinaryOp(l, r, op) => {
            match op {
                ExpressionBinaryOperator::And | ExpressionBinaryOperator::Or => {
                    assert(expr_idents(*l).subset_of(row.dom()));
                    assert(expr_idents(*r).subset_of(row.dom()));
                    lemma_evaluate_total(*l, row);
                    lemma_evaluate_total(*r, row);
                },
                _ => {
                    assert(spec_resolve(*l, row) is Ok) by {
                        lemma_resolve_total(*l, row);
                    }
                    assert(spec_resolve(*r, row) is Ok) by {
                        lemma_resolve_total(*r, row);
                    }
                },
            }
        },
        _ => {},
    }
}

/// A leaf whose literal denotes a number and whose identifier the row
/// binds resolves without error.
proof fn lemma_resolve_total(e: Expression, row: Map<Seq<char>, TypeValue>)
    requires
        is_leaf(e),
        expr_literals_ok(e),
        expr_idents(e).subset_of(row.dom()),
    ensures
        spec_resolve(e, row) is Ok,
{
    match e {
        Expression::Identifier(id) => {
            assert(expr_idents(e).contains(id.value@));
        },
        _ => {},
    }
}

/// A failing operand fails `and` and `or`: an evaluation error in either
/// side of a logical connective propagates, it is never turned into
/// `false`.
pub proof fn lemma_logical_error_propagates(e: Expression, row: Map<Seq<char>, TypeValue>)
    requires
        e matches Expression::BinaryOp(l, r, op) && (op == ExpressionBinaryOperator::And || op
            == ExpressionBinaryOperator::Or) && (spec_evaluate(*l, row) is Err || spec_evaluate(
            *r,
            row,
        ) is Err),
    ensures
        spec_evaluate(e, row) is Err,
{
}

} // verus!

use turnip_rs::expression::compare;
use turnip_rs::expression::Expression;
use turnip_rs::expression::ExpressionBinaryOperator;
use turnip_rs::expression::ExpressionEvaluationError;
use turnip_rs::expression::ExpressionIdentifier;
use turnip_rs::expression::ExpressionValue;
use turnip_rs::row::Row;
use turnip_rs::values::NumberValueType;
use turnip_rs::values::TypeValue;

fn num(n: u64) -> TypeValue {
    TypeValue::NumberValueType(NumberValueType::from_u64(n))
}

fn ident(name: &str) -> Expression {
    Expression::Identifier(ExpressionIdentifier { value: name.to_string() })
}

fn numlit(text: &str) -> Expression {
    Expression::Value(ExpressionValue::Number(text.to_string()))
}

fn binop(l: Expression, r: Expression, op: ExpressionBinaryOperator) -> Expression {
    Expression::BinaryOp(Box::new(l), Box::new(r), op)
}

/// `x = 1 and u = 2 and y = 3`, grouped as the parser groups it:
/// `(x = 1 and u = 2) and (y = <last>)`.
fn customer_constraint(last_op: ExpressionBinaryOperator, last_value: &str) -> Expression {
    binop(
        binop(
            binop(ident("x"), numlit("1"), ExpressionBinaryOperator::Eq),
            binop(ident("u"), numlit("2"), ExpressionBinaryOperator::Eq),
            ExpressionBinaryOperator::And,
        ),
        binop(ident("y"), numlit(last_value), last_op),
        ExpressionBinaryOperator::And,
    )
}

#[test]
fn evaluate_statement() {
    let constraint = customer_constraint(ExpressionBinaryOperator::Eq, "3");
    let mut values = Row::new();
    values.set("x".to_string(), num(1));
    values.set("u".to_string(), num(2));
    values.set("y".to_string(), num(3));
    assert_eq!(constraint.evaluate(&values), Ok(true));
}

#[test]
fn evaluate_statement_false() {
    // The row lacks `y`, so the inner comparison fails with a missing
    // column, and `and` propagates the failure instead of yielding false.
    let constraint = customer_constraint(ExpressionBinaryOperator::Eq, "3");
    let mut values = Row::new();
    values.set("x".to_string(), num(1));
    values.set("u".to_string(), num(2));
    assert_eq!(
        constraint.evaluate(&values),
        Err(ExpressionEvaluationError::MissingColumn)
    );
}

#[test]
fn evaluate_statement_comparison() {
    let constraint = customer_constraint(ExpressionBinaryOperator::Gt, "3");
    let mut values = Row::new();
    values.set("x".to_string(), num(1));
    values.set("u".to_string(), num(2));
    values.set("y".to_string(), num(4));
    assert_eq!(constraint.evaluate(&values), Ok(true));
}

#[test]
fn evaluate_statement_comparison_false() {
    let constraint = customer_constraint(ExpressionBinaryOperator::Gt, "3");
    let mut values = Row::new();
    values.set("x".to_string(), num(1));
    values.set("u".to_string(), num(2));
    values.set("y".to_string(), num(2));
    assert_eq!(constraint.evaluate(&values), Ok(false));
}

#[test]
fn and_propagates_left_error() {
    let e = binop(
        binop(ident("missing"), numlit("1"), ExpressionBinaryOperator::Eq),
        binop(ident("x"), numlit("1"), ExpressionBinaryOperator::Eq),
        ExpressionBinaryOperator::And,
    );
    let mut values = Row::new();
    values.set("x".to_string(), num(1));
    assert_eq!(e.evaluate(&values), Err(ExpressionEvaluationError::MissingColumn));
}

#[test]
fn or_propagates_right_error() {
    let e = binop(
        binop(ident("x"), numlit("1"), ExpressionBinaryOperator::Eq),
        binop(ident("x"), numlit("oops"), ExpressionBinaryOperator::Eq),
        ExpressionBinaryOperator::Or,
    );
    let mut values = Row::new();
    values.set("x".to_string(), num(1));
    // the left side is already true, but both sides are evaluated and the
    // bad literal on the right fails the whole disjunction
    assert_eq!(e.evaluate(&values), Err(ExpressionEvaluationError::LiteralParseError));
}

#[test]
fn unparseable_literal_fails() {
    let e = binop(ident("x"), numlit("12a"), ExpressionBinaryOperator::Eq);
    let mut values = Row::new();
    values.set("x".to_string(), num(1));
    assert_eq!(e.evaluate(&values), Err(ExpressionEvaluationError::LiteralParseError));
}

#[test]
fn xor_is_not_supported() {
    let e = binop(
        binop(ident("x"), numlit("1"), ExpressionBinaryOperator::Eq),
        binop(ident("x"), numlit("1"), ExpressionBinaryOperator::Eq),
        ExpressionBinaryOperator::Xor,
    );
    let mut values = Row::new();
    values.set("x".to_string(), num(1));
    assert_eq!(e.evaluate(&values), Err(ExpressionEvaluationError::NotSupported));
}

#[test]
fn string_literal_comparisons() {
    let eq = binop(
        ident("name"),
        Expression::Value(ExpressionValue::String("bob".to_string())),
        ExpressionBinaryOperator::Eq,
    );
    let lt = binop(
        ident("name"),
        Expression::Value(ExpressionValue::String("carol".to_string())),
        ExpressionBinaryOperator::Lt,
    );
    let mut values = Row::new();
    values.set(
        "name".to_string(),
        TypeValue::StringTypeValue(turnip_rs::values::StringTypeValue {
            value: "bob".to_string(),
        }),
    );
    assert_eq!(eq.evaluate(&values), Ok(true));
    assert_eq!(lt.evaluate(&values), Ok(true));
}

#[test]
fn cross_variant_comparison_is_no_match_not_error() {
    // x holds a number; comparing it with a string literal is incomparable
    let mut values = Row::new();
    values.set("x".to_string(), num(1));
    let sval = Expression::Value(ExpressionValue::String("1".to_string()));
    assert_eq!(
        compare(&ident("x"), &sval, ExpressionBinaryOperator::Gt, &values),
        Ok(false)
    );
    assert_eq!(
        compare(&ident("x"), &sval, ExpressionBinaryOperator::LtEq, &values),
        Ok(false)
    );
    assert_eq!(
        compare(&ident("x"), &sval, ExpressionBinaryOperator::Eq, &values),
        Ok(false)
    );
    assert_eq!(
        compare(&ident("x"), &sval, ExpressionBinaryOperator::NotEq, &values),
        Ok(true)
    );
}

#[test]
fn null_equals_only_null_and_orders_with_nothing() {
    let mut values = Row::new();
    values.set("n".to_string(), TypeValue::NullValueType);
    values.set("x".to_string(), num(1));
    let null_ident = ident("n");
    assert_eq!(
        compare(&null_ident, &null_ident, ExpressionBinaryOperator::Eq, &values),
        Ok(true)
    );
    // even null against null has no order
    assert_eq!(
        compare(&null_ident, &null_ident, ExpressionBinaryOperator::GtEq, &values),
        Ok(false)
    );
    assert_eq!(
        compare(&ident("x"), &null_ident, ExpressionBinaryOperator::Eq, &values),
        Ok(false)
    );
    assert_eq!(
        compare(&ident("x"), &null_ident, ExpressionBinaryOperator::Lt, &values),
        Ok(false)
    );
}

#[test]
fn resolve_reads_the_row() {
    let mut values = Row::new();
    values.set("x".to_string(), num(5));
    assert_eq!(ident("x").resolve(&values), Ok(num(5)));
    assert_eq!(
        ident("y").resolve(&values),
        Err(ExpressionEvaluationError::MissingColumn)
    );
    assert_eq!(numlit("5").resolve(&values), Ok(num(5)));
}

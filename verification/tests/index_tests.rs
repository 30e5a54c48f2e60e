use turnip_rs::expression::Expression;
use turnip_rs::expression::ExpressionBinaryOperator;
use turnip_rs::expression::ExpressionIdentifier;
use turnip_rs::expression::ExpressionValue;
use turnip_rs::insert_query::InsertQuery;
use turnip_rs::select_index::SelectIndex;
use turnip_rs::select_query::SelectQuery;
use turnip_rs::select_query::SelectQueryError;
use turnip_rs::values::NumberValueType;
use turnip_rs::values::TypeValue;

fn num(n: u64) -> TypeValue {
    TypeValue::NumberValueType(NumberValueType::from_u64(n))
}

fn ident(name: &str) -> Expression {
    Expression::Identifier(ExpressionIdentifier { value: name.to_string() })
}

fn numlit(text: &str) -> Expression {
    Expression::Value(ExpressionValue::Number(text.to_string()))
}

fn binop(l: Expression, r: Expression, op: ExpressionBinaryOperator) -> Expression {
    Expression::BinaryOp(Box::new(l), Box::new(r), op)
}

fn eq(name: &str, value: &str) -> Expression {
    binop(ident(name), numlit(value), ExpressionBinaryOperator::Eq)
}

/// `x = 1 AND u = 2 AND y = 3`
fn customer_constraint() -> Expression {
    binop(
        binop(eq("x", "1"), eq("u", "2"), ExpressionBinaryOperator::And),
        eq("y", "3"),
        ExpressionBinaryOperator::And,
    )
}

fn customer_select(constraints: Option<Expression>) -> SelectQuery {
    SelectQuery::new(
        "customer_cache".to_string(),
        vec!["*".to_string()],
        "customer".to_string(),
        constraints,
    )
    .expect("valid select")
}

fn customer_insert(rows: Vec<Vec<Option<TypeValue>>>) -> InsertQuery {
    InsertQuery {
        table_name: "customer".to_string(),
        columns: vec!["x".to_string(), "u".to_string(), "y".to_string()],
        rows,
    }
}

#[test]
fn select_without_into_is_rejected() {
    let r = SelectQuery::new(
        "".to_string(),
        vec!["*".to_string()],
        "customer".to_string(),
        None,
    );
    assert_eq!(r.err(), Some(SelectQueryError::IsNoneError()));
}

#[test]
fn matching_insert_notifies_subscriber() {
    let mut index = SelectIndex::new();
    index.insert_select("A", customer_select(Some(customer_constraint())));

    let hit = customer_insert(vec![vec![Some(num(1)), Some(num(2)), Some(num(3))]]);
    let outcome = index.get_addr_for_insert(hit);
    assert_eq!(outcome.addresses, vec!["A".to_string()]);
    assert_eq!(outcome.skipped, 0);

    let miss = customer_insert(vec![vec![Some(num(1)), Some(num(2)), Some(num(4))]]);
    let outcome = index.get_addr_for_insert(miss);
    assert_eq!(outcome.addresses, Vec::<String>::new());
    assert_eq!(outcome.skipped, 0);
}

#[test]
fn no_registration_yields_empty_match() {
    let index = SelectIndex::new();
    let outcome =
        index.get_addr_for_insert(customer_insert(vec![vec![Some(num(1)), Some(num(2)), Some(
            num(3),
        )]]));
    assert_eq!(outcome.addresses, Vec::<String>::new());
    assert_eq!(outcome.skipped, 0);
}

#[test]
fn subscriber_reported_once_for_many_rows_and_duplicate_registrations() {
    let mut index = SelectIndex::new();
    // registered twice, both without constraints: every row matches both
    index.insert_select("A", customer_select(None));
    index.insert_select("A", customer_select(None));

    let insert = customer_insert(vec![
        vec![Some(num(1)), Some(num(2)), Some(num(3))],
        vec![Some(num(9)), Some(num(9)), Some(num(9))],
    ]);
    let outcome = index.get_addr_for_insert(insert);
    assert_eq!(outcome.addresses, vec!["A".to_string()]);
}

#[test]
fn distinct_subscribers_each_reported() {
    let mut index = SelectIndex::new();
    index.insert_select("A", customer_select(None));
    index.insert_select("B", customer_select(Some(customer_constraint())));

    let outcome =
        index.get_addr_for_insert(customer_insert(vec![vec![Some(num(1)), Some(num(2)), Some(
            num(3),
        )]]));
    assert_eq!(outcome.addresses, vec!["A".to_string(), "B".to_string()]);
}

#[test]
fn erroring_entry_is_skipped_and_counted_not_fatal() {
    let mut index = SelectIndex::new();
    // this entry's constraint names a column the insert does not carry
    index.insert_select("A", customer_select(Some(eq("absent", "1"))));
    index.insert_select("B", customer_select(None));

    let outcome =
        index.get_addr_for_insert(customer_insert(vec![vec![Some(num(1)), Some(num(2)), Some(
            num(3),
        )]]));
    // the bad entry matches nothing but does not abort the scan
    assert_eq!(outcome.addresses, vec!["B".to_string()]);
    assert_eq!(outcome.skipped, 1);
}

#[test]
fn registrations_are_kept_per_table() {
    let mut index = SelectIndex::new();
    let other = SelectQuery::new(
        "orders_cache".to_string(),
        vec!["*".to_string()],
        "orders".to_string(),
        None,
    )
    .expect("valid select");
    index.insert_select("A", other);

    // inserting into customer finds nothing registered for it
    let outcome =
        index.get_addr_for_insert(customer_insert(vec![vec![Some(num(1)), Some(num(2)), Some(
            num(3),
        )]]));
    assert_eq!(outcome.addresses, Vec::<String>::new());
}

use turnip_rs::db::convert_row_to_hashmap;
use turnip_rs::db::insert_rows_into_table;
use turnip_rs::db::Db;
use turnip_rs::insert_query::InsertQuery;
use turnip_rs::row::Row;
use turnip_rs::values::NumberValueType;
use turnip_rs::values::StringTypeValue;
use turnip_rs::values::TypeValue;

fn num(n: u64) -> TypeValue {
    TypeValue::NumberValueType(NumberValueType::from_u64(n))
}

fn text(s: &str) -> TypeValue {
    TypeValue::StringTypeValue(StringTypeValue { value: s.to_string() })
}

#[test]
fn insert_rows_into_table_test() {
    let mut table: Vec<Row> = vec![];
    let columns = vec![
        "id".to_string(),
        "first_name".to_string(),
        "last_name".to_string(),
    ];
    let rows = vec![vec![
        Some(num(1)),
        Some(text("Cameron")),
        Some(text("Harris")),
    ]];

    let result = insert_rows_into_table(&mut table, &columns, &rows);

    assert!(result.is_ok());
    assert_eq!(table.len(), 1);
    let row = &table[0];
    assert_eq!(row.get(&"id".to_string()), Some(num(1)));
    assert_eq!(row.get(&"first_name".to_string()), Some(text("Cameron")));
    assert_eq!(row.get(&"last_name".to_string()), Some(text("Harris")));
}

#[test]
fn convert_row_to_hashmap_test() {
    let columns = vec![
        "id".to_string(),
        "first_name".to_string(),
        "last_name".to_string(),
    ];
    let row = vec![
        Some(num(1)),
        Some(text("Cameron")),
        Some(text("Harris")),
    ];

    let result = convert_row_to_hashmap(&columns, &row);

    assert_eq!(result.get(&"id".to_string()), Some(num(1)));
    assert_eq!(result.get(&"first_name".to_string()), Some(text("Cameron")));
    assert_eq!(result.get(&"last_name".to_string()), Some(text("Harris")));
}

#[test]
fn convert_row_missing_value_is_absent_and_none_is_null() {
    let columns = vec!["a".to_string(), "b".to_string(), "c".to_string()];
    // b is explicitly null; c has no value at all
    let row = vec![Some(num(7)), None];

    let result = convert_row_to_hashmap(&columns, &row);

    assert_eq!(result.get(&"a".to_string()), Some(num(7)));
    assert_eq!(result.get(&"b".to_string()), Some(TypeValue::NullValueType));
    assert_eq!(result.get(&"c".to_string()), None);
}

#[test]
fn db_insert_creates_table_and_appends() {
    let mut db = Db::new();
    assert!(db.get_table(&"customer".to_string()).is_none());

    let q1 = InsertQuery {
        table_name: "customer".to_string(),
        columns: vec!["id".to_string()],
        rows: vec![vec![Some(num(1))], vec![Some(num(2))]],
    };
    assert!(db.insert(q1).is_ok());
    let t = db.get_table(&"customer".to_string()).expect("table created");
    assert_eq!(t.len(), 2);
    assert_eq!(t[0].get(&"id".to_string()), Some(num(1)));
    assert_eq!(t[1].get(&"id".to_string()), Some(num(2)));

    let q2 = InsertQuery {
        table_name: "customer".to_string(),
        columns: vec!["id".to_string()],
        rows: vec![vec![Some(num(3))]],
    };
    assert!(db.insert(q2).is_ok());
    let t2 = db.get_table(&"customer".to_string()).expect("table kept");
    assert_eq!(t2.len(), 3);
    assert_eq!(t2[2].get(&"id".to_string()), Some(num(3)));
}

#[test]
fn db_query_by_select_yields_nothing() {
    let q = turnip_rs::select_query::SelectQuery::new(
        "cache".to_string(),
        vec!["*".to_string()],
        "customer".to_string(),
        None,
    )
    .expect("valid select");
    assert_eq!(Db::query_data_by_select(q).len(), 0);
}

//! The in-memory store: a map from table name to an append-only sequence
//! of rows. A table is created implicitly by the first insert into it and
//! is never deleted; the insert path is the only mutation.
use crate::insert_query::InsertQuery;
use crate::row::Row;
use crate::select_query::SelectQuery;
use crate::string_map::StringMap;
use crate::values::TypeValue;
use vstd::prelude::*;

verus! {

#[derive(Debug, Clone, Copy, PartialEq, Eq, Structural)]
pub enum DatabaseError {
    InsertError(),
}

pub open spec fn val_or_null(o: Option<TypeValue>) -> TypeValue {
    match o {
        Some(v) => v,
        None => TypeValue::NullValueType,
    }
}

/// The row the first `n` columns and values build: each column bound to
/// its value, `None` bound as null, a repeated column keeping its last
/// binding.
pub open spec fn spec_row_of_n(
    cols: Seq<String>,
    vals: Seq<Option<TypeValue>>,
    n: int,
) -> Map<Seq<char>, TypeValue>
    decreases n,
{
    if n <= 0 {
        Map::empty()
    } else {
        spec_row_of_n(cols, vals, n - 1).insert(cols[n - 1]@, val_or_null(vals[n - 1]))
    }
}

/// The row a column list and a value list build, aligned by position;
/// positions past the shorter list are left out.
pub open spec fn spec_row_of(cols: Seq<String>, vals: Seq<Option<TypeValue>>) -> Map<
    Seq<char>,
    TypeValue,
> {
    spec_row_of_n(
        cols,
        vals,
        if cols.len() <= vals.len() {
            cols.len() as int
        } else {
            vals.len() as int
        },
    )
}

/// Builds a row by zipping column names with a value list; a missing
/// value means the column is absent, a `None` value means null.
pub fn convert_row_to_hashmap(columns: &Vec<String>, row: &Vec<Option<TypeValue>>) -> (r: Row)
    ensures
        r@ == spec_row_of(columns@, row@),
{
    let mut hmap = Row::new();
    let m = if columns.len() <= row.len() {
        columns.len()
    } else {
        row.len()
    };
    let mut i: usize = 0;
    while i < m
        invariant
            i <= m,
            m <= columns@.len(),
            m <= row@.len(),
            m == (if columns@.len() <= row@.len() {
                columns@.len() as int
            } else {
                row@.len() as int
            }),
            hmap@ == spec_row_of_n(columns@, row@, i as int),
        decreases m - i,
    {
        let v = match &row[i] {
            Some(tv) => tv.duplicate(),
            None => TypeValue::NullValueType,
        };
        hmap.set(columns[i].clone(), v);
        i = i + 1;
    }
    hmap
}

/// Appends one built row per input row to a table; this write path does
/// not fail.
pub fn insert_rows_into_table(
    table: &mut Vec<Row>,
    columns: &Vec<String>,
    rows: &Vec<Vec<Option<TypeValue>>>,
) -> (r: Result<(), DatabaseError>)
    ensures
        r is Ok,
        final(table)@.len() == old(table)@.len() + rows@.len(),
        forall|i: int| 0 <= i < old(table)@.len() ==> final(table)@[i] == old(table)@[i],
        forall|i: int|
            0 <= i < rows@.len() ==> (#[trigger] final(table)@[old(table)@.len() + i])@
                == spec_row_of(columns@, rows@[i]@),
{
    let n = rows.len();
    let mut i: usize = 0;
    while i < n
        invariant
            i <= n,
            n == rows@.len(),
            table@.len() == old(table)@.len() + i,
            forall|j: int| 0 <= j < old(table)@.len() ==> table@[j] == old(table)@[j],
            forall|j: int|
                0 <= j < i ==> (#[trigger] table@[old(table)@.len() + j])@ == spec_row_of(
                    columns@,
                    rows@[j]@,
                ),
        decreases n - i,
    {
        let new_row = convert_row_to_hashmap(columns, &rows[i]);
        table.push(new_row);
        i = i + 1;
    }
    Ok(())
}

/// The node's local table store.
pub struct Db {
    data: StringMap<Vec<Row>>,
}

impl View for Db {
    type V = Map<Seq<char>, Vec<Row>>;

    closed spec fn view(&self) -> Map<Seq<char>, Vec<Row>> {
        self.data@
    }
}

impl Db {
    pub fn new() -> (r: Db)
        ensures
            r@ == Map::<Seq<char>, Vec<Row>>::empty(),
    {
        Db { data: StringMap::new() }
    }

    /// Reading back by select is not implemented: the store is a write
    /// path only, and this yields no rows.
    pub fn query_data_by_select(_query: SelectQuery) -> (r: Vec<Row>)
        ensures
            r@.len() == 0,
    {
        Vec::new()
    }

    /// The rows of a table, or nothing when no insert has created it.
    pub fn get_table(&self, name: &String) -> (r: Option<&Vec<Row>>)
        ensures
            match r {
                Some(t) => self@.contains_key(name@) && *t == self@[name@],
                None => !self@.contains_key(name@),
            },
    {
        self.data.get(name)
    }

    /// Applies an insert: finds or creates the named table and appends
    /// one built row per input row; nothing else changes.
    pub fn insert(&mut self, query: InsertQuery) -> (r: Result<(), DatabaseError>)
        ensures
            r is Ok,
            ({
                let t = query.table_name@;
                let old_rows = if old(self)@.contains_key(t) {
                    old(self)@[t]@
                } else {
                    Seq::<Row>::empty()
                };
                &&& final(self)@.contains_key(t)
                &&& final(self)@[t]@.len() == old_rows.len() + query.rows@.len()
                &&& (forall|i: int| 0 <= i < old_rows.len() ==> final(self)@[t]@[i] == old_rows[i])
                &&& (forall|i: int|
                    0 <= i < query.rows@.len() ==> (#[trigger] final(self)@[t]@[old_rows.len()
                        + i])@ == spec_row_of(query.columns@, query.rows@[i]@))
                &&& (forall|k: Seq<char>|
                    k != t && #[trigger] old(self)@.contains_key(k)
                        ==> final(self)@.contains_key(k) && final(self)@[k] == old(self)@[k])
                &&& (forall|k: Seq<char>|
                    #[trigger] final(self)@.contains_key(k)
                        ==> k == t || old(self)@.contains_key(k))
            }),
    {
        let mut table: Vec<Row> = match self.data.remove_entry(&query.table_name) {
            Some(t) => t,
            None => Vec::new(),
        };
        let _inserted = insert_rows_into_table(&mut table, &query.columns, &query.rows);
        self.data.set(query.table_name, table);
        Ok(())
    }
}

} // verus!

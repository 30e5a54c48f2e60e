//! An insert: a table, its column names, and rows of optional values
//! aligned with the columns by position.
use crate::values::TypeValue;
use vstd::prelude::*;

verus! {

/// An insert query. A `None` in a row means that the column is set to
/// null; a row shorter than the column list leaves the trailing columns
/// out of the built row entirely.
#[derive(Debug)]
pub struct InsertQuery {
    pub table_name: String,
    pub columns: Vec<String>,
    pub rows: Vec<Vec<Option<TypeValue>>>,
}

} // verus!

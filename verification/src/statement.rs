//! A parsed statement: one of the two query forms this node consumes.
use crate::insert_query::InsertQuery;
use crate::select_query::SelectQuery;
use vstd::prelude::*;

verus! {

pub enum Statement {
    Select(SelectQuery),
    Insert(InsertQuery),
}

} // verus!

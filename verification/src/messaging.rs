//! The wire envelope: the unit of information exchanged between nodes.
//! Encoding it to bytes and back is the codec's business, outside this
//! crate.
use crate::insert_query::InsertQuery;
use crate::select_query::SelectQuery;
use vstd::prelude::*;

verus! {

pub enum Message {
    Select(SelectQuery),
    Insert(InsertQuery),
}

} // verus!

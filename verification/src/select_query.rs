//! A select: where its rows go, which columns, which table, and an
//! optional filter predicate.
use crate::expression::spec_evaluate;
use crate::expression::Expression;
use crate::expression::ExpressionEvaluationError;
use crate::row::Row;
use crate::values::TypeValue;
use vstd::prelude::*;

verus! {

#[derive(Debug, Clone, Copy, PartialEq, Eq, Structural)]
pub enum SelectQueryError {
    IsNoneError(),
    IsNotSupportedError(),
}

/// A select query. `into` names the destination and is never empty:
/// construction rejects a query without one.
#[derive(Debug)]
pub struct SelectQuery {
    pub into: String,
    pub projection: Vec<String>,
    pub from: String,
    pub constraints: Option<Expression>,
}

/// Whether a select's filter accepts a row: no filter accepts every row,
/// a filter is evaluated against the row.
pub open spec fn spec_select_matches(q: SelectQuery, row: Map<Seq<char>, TypeValue>) -> Result<
    bool,
    ExpressionEvaluationError,
> {
    match q.constraints {
        Some(e) => spec_evaluate(e, row),
        None => Ok(true),
    }
}

impl SelectQuery {
    /// Builds a select query; a query with an empty `into` is invalid
    /// and is rejected here.
    pub fn new(
        into: String,
        projection: Vec<String>,
        from: String,
        constraints: Option<Expression>,
    ) -> (r: Result<SelectQuery, SelectQueryError>)
        ensures
            match r {
                Ok(q) => into@.len() > 0 && q.into == into && q.projection == projection && q.from
                    == from && q.constraints == constraints,
                Err(e) => into@.len() == 0 && e == SelectQueryError::IsNoneError(),
            },
    {
        if into.as_str().is_empty() {
            Err(SelectQueryError::IsNoneError())
        } else {
            Ok(SelectQuery { into, projection, from, constraints })
        }
    }

    /// Whether this select's filter accepts the row.
    pub fn matches_row(&self, row: &Row) -> (r: Result<bool, ExpressionEvaluationError>)
        ensures
            r == spec_select_matches(*self, row@),
    {
        match &self.constraints {
            Some(e) => e.evaluate(row),
            None => Ok(true),
        }
    }
}

} // verus!

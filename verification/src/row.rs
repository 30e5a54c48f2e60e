//! A row: a mapping from column name to value, with distinct column
//! names. A column that is absent is a different thing from a column
//! bound to null; resolving an absent column fails.
use crate::string_map::StringMap;
use crate::values::TypeValue;
use vstd::prelude::*;

verus! {

pub struct Row {
    cells: StringMap<TypeValue>,
}

impl View for Row {
    type V = Map<Seq<char>, TypeValue>;

    closed spec fn view(&self) -> Map<Seq<char>, TypeValue> {
        self.cells@
    }
}

impl Row {
    pub fn new() -> (r: Row)
        ensures
            r@ == Map::<Seq<char>, TypeValue>::empty(),
    {
        Row { cells: StringMap::new() }
    }

    /// Binds a column to a value, replacing any earlier binding.
    pub fn set(&mut self, name: String, v: TypeValue)
        ensures
            final(self)@ == old(self)@.insert(name@, v),
    {
        self.cells.set(name, v);
    }

    /// The value of a column, or nothing when the column is absent.
    pub fn get(&self, name: &String) -> (r: Option<TypeValue>)
        ensures
            match r {
                Some(v) => self@.contains_key(name@) && v == self@[name@],
                None => !self@.contains_key(name@),
            },
    {
        match self.cells.get(name) {
            Some(v) => Some(v.duplicate()),
            None => None,
        }
    }
}

} // verus!

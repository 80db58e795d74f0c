//! Random-table data carried by dashboards.

use vstd::prelude::*;

verus! {

/// A rollable table: a die expression and the entries it selects among.
pub struct Table {
    pub title: String,
    pub tags: Vec<Tag>,
    pub dice: String,
    pub values: Vec<TableEntry>,
}

/// One row of a table, selected when the roll lands in its bounds.
pub struct TableEntry {
    pub lower_bound: i32,
    pub upper_bound: i32,
    pub tags: Vec<Tag>,
    pub value: String,
}

/// A label used to filter table entries.
pub struct Tag {
    pub name: String,
}

} // verus!

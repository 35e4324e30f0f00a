//! Labels for categorizing sessions.

use vstd::prelude::*;

verus! {

/// A label as stored; wall-clock fields hold Unix milliseconds.
#[derive(Debug, Clone, PartialEq)]
pub struct Label {
    pub id: i64,
    pub name: String,
    pub color: String,
    pub order_index: i64,
    pub created_at: i64,
    pub updated_at: i64,
    pub deleted_at: Option<i64>,
}

/// Input for creating or updating a label.
#[derive(Debug, Clone, PartialEq)]
pub struct LabelInput {
    pub name: String,
    pub color: String,
}

} // verus!

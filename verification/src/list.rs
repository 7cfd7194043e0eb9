//! Task lists: named containers that tasks reference by id.

use vstd::prelude::*;

use crate::calendar::{ts_valid, Timestamp};
use crate::task::{clone_chars, clone_opt_chars};

verus! {

/// A named list of tasks; tasks point at it through their `list_id`.
pub struct List {
    pub id: u32,
    pub name: Vec<char>,
    pub color: Option<Vec<char>>,
    pub created_at: Timestamp,
    pub updated_at: Timestamp,
}

/// The mathematical value of a `List`.
#[verifier::ext_equal]
pub ghost struct ListView {
    pub id: u32,
    pub name: Seq<char>,
    pub color: Option<Seq<char>>,
    pub created_at: Timestamp,
    pub updated_at: Timestamp,
}

impl View for List {
    type V = ListView;

    open spec fn view(&self) -> ListView {
        ListView {
            id: self.id,
            name: self.name@,
            color: self.color.deep_view(),
            created_at: self.created_at,
            updated_at: self.updated_at,
        }
    }
}

impl DeepView for List {
    type V = ListView;

    open spec fn deep_view(&self) -> ListView {
        self.view()
    }
}

/// Well-formedness of a list: its timestamps are supported calendar values.
pub open spec fn list_wf(l: ListView) -> bool {
    &&& ts_valid(l.created_at)
    &&& ts_valid(l.updated_at)
}

pub open spec fn spec_new_list(id: u32, name: Seq<char>, now: Timestamp) -> ListView {
    ListView { id, name, color: None, created_at: now, updated_at: now }
}

impl Clone for List {
    /// A clone has the same view as the original.
    fn clone(&self) -> (r: Self)
        ensures
            r@ == self@,
    {
        List {
            id: self.id,
            name: clone_chars(&self.name),
            color: clone_opt_chars(&self.color),
            created_at: self.created_at,
            updated_at: self.updated_at,
        }
    }
}

impl List {
    /// A fresh list: both stamps set to `now`, no color.
    pub fn new(id: u32, name: Vec<char>, now: Timestamp) -> (r: List)
        requires
            ts_valid(now),
        ensures
            r@ == spec_new_list(id, name@, now),
            list_wf(r@),
    {
        List { id, name, color: None, created_at: now, updated_at: now }
    }
}

} // verus!

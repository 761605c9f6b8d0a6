//! Identifiers of planner items.

use vstd::prelude::*;
use vstd::std_specs::cmp::PartialEqSpecImpl;
use crate::text::{is_blank, is_blank_text};

verus! {

/// Identifier of a planner item: any text that is not blank.
#[derive(Clone, Debug)]
pub struct PlannerId(String);

impl View for PlannerId {
    type V = Seq<char>;

    closed spec fn view(&self) -> Seq<char> {
        self.0@
    }
}

impl PlannerId {
    /// An identifier from `value`, or `None` when `value` is blank.
    pub fn new(value: &str) -> (id: Option<Self>)
        ensures
            id is Some <==> !is_blank(value@),
            id matches Some(id) ==> id@ == value@,
    {
        if is_blank_text(value) {
            None
        } else {
            Some(PlannerId(value.to_owned()))
        }
    }

    /// An identifier as a stored document holds it; a document may hold any
    /// text, a blank one included.
    pub fn from_stored(value: &str) -> (id: Self)
        ensures
            id@ == value@,
    {
        PlannerId(value.to_owned())
    }

    /// Whether two identifiers name the same item.
    pub fn same(&self, other: &PlannerId) -> (same: bool)
        ensures
            same == (self@ == other@),
    {
        self.0 == other.0
    }

    /// A copy of this identifier.
    pub fn duplicate(&self) -> (copy: PlannerId)
        ensures
            copy == *self,
    {
        PlannerId(self.0.clone())
    }

    /// The identifier's text.
    pub fn to_string(&self) -> (text: String)
        ensures
            text@ == self@,
    {
        self.0.clone()
    }
}

impl PartialEq for PlannerId {
    fn eq(&self, other: &Self) -> (same: bool) {
        self.0 == other.0
    }
}

impl Eq for PlannerId {
}

impl PartialEqSpecImpl for PlannerId {
    open spec fn obeys_eq_spec() -> bool {
        true
    }

    open spec fn eq_spec(&self, other: &PlannerId) -> bool {
        self@ == other@
    }
}

} // verus!

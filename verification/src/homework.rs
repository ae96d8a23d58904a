//! The homework record: a name, a course code, and a due timestamp
//! (Unix epoch seconds). The id is absent only in a create request;
//! every stored record carries one.

use vstd::prelude::*;

verus! {

#[derive(Clone, PartialEq, Eq, Debug)]
pub struct Homework {
    pub id: Option<u64>,
    pub name: String,
    pub course_code: String,
    pub due_date: i64,
}

/// A record is live with respect to a reference time iff its due
/// timestamp has not passed.
pub open spec fn is_live(h: Homework, now: i64) -> bool {
    h.due_date >= now
}

impl Homework {
    /// An equal copy of the record.
    pub fn duplicate(&self) -> (r: Homework)
        ensures
            r == *self,
    {
        Homework {
            id: self.id,
            name: self.name.clone(),
            course_code: self.course_code.clone(),
            due_date: self.due_date,
        }
    }
}

} // verus!

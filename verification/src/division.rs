//! Divisions of an event.
use vstd::prelude::*;

verus! {

/// A division of the event (an age or skill class), as the scoring service
/// names it.
#[derive(Clone, Debug)]
pub struct Division {
    pub id: String,
    pub name: String,
    pub short_name: String,
}

impl Division {
    /// A copy of the division.
    pub fn duplicate(&self) -> (r: Self)
        ensures
            r.id@ == self.id@,
            r.name@ == self.name@,
            r.short_name@ == self.short_name@,
            r == *self,
    {
        Division { id: self.id.clone(), name: self.name.clone(), short_name: self.short_name.clone() }
    }
}

} // verus!

//! Events: the activities that users subscribe to.

use vstd::prelude::*;

verus! {

/// One event. Events are written when the store is seeded and only read
/// afterwards.
#[derive(Debug, PartialEq, Eq)]
pub struct Model {
    pub id: i32,
    pub name: String,
    pub room: String,
    pub zone: String,
    pub floor: String,
    pub minimum_section: i32,
}

impl Clone for Model {
    fn clone(&self) -> (copy: Self)
        ensures
            copy == *self,
    {
        Model {
            id: self.id,
            name: self.name.clone(),
            room: self.room.clone(),
            zone: self.zone.clone(),
            floor: self.floor.clone(),
            minimum_section: self.minimum_section,
        }
    }
}

} // verus!

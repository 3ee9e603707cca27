//! Users: the participants.

use vstd::prelude::*;

verus! {

/// One user. No two users share an email address.
#[derive(Debug, PartialEq, Eq)]
pub struct Model {
    pub id: i32,
    pub name: Option<String>,
    pub email: String,
    pub interactive_done: bool,
    pub section: i32,
    pub class: Option<String>,
    pub admin: bool,
}

impl Clone for Model {
    fn clone(&self) -> (copy: Self)
        ensures
            copy == *self,
    {
        Model {
            id: self.id,
            name: copy_text(&self.name),
            email: self.email.clone(),
            interactive_done: self.interactive_done,
            section: self.section,
            class: copy_text(&self.class),
            admin: self.admin,
        }
    }
}

/// A copy of a text that may be absent.
pub fn copy_text(text: &Option<String>) -> (copy: Option<String>)
    ensures
        copy == *text,
{
    match text {
        Some(t) => Some(t.clone()),
        None => None,
    }
}

} // verus!

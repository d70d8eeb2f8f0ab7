use vstd::prelude::*;

verus! {

/// A connected client: its id, its display name, and the room it is in.
#[derive(Debug)]
pub struct User {
    pub id: u32,
    pub name: String,
    pub game_id: Option<u16>,
}

/// Users are equal when their ids are.
impl PartialEq for User {
    fn eq(&self, other: &User) -> (r: bool) {
        self.id == other.id
    }
}

impl vstd::std_specs::cmp::PartialEqSpecImpl for User {
    open spec fn obeys_eq_spec() -> bool {
        true
    }

    open spec fn eq_spec(&self, other: &User) -> bool {
        self.id == other.id
    }
}

} // verus!

use vstd::prelude::*;

verus! {

pub type PertId = i32;

/// A project whose activities are estimated with the three-point technique.
#[derive(Debug)]
pub struct Pert {
    pub id: PertId,
    pub name: String,
}

impl Pert {
    pub fn new(id: PertId, name: String) -> (r: Self)
        ensures
            r.id == id,
            r.name == name,
    {
        Self { id, name }
    }
}

} // verus!

//! A record whose fields stay private behind an associated constructor.

use vstd::prelude::*;

verus! {

/// A named object with a description and a numeric id; the fields are
/// private, so values come only from [`Object::new`].
pub struct Object {
    name: String,
    desc: String,
    id: u32,
}

impl Object {
    /// The stored name.
    pub closed spec fn spec_name(&self) -> Seq<char> {
        self.name@
    }

    /// The stored description.
    pub closed spec fn spec_desc(&self) -> Seq<char> {
        self.desc@
    }

    /// The stored id.
    pub closed spec fn spec_id(&self) -> u32 {
        self.id
    }

    /// Reads the name.
    pub fn name(&self) -> (r: &str)
        ensures
            r@ == self.spec_name(),
    {
        self.name.as_str()
    }

    /// Reads the description.
    pub fn desc(&self) -> (r: &str)
        ensures
            r@ == self.spec_desc(),
    {
        self.desc.as_str()
    }

    /// Reads the id.
    pub fn id(&self) -> (r: u32)
        ensures
            r == self.spec_id(),
    {
        self.id
    }

    /// A fresh object: empty name and description, id 5.
    pub fn new() -> (r: Self)
        ensures
            r.spec_name() == Seq::<char>::empty(),
            r.spec_desc() == Seq::<char>::empty(),
            r.spec_id() == 5,
    {
        Self { name: String::new(), desc: String::new(), id: 5 }
    }
}

} // verus!

//! A small contact record built by a helper function.

use vstd::prelude::*;

verus! {

/// A contact: a name, an email address, and whether it is active.
pub struct Object {
    name: String,
    email: String,
    status: bool,
}

impl Object {
    /// The stored name.
    pub closed spec fn spec_name(&self) -> Seq<char> {
        self.name@
    }

    /// The stored email address.
    pub closed spec fn spec_email(&self) -> Seq<char> {
        self.email@
    }

    /// The stored status.
    pub closed spec fn spec_status(&self) -> bool {
        self.status
    }

    /// Reads the name.
    pub fn name(&self) -> (r: &str)
        ensures
            r@ == self.spec_name(),
    {
        self.name.as_str()
    }

    /// Reads the email address.
    pub fn email(&self) -> (r: &str)
        ensures
            r@ == self.spec_email(),
    {
        self.email.as_str()
    }

    /// Reads the status.
    pub fn status(&self) -> (r: bool)
        ensures
            r == self.spec_status(),
    {
        self.status
    }
}

/// Builds an active contact from a name and an email address.
pub fn build_object(name: String, email: String) -> (r: Object)
    ensures
        r.spec_name() == name@,
        r.spec_email() == email@,
        r.spec_status() == true,
{
    Object { name, email, status: true }
}

} // verus!

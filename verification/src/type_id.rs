use vstd::prelude::*;

verus! {

/// A type's display name, carried as plain text for diagnostics.
#[derive(Debug, Clone)]
pub struct Type {
    name: String,
}

impl Type {
    /// The carried name, as a character sequence.
    pub closed spec fn spec_name(&self) -> Seq<char> {
        self.name@
    }

    /// Wraps a name, as an outside name provider reports it.
    pub fn from_name(name: String) -> (t: Type)
        ensures
            t.spec_name() == name@,
    {
        Type { name }
    }

    /// Reads the name.
    pub fn name(&self) -> (r: &str)
        ensures
            r@ == self.spec_name(),
    {
        self.name.as_str()
    }
}

} // verus!

//! Names.

use vstd::prelude::*;

use crate::table::Key;

verus! {

/// The name of a variable, a function or an attribute.
#[derive(Debug, PartialEq, Eq)]
pub struct Identifier {
    pub name: String,
}

impl View for Identifier {
    type V = Seq<char>;

    open spec fn view(&self) -> Seq<char> {
        self.name@
    }
}

impl Clone for Identifier {
    fn clone(&self) -> (r: Identifier)
        ensures
            r@ == self@,
    {
        Identifier { name: self.name.clone() }
    }
}

impl Key for Identifier {
    fn same(&self, other: &Self) -> (r: bool) {
        self.name == other.name
    }
}

impl Identifier {
    pub fn as_str(&self) -> (r: &str)
        ensures
            r@ == self@,
    {
        self.name.as_str()
    }
}

} // verus!

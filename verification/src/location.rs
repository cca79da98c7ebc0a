//! Positions in source files.

use vstd::prelude::*;
use vstd::string::*;

use crate::text::decimal;

verus! {

/// A position in a source file, counted from zero.
#[derive(Clone, Copy, Debug, PartialEq, Eq, Structural)]
pub struct Location {
    pub row: usize,
    pub column: usize,
}

impl View for Location {
    type V = Location;

    open spec fn view(&self) -> Location {
        *self
    }
}

impl Location {
    /// A location is shown as `(row, column)`, counted from one.
    pub open spec fn shown(self) -> Seq<char> {
        "("@ + crate::text::decimal_text((self.row + 1) as nat) + ", "@
            + crate::text::decimal_text((self.column + 1) as nat)
            + ")"@
    }

    pub fn text(&self) -> (r: String)
        ensures
            r@ == self.shown(),
    {
        let mut r = "(".to_owned();
        r.append(decimal(self.row as u128 + 1).as_str());
        r.append(", ");
        r.append(decimal(self.column as u128 + 1).as_str());
        r.append(")");
        r
    }
}

} // verus!

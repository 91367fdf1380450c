//! Options of the checkout listing command.

use vstd::prelude::*;

verus! {

/// Options of the command that lists the available checkouts: whether the
/// output is printed as one JSON document rather than one line per
/// checkout.
#[derive(Clone, Copy, Debug, PartialEq, Eq, Structural)]
pub struct ListCmd {
    pub json: bool,
}

impl ListCmd {
    /// Options asking for the given output format.
    pub fn new(json: bool) -> (r: ListCmd)
        ensures
            r.json == json,
    {
        ListCmd { json }
    }
}

} // verus!

use vstd::prelude::*;

verus! {

/// What a known cell holds: the kind of its content and, where that kind
/// carries one, its quantity.
///
/// Two contents match when their kinds are equal, whatever their quantities.
#[derive(Debug, Clone, Copy, PartialEq, Eq, Structural)]
pub struct CellContent {
    pub kind: u32,
    pub quantity: Option<usize>,
}

impl CellContent {
    /// A content of the given kind and quantity.
    pub fn new(kind: u32, quantity: Option<usize>) -> (r: CellContent)
        ensures
            r.kind == kind,
            r.quantity == quantity,
    {
        CellContent { kind, quantity }
    }
}

} // verus!

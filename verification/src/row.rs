use vstd::prelude::*;

verus! {

/// A row in the strict sense: every cell is `0` or `1`.
pub open spec fn is_row(cells: Seq<u8>) -> bool {
    forall|i: int| 0 <= i < cells.len() ==> cells[i] <= 1
}

/// The row of `len` cells that all hold `cell`.
pub open spec fn uniform_row(len: nat, cell: u8) -> Seq<u8> {
    Seq::new(len, |i: int| cell)
}

} // verus!

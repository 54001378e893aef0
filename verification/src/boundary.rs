use vstd::prelude::*;

verus! {

/// How the neighbours beyond the two ends of a row are obtained.
#[derive(Debug, Clone, Copy, PartialEq, Eq, Structural)]
pub enum Boundary {
    /// The row wraps around: the last cell stands left of the first one,
    /// the first cell right of the last one.
    Periodic,
    /// Each end sees its own value again.
    Reflexive,
    /// Two constants, left and right, whatever the row holds.
    Fixed(u8, u8),
}

impl Boundary {
    /// The virtual neighbours `(left, right)` of `row` under this policy.
    pub open spec fn edge_values(self, row: Seq<u8>) -> (u8, u8) {
        match self {
            Boundary::Periodic => (row.last(), row.first()),
            Boundary::Reflexive => (row.first(), row.last()),
            Boundary::Fixed(left, right) => (left, right),
        }
    }

    /// Both injected constants of a `Fixed` policy are single bits; the
    /// other policies only ever hand back cells of the row.
    pub open spec fn wf(self) -> bool {
        self matches Boundary::Fixed(left, right) ==> left <= 1 && right <= 1
    }

    /// Returns the value left of the first cell and the value right of the
    /// last cell. Only `Fixed` can answer for an empty row.
    pub fn get_boundary_value(&self, state: &[u8]) -> (edges: (u8, u8))
        requires
            self is Fixed || state@.len() >= 1,
        ensures
            edges == self.edge_values(state@),
    {
        match self {
            Boundary::Periodic => (state[state.len() - 1], state[0]),
            Boundary::Reflexive => (state[0], state[state.len() - 1]),
            Boundary::Fixed(left, right) => (*left, *right),
        }
    }
}

} // verus!

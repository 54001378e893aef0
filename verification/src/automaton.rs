use vstd::prelude::*;

use crate::boundary::Boundary;
use crate::error::AutomatonError;
use crate::row::{is_row, uniform_row};
use crate::rule::{apply_rule, lemma_rule_bit_is_bit, neighborhood, neighborhood_code, rule_bit};

verus! {

/// An elementary cellular automaton: a rule number and a boundary policy,
/// both fixed at construction.
#[derive(Debug, Clone, Copy, PartialEq, Eq)]
pub struct CellularAutomaton {
    rule: u8,
    boundary: Boundary,
}

impl CellularAutomaton {
    /// The rule number.
    pub closed spec fn rule(&self) -> u8 {
        self.rule
    }

    /// The boundary policy.
    pub closed spec fn boundary(&self) -> Boundary {
        self.boundary
    }

    /// The row with its two virtual neighbours put in front and behind.
    pub open spec fn augmented(&self, row: Seq<u8>) -> Seq<u8> {
        let (left, right) = self.boundary().edge_values(row);
        seq![left] + row + seq![right]
    }

    /// The next value of cell `i` of `row`: the rule's bit for the window
    /// that the augmented row shows around that cell.
    pub open spec fn next_cell(&self, row: Seq<u8>, i: int) -> u8 {
        let window = self.augmented(row);
        rule_bit(self.rule(), neighborhood_code(window[i], window[i + 1], window[i + 2]))
    }

    /// The next generation of `row`.
    pub open spec fn spec_step(&self, row: Seq<u8>) -> Seq<u8> {
        Seq::new(row.len(), |i: int| self.next_cell(row, i))
    }

    /// Whatever the input holds, the next generation has the length of the
    /// input and every cell of it is a single bit.
    pub proof fn lemma_step_is_row(&self, row: Seq<u8>)
        ensures
            self.spec_step(row).len() == row.len(),
            is_row(self.spec_step(row)),
    {
        let next = self.spec_step(row);
        let window = self.augmented(row);
        assert forall|i: int| 0 <= i < next.len() implies next[i] <= 1 by {
            lemma_rule_bit_is_bit(
                self.rule(),
                neighborhood_code(window[i], window[i + 1], window[i + 2]),
            );
        }
    }

    /// Around a row of bits, under a policy whose constants are bits, the
    /// augmented row holds bits only.
    pub proof fn lemma_augmented_is_row(&self, row: Seq<u8>)
        requires
            is_row(row),
            self.boundary().wf(),
            row.len() >= 1,
        ensures
            self.augmented(row).len() == row.len() + 2,
            is_row(self.augmented(row)),
    {
    }

    /// Rule 0 maps every neighbourhood to zero: whatever the boundary
    /// policy, every row steps to the all-zero row of its length, and a
    /// second step leaves it there.
    pub proof fn lemma_rule_zero_clears(&self, row: Seq<u8>)
        requires
            self.rule() == 0,
        ensures
            self.spec_step(row) == uniform_row(row.len(), 0),
            self.spec_step(self.spec_step(row)) == uniform_row(row.len(), 0),
    {
        assert forall|r: Seq<u8>| #[trigger] self.spec_step(r) == uniform_row(r.len(), 0) by {
            let window = self.augmented(r);
            assert forall|i: int| 0 <= i < r.len() implies self.next_cell(r, i) == 0 by {
                let code = neighborhood_code(window[i], window[i + 1], window[i + 2]);
                if 0 <= code < 8 {
                    let shift = code as u8;
                    assert((0u8 >> shift) & 1 == 0) by (bit_vector);
                }
            }
        }
    }

    /// Rule 255 maps every neighbourhood to one: a row of bits, under a
    /// policy whose constants are bits, steps to the all-ones row of its
    /// length.
    pub proof fn lemma_rule_255_fills(&self, row: Seq<u8>)
        requires
            self.rule() == 255,
            self.boundary().wf(),
            is_row(row),
        ensures
            self.spec_step(row) == uniform_row(row.len(), 1),
    {
        if row.len() >= 1 {
            let window = self.augmented(row);
            self.lemma_augmented_is_row(row);
            assert forall|i: int| 0 <= i < row.len() implies self.next_cell(row, i) == 1 by {
                let shift = neighborhood_code(window[i], window[i + 1], window[i + 2]) as u8;
                assert((255u8 >> shift) & 1 == 1) by (bit_vector)
                    requires
                        shift < 8,
                ;
            }
        }
    }

    /// Pairs a rule number with a boundary policy.
    pub fn new(rule: u8, boundary: Boundary) -> (ca: Self)
        ensures
            ca.rule() == rule,
            ca.boundary() == boundary,
    {
        Self { rule, boundary }
    }

    /// Advances a non-empty row by one generation.
    pub fn next_row(&self, state: &[u8]) -> (next: Vec<u8>)
        requires
            state@.len() >= 1,
        ensures
            next@ == self.spec_step(state@),
    {
        let (left, right) = self.boundary.get_boundary_value(state);
        let n: usize = state.len();
        let mut next: Vec<u8> = Vec::with_capacity(n);
        let mut i: usize = 0;
        while i < n
            invariant
                n == state@.len(),
                i <= n,
                (left, right) == self.boundary().edge_values(state@),
                next@.len() == i,
                forall|j: int| 0 <= j < i ==> next@[j] == self.next_cell(state@, j),
            decreases n - i,
        {
            let l: u8 = if i == 0 { left } else { state[i - 1] };
            let r: u8 = if i + 1 == n { right } else { state[i + 1] };
            next.push(apply_rule(self.rule, neighborhood(l, state[i], r)));
            i += 1;
        }
        next
    }

    /// Advances a row by one generation. The result has the length of the
    /// input and holds bits only; an empty row, and nothing else, is
    /// refused.
    pub fn step(&self, state: &[u8]) -> (res: Result<Vec<u8>, AutomatonError>)
        ensures
            match res {
                Ok(next) => {
                    &&& state@.len() >= 1
                    &&& next@ == self.spec_step(state@)
                    &&& next@.len() == state@.len()
                    &&& is_row(next@)
                },
                Err(e) => state@.len() == 0 && e == AutomatonError::InvalidRowLength,
            },
    {
        if state.len() == 0 {
            Err(AutomatonError::InvalidRowLength)
        } else {
            proof {
                self.lemma_step_is_row(state@);
            }
            Ok(self.next_row(state))
        }
    }
}

} // verus!

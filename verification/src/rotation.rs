use vstd::prelude::*;

use vstd::arithmetic::div_mod::{
    lemma_add_mod_noop_right, lemma_mod_bound, lemma_mod_self_0, lemma_mod_sub_multiples_vanish,
    lemma_small_mod,
};

use crate::automaton::CellularAutomaton;
use crate::boundary::Boundary;
use crate::rule::{neighborhood_code, rule_bit};

verus! {

/// `row` turned cyclically by `k` places: cell `i` of the result is cell
/// `i + k` of `row`, counted around the ring. A negative `k` turns the
/// other way.
pub open spec fn rotate(row: Seq<u8>, k: int) -> Seq<u8> {
    Seq::new(row.len(), |i: int| row[(i + k) % (row.len() as int)])
}

/// Turning a row by `k` places and then back by `k` places restores it.
pub proof fn lemma_rotate_back(row: Seq<u8>, k: int)
    ensures
        rotate(rotate(row, k), -k) == row,
{
    let n = row.len() as int;
    let turned = rotate(row, k);
    assert forall|i: int| 0 <= i < n implies rotate(turned, -k)[i] == row[i] by {
        lemma_mod_bound(i - k, n);
        lemma_add_mod_noop_right(k, i - k, n);
        lemma_small_mod(i as nat, n as nat);
    }
}

impl CellularAutomaton {
    /// On a ring, the next value of cell `i` reads the cells `i - 1`, `i`
    /// and `i + 1`, counted around the ring.
    pub proof fn lemma_periodic_cell(&self, row: Seq<u8>, i: int)
        requires
            self.boundary() == Boundary::Periodic,
            0 <= i < row.len(),
        ensures
            self.next_cell(row, i) == rule_bit(
                self.rule(),
                neighborhood_code(
                    row[(i - 1) % (row.len() as int)],
                    row[i],
                    row[(i + 1) % (row.len() as int)],
                ),
            ),
    {
        let n = row.len() as int;
        let window = self.augmented(row);
        assert(window[i] == row[(i - 1) % n]) by {
            if i == 0 {
                lemma_mod_sub_multiples_vanish(n - 1, n);
                lemma_small_mod((n - 1) as nat, n as nat);
            } else {
                lemma_small_mod((i - 1) as nat, n as nat);
            }
        }
        assert(window[i + 2] == row[(i + 1) % n]) by {
            if i + 1 == n {
                lemma_mod_self_0(n);
            } else {
                lemma_small_mod((i + 1) as nat, n as nat);
            }
        }
    }

    /// A periodic automaton does not tell where a ring begins: stepping a
    /// turned row gives the turned next generation, so turning a row,
    /// stepping it and turning the result back is the same as stepping it.
    pub proof fn lemma_periodic_step_commutes_with_rotation(&self, row: Seq<u8>, k: int)
        requires
            self.boundary() == Boundary::Periodic,
        ensures
            self.spec_step(rotate(row, k)) == rotate(self.spec_step(row), k),
            rotate(self.spec_step(rotate(row, k)), -k) == self.spec_step(row),
    {
        let n = row.len() as int;
        let turned = rotate(row, k);
        let stepped = self.spec_step(row);
        assert forall|i: int| 0 <= i < n implies self.spec_step(turned)[i] == rotate(stepped, k)[i] by {
            let j = (i + k) % n;
            lemma_mod_bound(i + k, n);
            lemma_mod_bound(i - 1, n);
            lemma_mod_bound(i + 1, n);
            self.lemma_periodic_cell(turned, i);
            self.lemma_periodic_cell(row, j);
            assert(turned[(i - 1) % n] == row[(j - 1) % n]) by {
                lemma_add_mod_noop_right(k, i - 1, n);
                lemma_add_mod_noop_right(-1, i + k, n);
            }
            assert(turned[(i + 1) % n] == row[(j + 1) % n]) by {
                lemma_add_mod_noop_right(k, i + 1, n);
                lemma_add_mod_noop_right(1, i + k, n);
            }
        }
        lemma_rotate_back(stepped, k);
    }
}

} // verus!

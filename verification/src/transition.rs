use vstd::prelude::*;

use vstd::arithmetic::power2::{lemma2_to64, lemma_pow2_strictly_increases, pow2};
use vstd::bits::lemma_u32_shl_is_mul;

use crate::automaton::CellularAutomaton;
use crate::error::AutomatonError;
use crate::state_index::{
    bits_to_u32, decode, encode, lemma_decode_is_row, lemma_encode_bound, u32_to_bits,
};

verus! {

/// The largest row length whose transition matrix is built. With `2^30`
/// states every row pointer, the last one included, still fits a signed
/// 32-bit index, which is what row-compressed consumers commonly take. The
/// three arrays take nine bytes for each state, so about nine gibibytes at
/// this limit, and the work doubles with every cell added.
pub const MAX_SIZE: usize = 30;

/// The transition relation of an automaton over all rows of one length, as
/// a square sparse matrix in row-compressed layout: the stored entries of
/// row `r` occupy the slots `row_ptr[r] .. row_ptr[r + 1]` of `col_idx` and
/// `values`.
#[derive(Debug, Clone, PartialEq, Eq)]
pub struct TransitionMatrix {
    /// Number of rows and of columns: the number of states.
    pub dim: usize,
    /// Where each row's slots begin; one more element than there are rows.
    pub row_ptr: Vec<u32>,
    /// The column of each stored entry.
    pub col_idx: Vec<u32>,
    /// The value of each stored entry.
    pub values: Vec<u8>,
}

impl TransitionMatrix {
    /// The number of stored entries.
    pub open spec fn nnz(&self) -> nat {
        self.values@.len()
    }

    /// How many entries row `r` stores.
    pub open spec fn row_len(&self, r: int) -> int {
        self.row_ptr@[r + 1] - self.row_ptr@[r]
    }

    /// The matrix is that of a total deterministic relation: every row
    /// stores exactly one entry, in the slot of its own number, with value
    /// one and a column inside the matrix.
    pub open spec fn wf(&self) -> bool {
        &&& self.row_ptr@.len() == self.dim + 1
        &&& self.col_idx@.len() == self.dim
        &&& self.values@.len() == self.dim
        &&& forall|r: int| 0 <= r <= self.dim ==> self.row_ptr@[r] == r
        &&& forall|k: int| 0 <= k < self.dim ==> self.col_idx@[k] < self.dim
        &&& forall|k: int| 0 <= k < self.dim ==> self.values@[k] == 1
    }

    /// The sum of the values stored in the slots `lo .. hi` under column `c`.
    pub open spec fn slots_sum(&self, lo: int, hi: int, c: int) -> int
        decreases hi - lo,
    {
        if lo >= hi {
            0
        } else {
            let here: int = if self.col_idx@[lo] == c {
                self.values@[lo] as int
            } else {
                0
            };
            here + self.slots_sum(lo + 1, hi, c)
        }
    }

    /// The element at row `r`, column `c` of the matrix that the three
    /// arrays stand for.
    pub open spec fn entry(&self, r: int, c: int) -> int {
        self.slots_sum(self.row_ptr@[r] as int, self.row_ptr@[r + 1] as int, c)
    }

    /// The state that row `r` leads to: the column of its one entry.
    pub open spec fn successor(&self, r: int) -> int {
        self.col_idx@[self.row_ptr@[r] as int] as int
    }

    /// In a well-formed matrix there are as many stored entries as rows,
    /// each row stores one, and the element at `(r, c)` is one where `c` is
    /// the successor of `r` and zero everywhere else.
    pub proof fn lemma_one_entry_per_row(&self, r: int, c: int)
        requires
            self.wf(),
            0 <= r < self.dim,
        ensures
            self.nnz() == self.dim,
            self.row_len(r) == 1,
            0 <= self.successor(r) < self.dim,
            self.entry(r, c) == if c == self.successor(r) { 1int } else { 0int },
    {
        reveal_with_fuel(TransitionMatrix::slots_sum, 2);
    }
}

/// The number of rows of length `size`.
fn state_count(size: usize) -> (n: u32)
    requires
        size <= MAX_SIZE,
    ensures
        n == pow2(size as nat),
        n <= 0x4000_0000,
{
    let shift: u32 = size as u32;
    proof {
        lemma2_to64();
        if size < MAX_SIZE {
            lemma_pow2_strictly_increases(size as nat, 30);
        }
        lemma_u32_shl_is_mul(1, shift);
    }
    1u32 << shift
}

impl CellularAutomaton {
    /// The state index reached in one step from the state `index` of the
    /// rows of length `size`.
    pub open spec fn spec_successor(&self, index: nat, size: nat) -> nat {
        encode(self.spec_step(decode(index, size)))
    }

    /// `m` is the transition matrix of this automaton over the rows of
    /// length `size`: it has `2^size` rows, the row pointers count
    /// `0, 1, .., 2^size`, every value is one, and the column stored for
    /// state `s` is the successor of `s`.
    pub open spec fn is_transition_matrix(&self, m: TransitionMatrix, size: nat) -> bool {
        &&& m.dim == pow2(size)
        &&& m.row_ptr@.len() == pow2(size) + 1
        &&& m.col_idx@.len() == pow2(size)
        &&& m.values@.len() == pow2(size)
        &&& forall|r: int| 0 <= r <= pow2(size) ==> m.row_ptr@[r] == r
        &&& forall|s: int|
            0 <= s < pow2(size) ==> m.col_idx@[s] == self.spec_successor(s as nat, size)
        &&& forall|s: int| 0 <= s < pow2(size) ==> m.values@[s] == 1
    }

    /// Every successor is itself a state of the same row length.
    pub proof fn lemma_successor_in_range(&self, index: nat, size: nat)
        ensures
            self.spec_successor(index, size) < pow2(size),
    {
        let row = decode(index, size);
        lemma_decode_is_row(index, size);
        self.lemma_step_is_row(row);
        lemma_encode_bound(self.spec_step(row));
    }

    /// The transition matrix of an automaton is well formed, and the
    /// successor it stores for each state is the automaton's.
    pub proof fn lemma_transition_matrix_wf(&self, m: TransitionMatrix, size: nat)
        requires
            self.is_transition_matrix(m, size),
        ensures
            m.wf(),
            m.nnz() == pow2(size),
            forall|s: int|
                0 <= s < m.dim ==> #[trigger] m.successor(s) == self.spec_successor(
                    s as nat,
                    size,
                ),
    {
        assert forall|k: int| 0 <= k < m.dim implies m.col_idx@[k] < m.dim by {
            self.lemma_successor_in_range(k as nat, size);
        }
        assert forall|s: int| 0 <= s < m.dim implies m.successor(s) == self.spec_successor(
            s as nat,
            size,
        ) by {
        }
    }

    /// The transition matrix is the graph of one step: its element at
    /// `(r, c)` is one where state `r` steps to state `c`, and zero
    /// everywhere else.
    pub proof fn lemma_transition_matrix_entries(
        &self,
        m: TransitionMatrix,
        size: nat,
        r: int,
        c: int,
    )
        requires
            self.is_transition_matrix(m, size),
            0 <= r < pow2(size),
        ensures
            m.entry(r, c) == if c == self.spec_successor(r as nat, size) {
                1int
            } else {
                0int
            },
    {
        self.lemma_transition_matrix_wf(m, size);
        m.lemma_one_entry_per_row(r, c);
    }

    /// One state evaluation: decode, step, encode.
    fn successor(&self, index: u32, size: usize) -> (next: u32)
        requires
            1 <= size <= MAX_SIZE,
        ensures
            next == self.spec_successor(index as nat, size as nat),
            next < pow2(size as nat),
    {
        let row = u32_to_bits(index, size);
        let stepped = self.next_row(row.as_slice());
        proof {
            self.lemma_successor_in_range(index as nat, size as nat);
            lemma2_to64();
            if size < MAX_SIZE {
                lemma_pow2_strictly_increases(size as nat, 30);
            }
        }
        bits_to_u32(stepped.as_slice())
    }

    /// Builds the transition matrix over all `2^size` rows of length
    /// `size`: row `s` holds its single entry, of value one, in the column
    /// of the state that `s` steps to. A `size` of zero is refused, and so
    /// is one above `MAX_SIZE`.
    pub fn get_transition_matrix(&self, size: usize) -> (res: Result<
        TransitionMatrix,
        AutomatonError,
    >)
        ensures
            match res {
                Ok(m) => {
                    &&& 1 <= size <= MAX_SIZE
                    &&& self.is_transition_matrix(m, size as nat)
                    &&& m.wf()
                    &&& m.nnz() == pow2(size as nat)
                    &&& forall|r: int| 0 <= r < pow2(size as nat) ==> #[trigger] m.row_len(r) == 1
                },
                Err(AutomatonError::InvalidRowLength) => size == 0,
                Err(AutomatonError::SizeTooLarge) => size > MAX_SIZE,
            },
    {
        if size == 0 {
            return Err(AutomatonError::InvalidRowLength);
        }
        if size > MAX_SIZE {
            return Err(AutomatonError::SizeTooLarge);
        }
        let n: u32 = state_count(size);
        let mut row_ptr: Vec<u32> = Vec::with_capacity(n as usize + 1);
        let mut col_idx: Vec<u32> = Vec::with_capacity(n as usize);
        let mut values: Vec<u8> = Vec::with_capacity(n as usize);
        let mut s0: u32 = 0;
        while s0 < n
            invariant
                1 <= size <= MAX_SIZE,
                n == pow2(size as nat),
                s0 <= n,
                row_ptr@.len() == s0,
                col_idx@.len() == s0,
                values@.len() == s0,
                forall|r: int| 0 <= r < s0 ==> row_ptr@[r] == r,
                forall|s: int|
                    0 <= s < s0 ==> col_idx@[s] == self.spec_successor(s as nat, size as nat),
                forall|s: int| 0 <= s < s0 ==> values@[s] == 1,
            decreases n - s0,
        {
            let s1 = self.successor(s0, size);
            row_ptr.push(s0);
            col_idx.push(s1);
            values.push(1);
            s0 += 1;
        }
        row_ptr.push(n);
        let m = TransitionMatrix { dim: n as usize, row_ptr, col_idx, values };
        proof {
            self.lemma_transition_matrix_wf(m, size as nat);
        }
        Ok(m)
    }
}

} // verus!

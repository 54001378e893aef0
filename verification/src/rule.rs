use vstd::prelude::*;

verus! {

/// The three-cell window `(left, centre, right)` read as a number, the left
/// neighbour weighing most. On bits this is a value below 8.
pub open spec fn neighborhood_code(left: u8, center: u8, right: u8) -> int {
    4 * left + 2 * center + right
}

/// Bit `code` of the rule's eight-entry table. A rule has no bit beyond the
/// eighth, so every larger code reads `0`.
pub open spec fn rule_bit(rule: u8, code: int) -> u8 {
    if 0 <= code < 8 {
        (rule >> (code as u8)) & 1
    } else {
        0
    }
}

/// Whatever the rule and the code, a looked-up value is a single bit.
pub proof fn lemma_rule_bit_is_bit(rule: u8, code: int)
    ensures
        rule_bit(rule, code) <= 1,
{
    if 0 <= code < 8 {
        let shift = code as u8;
        assert((rule >> shift) & 1 <= 1) by (bit_vector);
    }
}

/// Computes the neighbourhood code of a window.
pub fn neighborhood(left: u8, center: u8, right: u8) -> (code: u16)
    ensures
        code == neighborhood_code(left, center, right),
{
    4 * (left as u16) + 2 * (center as u16) + (right as u16)
}

/// Looks a neighbourhood code up in the rule's table.
pub fn apply_rule(rule: u8, code: u16) -> (bit: u8)
    ensures
        bit == rule_bit(rule, code as int),
{
    if code < 8 {
        (rule >> (code as u8)) & 1
    } else {
        0
    }
}

} // verus!

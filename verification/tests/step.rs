use elementary_ca::rule::{apply_rule, neighborhood};
use elementary_ca::{AutomatonError, Boundary, CellularAutomaton};

fn rotated(row: &[u8], k: usize) -> Vec<u8> {
    let n = row.len();
    (0..n).map(|i| row[(i + k) % n]).collect()
}

fn rows_of_length(n: usize) -> Vec<Vec<u8>> {
    (0..(1u32 << n))
        .map(|s| (0..n).map(|i| ((s >> i) & 1) as u8).collect())
        .collect()
}

#[test]
fn neighborhood_weighs_left_most() {
    assert_eq!(neighborhood(0, 0, 0), 0);
    assert_eq!(neighborhood(0, 0, 1), 1);
    assert_eq!(neighborhood(0, 1, 0), 2);
    assert_eq!(neighborhood(1, 0, 0), 4);
    assert_eq!(neighborhood(1, 1, 0), 6);
    assert_eq!(neighborhood(1, 1, 1), 7);
    assert_eq!(neighborhood(255, 255, 255), 1785);
}

#[test]
fn apply_rule_reads_the_table_bit() {
    let expected_184 = [0u8, 0, 0, 1, 1, 1, 0, 1];
    for code in 0..8u16 {
        assert_eq!(apply_rule(184, code), expected_184[code as usize]);
    }
    let expected_30 = [0u8, 1, 1, 1, 1, 0, 0, 0];
    for code in 0..8u16 {
        assert_eq!(apply_rule(30, code), expected_30[code as usize]);
    }
    assert_eq!(apply_rule(255, 8), 0);
    assert_eq!(apply_rule(255, 1785), 0);
}

#[test]
fn boundary_values_periodic() {
    assert_eq!(Boundary::Periodic.get_boundary_value(&[1, 0, 0]), (0, 1));
    assert_eq!(Boundary::Periodic.get_boundary_value(&[0, 0, 1, 1]), (1, 0));
    assert_eq!(Boundary::Periodic.get_boundary_value(&[1]), (1, 1));
}

#[test]
fn boundary_values_reflexive() {
    assert_eq!(Boundary::Reflexive.get_boundary_value(&[1, 0, 0]), (1, 0));
    assert_eq!(Boundary::Reflexive.get_boundary_value(&[0, 0, 1, 1]), (0, 1));
    assert_eq!(Boundary::Reflexive.get_boundary_value(&[0]), (0, 0));
}

#[test]
fn boundary_values_fixed_ignore_the_row() {
    assert_eq!(Boundary::Fixed(1, 0).get_boundary_value(&[0, 1, 1]), (1, 0));
    assert_eq!(Boundary::Fixed(0, 1).get_boundary_value(&[1, 1, 0]), (0, 1));
    assert_eq!(Boundary::Fixed(1, 1).get_boundary_value(&[]), (1, 1));
}

#[test]
fn step_refuses_an_empty_row() {
    for boundary in [Boundary::Periodic, Boundary::Reflexive, Boundary::Fixed(0, 1)] {
        let ca = CellularAutomaton::new(110, boundary);
        assert_eq!(ca.step(&[]), Err(AutomatonError::InvalidRowLength));
    }
}

#[test]
fn next_row_agrees_with_step() {
    for (rule, boundary) in
        [(110u8, Boundary::Periodic), (30, Boundary::Reflexive), (184, Boundary::Fixed(1, 0))]
    {
        let ca = CellularAutomaton::new(rule, boundary);
        for n in 1..=6usize {
            for row in rows_of_length(n) {
                assert_eq!(Ok(ca.next_row(&row)), ca.step(&row));
            }
        }
    }
    let ca = CellularAutomaton::new(110, Boundary::Periodic);
    // Rule 110 answers one for the windows 1, 2, 3, 5 and 6.
    // Augmented: 1 | 0 1 1 0 1 | 0; windows 5, 3, 6, 5, 2
    assert_eq!(ca.next_row(&[0, 1, 1, 0, 1]), vec![1, 1, 1, 1, 1]);
    // Augmented: 0 | 1 1 1 0 | 1; windows 3, 7, 6, 5
    assert_eq!(ca.next_row(&[1, 1, 1, 0]), vec![1, 0, 1, 1]);
}

#[test]
fn step_keeps_the_length() {
    let ca = CellularAutomaton::new(90, Boundary::Reflexive);
    for n in 1..=9usize {
        for row in rows_of_length(n) {
            let next = ca.step(&row).unwrap();
            assert_eq!(next.len(), n);
            assert!(next.iter().all(|&c| c <= 1));
        }
    }
}

#[test]
fn left_neighbour_is_the_high_bit() {
    // Rule 16 answers one only for the window (1, 0, 0): a lone cell moves
    // to the right. With the weights the other way round it would move left.
    let ca = CellularAutomaton::new(16, Boundary::Fixed(0, 0));
    assert_eq!(ca.step(&[1, 0, 0, 0]), Ok(vec![0, 1, 0, 0]));
    assert_eq!(ca.step(&[0, 0, 1, 0]), Ok(vec![0, 0, 0, 1]));
    // Rule 2 answers one only for the window (0, 0, 1).
    let ca = CellularAutomaton::new(2, Boundary::Fixed(0, 0));
    assert_eq!(ca.step(&[0, 0, 1, 0]), Ok(vec![0, 1, 0, 0]));
}

#[test]
fn rule_184_periodic_two_steps() {
    let ca = CellularAutomaton::new(184, Boundary::Periodic);
    let first = ca.step(&[1, 0, 0]).unwrap();
    assert_eq!(first, vec![0, 1, 0]);
    let second = ca.step(&first).unwrap();
    assert_eq!(second, vec![0, 0, 1]);
    let third = ca.step(&second).unwrap();
    assert_eq!(third, vec![1, 0, 0]);
}

#[test]
fn rule_184_fixed_two_steps_repeat_exactly() {
    let ca = CellularAutomaton::new(184, Boundary::Fixed(1, 0));
    let start = [1u8, 0, 0, 1, 0];
    let first = ca.step(&start).unwrap();
    assert_eq!(first, vec![0, 1, 0, 0, 1]);
    let second = ca.step(&first).unwrap();
    assert_eq!(second, vec![1, 0, 1, 0, 0]);
    for _ in 0..10 {
        let again = CellularAutomaton::new(184, Boundary::Fixed(1, 0));
        let a = again.step(&start).unwrap();
        let b = again.step(&a).unwrap();
        assert_eq!(a, first);
        assert_eq!(b, second);
    }
}

#[test]
fn rule_30_reflexive_example() {
    // Rule 30 answers one for the windows 1, 2, 3 and 4.
    let ca = CellularAutomaton::new(30, Boundary::Reflexive);
    // Augmented: 0 | 0 0 1 0 0 | 0
    assert_eq!(ca.step(&[0, 0, 1, 0, 0]), Ok(vec![0, 1, 1, 1, 0]));
    // Augmented: 1 | 1 0 0 | 0; windows 6, 4, 0
    assert_eq!(ca.step(&[1, 0, 0]), Ok(vec![0, 1, 0]));
}

#[test]
fn single_cell_rows_see_the_boundary_on_both_sides() {
    // Rule 32 answers one only for the window (1, 0, 1).
    let ca = CellularAutomaton::new(32, Boundary::Fixed(1, 1));
    assert_eq!(ca.step(&[0]), Ok(vec![1]));
    assert_eq!(ca.step(&[1]), Ok(vec![0]));
    // On a ring of one cell the cell is its own neighbour on both sides.
    let ca = CellularAutomaton::new(128, Boundary::Periodic);
    assert_eq!(ca.step(&[1]), Ok(vec![1]));
    assert_eq!(ca.step(&[0]), Ok(vec![0]));
}

#[test]
fn rule_0_clears_every_row_and_keeps_it_clear() {
    let ca = CellularAutomaton::new(0, Boundary::Fixed(0, 0));
    for start in [[0u8], [1u8]] {
        let first = ca.step(&start).unwrap();
        let second = ca.step(&first).unwrap();
        assert_eq!(first, vec![0]);
        assert_eq!(second, vec![0]);
    }
    for boundary in [Boundary::Periodic, Boundary::Reflexive, Boundary::Fixed(1, 1)] {
        let ca = CellularAutomaton::new(0, boundary);
        for n in 1..=7usize {
            for row in rows_of_length(n) {
                let first = ca.step(&row).unwrap();
                assert_eq!(first, vec![0u8; n]);
                assert_eq!(ca.step(&first), Ok(vec![0u8; n]));
            }
        }
    }
}

#[test]
fn rule_255_fills_every_row() {
    for boundary in [
        Boundary::Periodic,
        Boundary::Reflexive,
        Boundary::Fixed(0, 0),
        Boundary::Fixed(1, 0),
        Boundary::Fixed(0, 1),
        Boundary::Fixed(1, 1),
    ] {
        let ca = CellularAutomaton::new(255, boundary);
        for n in 1..=7usize {
            for row in rows_of_length(n) {
                assert_eq!(ca.step(&row), Ok(vec![1u8; n]));
            }
        }
    }
}

#[test]
fn periodic_step_commutes_with_rotation() {
    for rule in [30u8, 90, 110, 184, 45, 73] {
        let ca = CellularAutomaton::new(rule, Boundary::Periodic);
        for n in 1..=6usize {
            for row in rows_of_length(n) {
                let stepped = ca.step(&row).unwrap();
                for k in 0..n {
                    let turned = rotated(&row, k);
                    let turned_stepped = ca.step(&turned).unwrap();
                    assert_eq!(turned_stepped, rotated(&stepped, k));
                    assert_eq!(rotated(&turned_stepped, n - k), stepped);
                }
            }
        }
    }
}

#[test]
fn values_above_one_read_past_the_table() {
    // A window that is no row of bits has a code of eight or more, and the
    // table has no bit there.
    let ca = CellularAutomaton::new(255, Boundary::Fixed(0, 0));
    assert_eq!(ca.step(&[0, 4, 0]), Ok(vec![1, 0, 0]));
    let ca = CellularAutomaton::new(255, Boundary::Fixed(2, 0));
    assert_eq!(ca.step(&[0, 0]), Ok(vec![0, 1]));
}

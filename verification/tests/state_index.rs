use elementary_ca::state_index::{bits_to_u32, u32_to_bits};

#[test]
fn decode_puts_the_low_bit_first() {
    assert_eq!(u32_to_bits(1, 3), vec![1, 0, 0]);
    assert_eq!(u32_to_bits(6, 4), vec![0, 1, 1, 0]);
    assert_eq!(u32_to_bits(5, 3), vec![1, 0, 1]);
    assert_eq!(u32_to_bits(0, 5), vec![0, 0, 0, 0, 0]);
    assert_eq!(u32_to_bits(255, 8), vec![1; 8]);
}

#[test]
fn decode_drops_the_bits_beyond_the_size() {
    assert_eq!(u32_to_bits(13, 2), vec![1, 0]);
    assert_eq!(u32_to_bits(13, 0), Vec::<u8>::new());
    assert_eq!(u32_to_bits(8, 3), vec![0, 0, 0]);
}

#[test]
fn decode_pads_long_rows_with_zeros() {
    let mut expected = vec![1u8; 32];
    expected.extend(vec![0u8; 8]);
    assert_eq!(u32_to_bits(u32::MAX, 40), expected);
    assert_eq!(u32_to_bits(2, 5), vec![0, 1, 0, 0, 0]);
}

#[test]
fn encode_weighs_cell_i_by_two_to_the_i() {
    assert_eq!(bits_to_u32(&[]), 0);
    assert_eq!(bits_to_u32(&[1]), 1);
    assert_eq!(bits_to_u32(&[1, 0, 0]), 1);
    assert_eq!(bits_to_u32(&[0, 1, 0]), 2);
    assert_eq!(bits_to_u32(&[0, 1, 1]), 6);
    assert_eq!(bits_to_u32(&[0, 0, 0, 0, 1]), 16);
    assert_eq!(bits_to_u32(&[1; 32]), u32::MAX);
    let mut long = vec![1u8; 32];
    long.extend(vec![0u8; 5]);
    assert_eq!(bits_to_u32(&long), u32::MAX);
}

#[test]
fn index_round_trip() {
    for size in 0..=12usize {
        for s in 0..(1u32 << size) {
            let row = u32_to_bits(s, size);
            assert_eq!(row.len(), size);
            assert_eq!(bits_to_u32(&row), s);
        }
    }
    for s in [0u32, 1, 0x8000_0000, 0xdead_beef, u32::MAX] {
        assert_eq!(bits_to_u32(&u32_to_bits(s, 32)), s);
    }
}

#[test]
fn row_round_trip() {
    for size in 0..=10usize {
        for s in 0..(1u32 << size) {
            let row: Vec<u8> = (0..size).map(|i| ((s >> i) & 1) as u8).collect();
            assert_eq!(u32_to_bits(bits_to_u32(&row), size), row);
        }
    }
}

use rxing_reader::bit_array::BitArray;

#[test]
fn vec_u8_round_trips_through_bit_array() {
    let bytes = vec![0b1000_0001, 0b0101_1010, 0];
    let bits = BitArray::from_bytes(bytes.clone());

    assert_eq!(bits.get_size(), bytes.len() * 8);
    assert_eq!(bits.to_byte_vec(), bytes);
}

#[test]
fn set_bulk_stores_new_bits_without_shifting() {
    let mut bits = BitArray::with_size(usize::BITS as usize * 2);

    bits.set_bulk(5, 0b101);

    assert_eq!(bits.get_bit_array()[0], 0b101);
}

#[test]
fn bit_array_appends_and_finds_bits() {
    let mut bits = BitArray::new();
    bits.append_bits(0x1E, 6).unwrap();
    assert_eq!(bits.to_bool_vec(), vec![false, true, true, true, true, false]);
    assert_eq!(bits.get_next_set(0), 1);
    assert_eq!(bits.get_next_unset(1), 5);
    assert_eq!(bits.get_next_set(6), 6);
    assert!(bits.append_bits(0, usize::BITS as usize + 1).is_err());
    bits.append_bit(true);
    assert_eq!(bits.get_size(), 7);
    assert_eq!(bits.try_get(6), Some(true));
    assert_eq!(bits.try_get(7), None);
}

#[test]
fn bit_array_ranges_and_xor() {
    let mut bits = BitArray::with_size(10);
    assert_eq!(bits.set_range(2, 5), Ok(()));
    assert_eq!(bits.is_range(2, 5, true), Ok(true));
    assert_eq!(bits.is_range(1, 5, true), Ok(false));
    assert_eq!(bits.is_range(5, 10, false), Ok(true));
    assert!(bits.set_range(5, 11).is_err());
    let mut other = BitArray::with_size(10);
    other.set(3);
    other.set(9);
    bits.xor(&other).unwrap();
    assert_eq!(
        bits.to_bool_vec(),
        vec![false, false, true, false, true, false, false, false, false, true]
    );
    assert!(bits.xor(&BitArray::with_size(3)).is_err());
    bits.reverse();
    assert_eq!(bits.get(0), true);
    assert_eq!(bits.get(9), false);
    bits.flip(0);
    bits.unset(5);
    bits.clear();
    assert_eq!(bits.is_range(0, 10, false), Ok(true));
}

#[test]
fn bit_array_to_bytes_writes_into_place() {
    let bits = BitArray::from_bytes(vec![0xA5, 0x3C]);
    let mut out = [0u8; 4];
    bits.to_bytes(4, &mut out, 1, 1);
    assert_eq!(out, [0, 0x53, 0, 0]);
    assert_eq!(bits.get_size_in_bytes(), 2);
    let mut longer = BitArray::from_bytes(vec![0xFF]);
    longer.append_bit_array_ref(&bits);
    assert_eq!(longer.to_byte_vec(), vec![0xFF, 0xA5, 0x3C]);
}

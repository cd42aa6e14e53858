use rxing_reader::bit_matrix::BitMatrix;
use rxing_reader::bit_source::{BitSource, BitSourceBuilder};
use rxing_reader::character_set::CharacterSet;
use rxing_reader::pattern::{get_pattern_row, get_pattern_row_tp, PatternRow, PatternType};

#[test]
fn offsets_follow_the_bits_read() {
    let bytes = [0xAB, 0xCD, 0xEF];
    let mut s = BitSource::new(&bytes);
    let mut total = 0usize;
    for width in [3usize, 7, 1, 9] {
        s.read_bits(width).unwrap();
        total += width;
        assert_eq!(s.get_bit_offset(), total % 8);
        assert_eq!(s.get_byte_offset(), total / 8);
    }
}

#[test]
fn builder_writes_read_back_with_clear_padding() {
    let writes: [(u32, usize); 4] = [(0b1, 1), (0x2A, 6), (0x1FFF, 13), (0b10, 2)];
    let mut b = BitSourceBuilder::new();
    for (v, n) in writes {
        b.write(v, n as u32);
    }
    let bytes = b.to_byte_array();
    let mut s = BitSource::new(&bytes);
    for (v, n) in writes {
        assert_eq!(s.read_bits(n).unwrap(), v);
    }
    let left = s.available();
    assert!(left < 8);
    assert_eq!(s.read_bits(left).unwrap(), 0);
}

#[test]
fn names_are_distinct_lowercase_and_found_in_any_case() {
    let sets = [
        CharacterSet::Cp437, CharacterSet::ISO8859_1, CharacterSet::ShiftJis, CharacterSet::UTF8,
        CharacterSet::UTF16BE, CharacterSet::GB18030, CharacterSet::EucKr, CharacterSet::Binary,
    ];
    for (i, a) in sets.iter().enumerate() {
        let name = a.get_charset_name();
        assert!(!name.is_empty());
        assert_eq!(name, name.to_lowercase());
        assert_eq!(CharacterSet::get_character_set_by_name(name), Some(*a));
        assert_eq!(CharacterSet::get_character_set_by_name(&name.to_uppercase()), Some(*a));
        for b in sets.iter().skip(i + 1) {
            assert_ne!(name, b.get_charset_name());
        }
    }
}

#[test]
fn transposed_pattern_row_matches_plain_row() {
    let mut m = BitMatrix::new(4, 6).unwrap();
    // Column 2: rows 1, 2 and 4 set.
    m.set(2, 1);
    m.set(2, 2);
    m.set(2, 4);
    let mut tp = PatternRow::default();
    get_pattern_row_tp(&m, 2, &mut tp, true);
    let column: Vec<PatternType> = (0..6).map(|y| if m.get(2, y) { 1 } else { 0 }).collect();
    let mut plain = PatternRow::default();
    get_pattern_row(&column, &mut plain);
    assert_eq!(tp.0, plain.0);
    assert_eq!(tp.0, vec![1, 2, 1, 1, 1]);
}

use rxing_reader::bit_matrix::BitMatrix;
use rxing_reader::bit_source::{BitSource, BitSourceBuilder};
use rxing_reader::character_set::CharacterSet;
use rxing_reader::data_mask::{get_data_mask_bit, DataMask};
use rxing_reader::decoder::{decode, decode_alphanumeric_segment, decode_numeric_segment, decode_byte_segment};
use rxing_reader::ec_level::ErrorCorrectionLevel;
use rxing_reader::eci_string_builder::{AIFlag, ECIStringBuilder, SymbologyIdentifier};
use rxing_reader::error::Error;
use rxing_reader::format_information::FormatInformation;
use rxing_reader::matrix::Matrix;
use rxing_reader::mode::Mode;
use rxing_reader::qr_type::Type;
use rxing_reader::qr_version::{PointI, Version as QrVersion};
use rxing_reader::util::{append_bit, to_int, to_string, update_min_max};
use rxing_reader::value::Value;
use rxing_reader::version::Version;

fn builder() -> ECIStringBuilder {
    ECIStringBuilder::new(SymbologyIdentifier {
        code: 81,
        modifier: 49,
        eci_modifier_offset: 1,
        ai_flag: AIFlag::NoIdentifiers,
    })
}

#[test]
fn ec_level_format_bits_round_trip() {
    for bits in 0u8..4 {
        let level = ErrorCorrectionLevel::for_bits(bits).unwrap();
        assert_eq!(level.format_bits(), bits);
    }
    assert_eq!(ErrorCorrectionLevel::H.ordinal(), 3);
    assert_eq!(ErrorCorrectionLevel::from_format_bits(0b01), ErrorCorrectionLevel::L);
}

#[test]
fn mode_bits_round_trip_and_counts() {
    for bits in [0u8, 1, 2, 3, 4, 5, 7, 8, 9, 13] {
        let mode = Mode::for_bits(bits).unwrap();
        assert_eq!(mode.bits(), bits);
    }
    assert!(Mode::for_bits(6).is_err());
    let v1 = Version::for_number(1).unwrap();
    let v10 = Version::for_number(10).unwrap();
    let v27 = Version::for_number(27).unwrap();
    assert_eq!(Mode::Numeric.character_count_bits(&v1), 10);
    assert_eq!(Mode::Numeric.character_count_bits(&v10), 12);
    assert_eq!(Mode::Byte.character_count_bits(&v27), 16);
    assert_eq!(Mode::terminator_bit_length(&v1), 4);
}

#[test]
fn format_words_decode_exactly_and_with_errors() {
    let fi = FormatInformation::decode_format_information(0x5412, 0x5412).unwrap();
    assert_eq!(fi.error_correction_level, ErrorCorrectionLevel::M);
    assert_eq!(fi.data_mask, 0);
    // Word 0x789D carries data bits 01011: level L (01), mask 3.
    let fi = FormatInformation::decode_format_information(0x789D ^ 0b101, 0).unwrap();
    assert_eq!(fi.error_correction_level, ErrorCorrectionLevel::L);
    assert_eq!(fi.data_mask, 3);
    assert_eq!(FormatInformation::num_bits_differing(0b1011, 0b0110), 3);
    assert_eq!(FormatInformation::mirror_bits(1), 1 << 14);
}

#[test]
fn version_bits_decode_exactly() {
    assert_eq!(QrVersion::decode_version_information(0x07C94).unwrap().get_version_number(), 7);
    assert_eq!(QrVersion::decode_version_information(0x28C69 ^ 0b111).unwrap().get_version_number(), 40);
    assert!(matches!(QrVersion::decode_version_information(0), Err(Error::NotFound)));
}

#[test]
fn version_tables() {
    let v = Version::for_number(5).unwrap();
    assert_eq!(v.total_codewords(), 134);
    assert_eq!(v.dimension(), 37);
    assert_eq!(v.alignment_pattern_centers(), &[6, 30]);
    assert!(Version::for_number(41).is_err());
    assert_eq!(Version::provisional_for_dimension(45).unwrap().number(), 7);
    let m4 = QrVersion::micro(4).unwrap();
    assert_eq!(m4.get_total_codewords(), 24);
    assert_eq!(QrVersion::symbol_size(3, Type::Micro), PointI { x: 15, y: 15 });
    assert_eq!(QrVersion::number_point(PointI { x: 139, y: 17 }), 32);
}

#[test]
fn bit_source_write_then_read() {
    let mut builder = BitSourceBuilder::new();
    builder.write(0b101, 3);
    builder.write(0x3FF, 10);
    builder.write(1, 3);
    let bytes = builder.to_byte_array();
    let mut source = BitSource::new(&bytes);
    assert_eq!(source.read_bits(3).unwrap(), 0b101);
    assert_eq!(source.read_bits(10).unwrap(), 0x3FF);
    assert_eq!(source.read_bits(3).unwrap(), 1);
    assert!(source.read_bits(8).is_err());
}

#[test]
fn numeric_and_alphanumeric_segments() {
    // "012" in 10 bits (value 12), "34" in 7 bits (value 34).
    let mut b = BitSourceBuilder::new();
    b.write(12, 10);
    b.write(34, 7);
    let bytes = b.to_byte_array();
    let mut bits = BitSource::new(&bytes);
    let mut out = builder();
    decode_numeric_segment(&mut bits, 5, &mut out).unwrap();
    assert_eq!(out.bytes, b"01234".to_vec());

    // "AB" is 10 * 45 + 11 = 461 in 11 bits.
    let mut b = BitSourceBuilder::new();
    b.write(461, 11);
    let bytes = b.to_byte_array();
    let mut bits = BitSource::new(&bytes);
    let mut out = builder();
    decode_alphanumeric_segment(&mut bits, 2, &mut out).unwrap();
    assert_eq!(out.bytes, b"AB".to_vec());

    let bytes = [b'h', b'i'];
    let mut bits = BitSource::new(&bytes);
    let mut out = builder();
    decode_byte_segment(&mut bits, 2, &mut out).unwrap();
    assert_eq!(out.bytes, b"hi".to_vec());
    let mut bits = BitSource::new(&bytes);
    assert!(decode_byte_segment(&mut bits, 3, &mut out).is_err());
}

#[test]
fn data_masks() {
    assert!(DataMask::try_from_bits(8).is_err());
    let m0 = DataMask::try_from_bits(0).unwrap();
    assert!(m0.is_masked(1, 1));
    assert!(!m0.is_masked(1, 2));
    assert_eq!(get_data_mask_bit(2, 3, 1).unwrap(), true);
    assert!(get_data_mask_bit(9, 0, 0).is_err());
    let mut m = BitMatrix::with_single_dimension(4).unwrap();
    m0.unmask_bit_matrix(&mut m, 4);
    assert!(m.get(0, 0) && m.get(1, 1) && !m.get(0, 1));
    m0.unmask_bit_matrix(&mut m, 4);
    assert!(!m.get(0, 0) && !m.get(1, 1));
}

#[test]
fn bit_matrix_regions() {
    let mut m = BitMatrix::new(5, 4).unwrap();
    assert!(m.set_region(1, 1, 2, 2).is_ok());
    assert!(m.get(2, 2) && !m.get(3, 3));
    assert!(m.set_region(4, 0, 2, 1).is_err());
    m.flip(2, 2);
    assert!(!m.get(2, 2));
    assert!(BitMatrix::new(0, 3).is_err());
}

#[test]
fn util_functions() {
    let mut min = 5;
    let mut max = 5;
    update_min_max(&mut min, &mut max, 9);
    update_min_max(&mut min, &mut max, -2);
    assert_eq!((min, max), (-2, 9));
    assert_eq!(to_string(42, 4).unwrap(), "0042");
    assert!(to_string(12345, 4).is_err());
    let mut v = 0b10;
    append_bit(&mut v, true);
    assert_eq!(v, 0b101);
    // Runs 1, 2, 1 of alternating bits starting with a one bit: 1 00 1.
    assert_eq!(to_int(&[1, 2, 1]), Some(0b1001));
    assert_eq!(Value::from(true).is_black(), true);
    assert!(!Value::Invalid.is_valid());
}

#[test]
fn matrix_get_set() {
    let mut m: Matrix<u8> = Matrix::new(3, 2).unwrap();
    m.set(2, 1, 7).unwrap();
    assert_eq!(m.get(2, 1), Some(7));
    assert_eq!(m.get(0, 0), None);
    assert!(m.set(3, 0, 1).is_err());
}

#[test]
fn character_set_names() {
    assert_eq!(CharacterSet::get_character_set_by_name("UTF-8"), Some(CharacterSet::UTF8));
    assert_eq!(CharacterSet::ShiftJis.get_charset_name(), "shift_jis");
    assert_eq!(CharacterSet::get_character_set_by_name("klingon"), None);
}

#[test]
fn errors_classify() {
    assert!(Error::InvalidFormat.is_invalid_format());
    assert!(Error::invalid_format("x".to_string()).is_invalid_format());
    assert!(Error::Checksum.is_checksum());
    assert!(!Error::NotFound.is_checksum());
}

// --- an end-to-end symbol: version 1-M, mask 0, holding "AB" in byte mode.

fn gf_mul(a: u8, b: u8) -> u8 {
    let mut a = a as u16;
    let mut b = b;
    let mut p: u16 = 0;
    while b > 0 {
        if b & 1 == 1 {
            p ^= a;
        }
        a <<= 1;
        if a & 0x100 != 0 {
            a ^= 0x11D;
        }
        b >>= 1;
    }
    p as u8
}

fn rs_ec(data: &[u8], ec_len: usize) -> Vec<u8> {
    // Generator with roots 2^0 .. 2^(ec_len-1), highest coefficient first.
    let mut gen = vec![1u8];
    let mut root = 1u8;
    for _ in 0..ec_len {
        let mut next = vec![0u8; gen.len() + 1];
        for (i, &g) in gen.iter().enumerate() {
            next[i] ^= g;
            next[i + 1] ^= gf_mul(g, root);
        }
        gen = next;
        root = gf_mul(root, 2);
    }
    let mut rem = data.to_vec();
    rem.extend(vec![0u8; ec_len]);
    for i in 0..data.len() {
        let c = rem[i];
        if c != 0 {
            for (j, &g) in gen.iter().enumerate() {
                rem[i + j] ^= gf_mul(g, c);
            }
        }
    }
    rem[data.len()..].to_vec()
}

fn sample_symbol() -> BitMatrix {
    let data = [
        0x40, 0x24, 0x14, 0x20, 0xEC, 0x11, 0xEC, 0x11, 0xEC, 0x11, 0xEC, 0x11, 0xEC, 0x11, 0xEC, 0x11,
    ];
    let mut codewords = data.to_vec();
    codewords.extend(rs_ec(&data, 10));
    let bits: Vec<bool> = codewords
        .iter()
        .flat_map(|b| (0..8).rev().map(move |i| (b >> i) & 1 == 1))
        .collect();
    let d = 21u32;
    let function = Version::for_number(1).unwrap().build_function_pattern().unwrap();
    let mut m = BitMatrix::with_single_dimension(d).unwrap();
    let mut k = 0;
    let mut up = true;
    let mut x = d as i32 - 1;
    while x > 0 {
        if x == 6 {
            x -= 1;
        }
        for row in 0..d {
            let y = if up { d - 1 - row } else { row };
            for col in 0..2 {
                let xx = (x - col) as u32;
                if !function.get(xx, y) {
                    let masked = (xx + y) % 2 == 0;
                    if bits[k] != masked {
                        m.set(xx, y);
                    }
                    k += 1;
                }
            }
        }
        up = !up;
        x -= 2;
    }
    assert_eq!(k, 208);
    // Format word of level M, mask 0, in the first copy.
    let word: u32 = 0x5412;
    let cells = [
        (0, 8), (1, 8), (2, 8), (3, 8), (4, 8), (5, 8), (7, 8), (8, 8), (8, 7), (8, 5), (8, 4), (8, 3),
        (8, 2), (8, 1), (8, 0),
    ];
    for (i, &(cx, cy)) in cells.iter().enumerate() {
        if (word >> (14 - i)) & 1 == 1 {
            m.set(cx, cy);
        }
    }
    m
}

#[test]
fn decodes_a_clean_symbol() {
    let m = sample_symbol();
    let result = decode(&m).unwrap();
    assert_eq!(result.content.bytes, b"AB".to_vec());
    assert_eq!(result.version_number, 1);
    assert_eq!(result.ec_level, ErrorCorrectionLevel::M);
    assert_eq!(result.data_mask, 0);
    assert!(result.error.is_none());
}

#[test]
fn decodes_a_symbol_with_damaged_modules() {
    let mut m = sample_symbol();
    m.flip(20, 20);
    m.flip(19, 20);
    m.flip(10, 10);
    let result = decode(&m).unwrap();
    assert_eq!(result.content.bytes, b"AB".to_vec());
}

#[test]
fn decode_rejects_a_matrix_of_no_qr_size() {
    let m = BitMatrix::with_single_dimension(22).unwrap();
    assert!(matches!(decode(&m), Err(Error::InvalidFormat)));
}

#[test]
fn ec_level_names_and_parsing() {
    assert_eq!(ErrorCorrectionLevel::from_str("q").unwrap(), ErrorCorrectionLevel::Q);
    assert_eq!(ErrorCorrectionLevel::from_str("H").unwrap(), ErrorCorrectionLevel::H);
    assert_eq!(ErrorCorrectionLevel::from_str("3").unwrap(), ErrorCorrectionLevel::Q);
    assert_eq!(ErrorCorrectionLevel::from_str("+1").unwrap(), ErrorCorrectionLevel::L);
    assert_eq!(ErrorCorrectionLevel::from_str("4"), Err(Error::InvalidArgument));
    assert_eq!(ErrorCorrectionLevel::from_str("x"), Err(Error::InvalidArgument));
    assert_eq!(ErrorCorrectionLevel::from_str("300"), Err(Error::InvalidArgument));
    assert_eq!(ErrorCorrectionLevel::M.to_string(), "M");
    assert_eq!(Mode::Fnc1FirstPosition.to_string(), "Fnc1FirstPosition");
}

#[test]
fn bit_source_reads_whole_bytes() {
    let data = [0xABu8, 0xCD, 0xEF];
    let mut bits = BitSource::new(&data);
    assert_eq!(bits.read_bits(4).unwrap(), 0xA);
    let mut buf = [0u8; 5];
    assert_eq!(bits.read(&mut buf).unwrap(), 2);
    assert_eq!(buf, [0xBC, 0xDE, 0, 0, 0]);
    assert_eq!(bits.available(), 4);
}

#[test]
fn pattern_view_neighbours() {
    use_pattern_neighbours();
}

fn use_pattern_neighbours() {
    let row = rxing_reader::pattern::PatternRow::new(vec![5, 1, 2, 3]);
    let mut view = rxing_reader::pattern::PatternView::new(&row);
    assert!(view.shift(1));
    assert_eq!(view.try_get_index(0), Some(2));
    assert_eq!(view.try_get_index(-1), Some(1));
    assert_eq!(view.try_get_index(-3), None);
    assert_eq!(view.try_get_index(5), None);
}

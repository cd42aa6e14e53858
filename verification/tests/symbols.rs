use rxing_reader::bit_matrix::BitMatrix;
use rxing_reader::decoder::{parse_ecivalue, to_alpha_numeric_char};
use rxing_reader::bit_source::BitSource;
use rxing_reader::error::Error;
use rxing_reader::matrix_parser::BitMatrixParser;
use rxing_reader::qr_type::Type;
use rxing_reader::qr_version::Version;
use rxing_reader::symbol_reader::{get_bit, read_version};

#[test]
fn micro_function_pattern_covers_finder_and_timing() {
    let v = Version::micro(1).unwrap();
    let m = v.build_function_pattern().unwrap();
    assert_eq!(m.width(), 11);
    assert!(m.get(8, 8));
    assert!(m.get(10, 0));
    assert!(m.get(0, 10));
    assert!(!m.get(9, 9));
    assert!(!m.get(1, 10));
}

#[test]
fn model2_function_pattern_covers_timing_but_not_data() {
    let v = Version::model2(1).unwrap();
    let m = v.build_function_pattern().unwrap();
    assert_eq!(m.height(), 21);
    assert!(m.get(6, 10));
    assert!(m.get(20, 0));
    assert!(!m.get(20, 20));
    assert!(!m.get(10, 10));
}

#[test]
fn get_bit_swaps_axes_when_mirrored() {
    let mut m = BitMatrix::new(3, 3).unwrap();
    m.set(2, 0);
    assert!(get_bit(&m, 2, 0, None));
    assert!(!get_bit(&m, 0, 2, Some(false)));
    assert!(get_bit(&m, 0, 2, Some(true)));
}

#[test]
fn read_version_from_matrix_size() {
    let m = BitMatrix::with_single_dimension(25).unwrap();
    assert_eq!(read_version(&m, Type::Model2).unwrap().get_version_number(), 2);
    let micro = BitMatrix::with_single_dimension(13).unwrap();
    assert_eq!(read_version(&micro, Type::Micro).unwrap().get_version_number(), 2);
    let odd = BitMatrix::with_single_dimension(22).unwrap();
    assert!(matches!(read_version(&odd, Type::Model2), Err(Error::InvalidFormat)));
    assert!(matches!(read_version(&m, Type::Model1), Err(Error::UnsupportedOperation)));
}

#[test]
fn alpha_numeric_alias_and_eci_alias() {
    assert_eq!(to_alpha_numeric_char(36).unwrap(), ' ');
    assert_eq!(to_alpha_numeric_char(44).unwrap(), ':');
    assert!(to_alpha_numeric_char(45).is_err());
    let data = [0x81u8, 0x02];
    let mut bits = BitSource::new(&data);
    assert_eq!(parse_ecivalue(&mut bits).unwrap(), 0x0102);
}

#[test]
fn parser_rejects_heights_that_are_no_qr_size() {
    assert!(matches!(
        BitMatrixParser::new(BitMatrix::with_single_dimension(22).unwrap()),
        Err(Error::InvalidFormat)
    ));
    assert!(matches!(
        BitMatrixParser::new(BitMatrix::with_single_dimension(17).unwrap()),
        Err(Error::InvalidFormat)
    ));
    assert!(BitMatrixParser::new(BitMatrix::with_single_dimension(21).unwrap()).is_ok());
}

#[test]
fn parser_reads_small_versions_from_height() {
    let mut p = BitMatrixParser::new(BitMatrix::with_single_dimension(25).unwrap()).unwrap();
    assert_eq!(p.read_version().unwrap().get_version_number(), 2);
}

#[test]
fn parser_reads_blank_matrix_as_unmasked_format_zero() {
    // All-light format bits match no masked pattern, but unmasked they are
    // the pattern of level M with data mask 0.
    let mut p = BitMatrixParser::new(BitMatrix::with_single_dimension(21).unwrap()).unwrap();
    let fi = p.read_format_information().unwrap();
    assert_eq!(fi.data_mask, 0);
    assert_eq!(fi.error_correction_level, rxing_reader::ec_level::ErrorCorrectionLevel::M);
    let codewords = p.read_codewords().unwrap();
    assert_eq!(codewords.len(), 26);
    p.remask().unwrap();
    let again = p.read_codewords().unwrap();
    assert_eq!(codewords, again);
}

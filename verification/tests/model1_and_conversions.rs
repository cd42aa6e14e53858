use rxing_reader::bit_matrix::BitMatrix;
use rxing_reader::ec_level::ErrorCorrectionLevel;
use rxing_reader::error::Error;
use rxing_reader::format_information::FormatInformation;
use rxing_reader::mode::Mode;
use rxing_reader::model1_reader::read_qrcodewords_model1;
use rxing_reader::qr_version::Version as QrVersion;

fn format_with_mask(mask: u8) -> FormatInformation {
    FormatInformation {
        hamming_distance: 0,
        error_correction_level: ErrorCorrectionLevel::L,
        data_mask: mask,
        micro_version: 0,
        is_mirrored: false,
        mask: 0,
        data: 0,
        bits_index: 0,
    }
}

#[test]
fn model1_reads_masked_blank_symbol() {
    let m = BitMatrix::new(21, 21).unwrap();
    let v = QrVersion::get_version_for_number(1).unwrap();
    let codewords = read_qrcodewords_model1(&m, &v, &format_with_mask(1)).unwrap();
    let expected: Vec<u8> = vec![
        12, 204, 204, 204, 204, 204, 240, 240, 240, 240, 240, 240, 240, 240, 240, 240, 240, 240, 240, 15, 15, 15,
        204, 204, 204, 204,
    ];
    assert_eq!(codewords, expected);
}

#[test]
fn model1_reads_dark_modules() {
    let mut m = BitMatrix::new(21, 21).unwrap();
    // The first codeword sits at columns 19-20, rows 17-20; its upper four
    // bits are the cleared corner.
    m.set(20, 18);
    m.set(19, 17);
    let v = QrVersion::get_version_for_number(1).unwrap();
    let codewords = read_qrcodewords_model1(&m, &v, &format_with_mask(1)).unwrap();
    // Mask 1 flips rows 20 and 18: bits (20,20) (19,20) (20,19) (19,19)
    // (20,18) (19,18) (20,17) (19,17) = 1 1 0 0 [1^1] 1 0 [0^1].
    assert_eq!(codewords[0], 0b0000_0101);
    assert_eq!(codewords[1], 204);
}

#[test]
fn model1_rejects_bad_mask() {
    let m = BitMatrix::new(21, 21).unwrap();
    let v = QrVersion::get_version_for_number(1).unwrap();
    assert_eq!(read_qrcodewords_model1(&m, &v, &format_with_mask(9)), Err(Error::InvalidArgument));
}

#[test]
fn model1_rejects_codeword_count_mismatch() {
    let m = BitMatrix::new(25, 25).unwrap();
    let v = QrVersion::get_version_for_number(1).unwrap();
    assert_eq!(read_qrcodewords_model1(&m, &v, &format_with_mask(0)), Err(Error::InvalidFormat));
}

#[test]
fn level_converts_to_and_from_format_bits() {
    for level in [ErrorCorrectionLevel::L, ErrorCorrectionLevel::M, ErrorCorrectionLevel::Q, ErrorCorrectionLevel::H] {
        let bits = u8::from(level);
        assert_eq!(bits, level.format_bits());
        assert_eq!(ErrorCorrectionLevel::try_from(bits), Ok(level));
    }
    assert_eq!(u8::from(ErrorCorrectionLevel::L), 1);
    assert_eq!(ErrorCorrectionLevel::try_from(4u8), Err(Error::InvalidArgument));
}

#[test]
fn mode_converts_to_and_from_indicator() {
    assert_eq!(u8::from(Mode::Byte), 4);
    assert_eq!(Mode::try_from(0x7u8), Ok(Mode::Eci));
    assert_eq!(Mode::try_from(0xDu32), Ok(Mode::Hanzi));
    assert_eq!(Mode::try_from(0x6u8), Err(Error::InvalidArgument));
    assert_eq!(Mode::try_from(0x104u32), Err(Error::InvalidArgument));
}

#[test]
fn model1_reads_smaller_and_off_table_sizes() {
    // Size 17 has 8 codeword places and size 23 has 28: neither matches the
    // 26 codewords of version 1, which is an invalid format, not a panic.
    let v = QrVersion::get_version_for_number(1).unwrap();
    let m17 = BitMatrix::new(17, 17).unwrap();
    assert_eq!(read_qrcodewords_model1(&m17, &v, &format_with_mask(1)), Err(Error::InvalidFormat));
    let m23 = BitMatrix::new(23, 23).unwrap();
    assert_eq!(read_qrcodewords_model1(&m23, &v, &format_with_mask(1)), Err(Error::InvalidFormat));
}

#[test]
fn model1_reads_from_a_wider_matrix() {
    // Only the height matters; the extra columns are never read.
    let m = BitMatrix::new(25, 21).unwrap();
    let v = QrVersion::get_version_for_number(1).unwrap();
    let codewords = read_qrcodewords_model1(&m, &v, &format_with_mask(1)).unwrap();
    assert_eq!(codewords.len(), 26);
    assert_eq!(codewords[0], 12);
}

#[test]
fn unknown_mode_indicator_records_invalid_format() {
    let v = rxing_reader::version::Version::for_number(1).unwrap();
    let r = rxing_reader::decoder::decode_bit_stream(&[0x60], &v).unwrap();
    assert_eq!(r.error, Some(Error::InvalidFormat));
    assert!(r.content.bytes.is_empty());
    assert!(r.modes.is_empty());
}

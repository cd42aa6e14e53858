use rxing_reader::bit_matrix::BitMatrix;
use rxing_reader::character_set::CharacterSet;
use rxing_reader::data_block::DataBlock;
use rxing_reader::ec_level::ErrorCorrectionLevel;
use rxing_reader::eci_string_builder::{AIFlag, ECIStringBuilder, SegmentEncoding, SymbologyIdentifier};
use rxing_reader::error::Error;
use rxing_reader::format_information::FormatInformation;
use rxing_reader::luma_source::{downscale_luma_buffer, Luma8LuminanceSource};
use rxing_reader::matrix_parser::BitMatrixParser;
use rxing_reader::qr_version::Version as QrVersion;
use rxing_reader::symbol_reader::{read_format_information, read_mqrcodewords};
use rxing_reader::version::Version;

#[test]
fn decode_qr_finds_plain_and_mirrored_words() {
    let fi = FormatInformation::decode_qr(0x5412, 0);
    assert_eq!(fi.error_correction_level, ErrorCorrectionLevel::M);
    assert_eq!(fi.data_mask, 0);
    assert!(!fi.is_mirrored);
    let mirrored = FormatInformation::mirror_bits(0x789D);
    let fi = FormatInformation::decode_qr(mirrored, 0);
    assert_eq!(fi.error_correction_level, ErrorCorrectionLevel::L);
    assert_eq!(fi.data_mask, 3);
    assert!(fi.is_mirrored);
}

#[test]
fn version_pair_decodes_either_reading() {
    assert_eq!(QrVersion::decode_version_information_pair(0, 0x085BC).unwrap().get_version_number(), 8);
    assert!(matches!(QrVersion::decode_version_information_pair(0, 0), Err(Error::InvalidState)));
}

#[test]
fn data_blocks_deinterleave_version_5_q() {
    let raw: Vec<u8> = (0..134u32).map(|i| i as u8).collect();
    let v = Version::for_number(5).unwrap();
    let blocks = DataBlock::get_data_blocks(&raw, &v, ErrorCorrectionLevel::Q).unwrap();
    assert_eq!(blocks.len(), 4);
    assert_eq!(blocks[0].get_num_data_codewords(), 15);
    assert_eq!(blocks[3].get_num_data_codewords(), 16);
    assert_eq!(&blocks[0].get_codewords()[..3], &[0, 4, 8]);
    assert_eq!(blocks[3].get_codewords()[15], 61);
    assert_eq!(blocks[0].get_codewords()[15], 62);
    assert_eq!(blocks[3].get_codewords()[16], 65);
    assert!(matches!(
        DataBlock::get_data_blocks(&raw[..100], &v, ErrorCorrectionLevel::Q),
        Err(Error::InvalidArgument)
    ));
}

#[test]
fn downscale_averages_blocks() {
    let (out, w, h) = downscale_luma_buffer(&[10, 20, 30, 40, 1, 1], 3, 2, 2).unwrap();
    assert_eq!((w, h), (1, 1));
    // (10 + 20 + 40 + 1 + 2) / 4, rounded: the block is columns 0-1, rows 0-1.
    assert_eq!(out, vec![((10 + 20 + 40 + 1) + 2) / 4]);
    assert!(matches!(downscale_luma_buffer(&[1, 2, 3], 2, 2, 1), Err(Error::InvalidArgument)));
}

#[test]
fn first_eci_replaces_mode_encodings() {
    let mut b = ECIStringBuilder::new(SymbologyIdentifier {
        code: 81,
        modifier: 49,
        eci_modifier_offset: 1,
        ai_flag: AIFlag::NoIdentifiers,
    });
    b.switch_encoding(SegmentEncoding::Charset(CharacterSet::ISO8859_1), false);
    b.push_byte(b'a');
    b.switch_encoding(SegmentEncoding::Eci(26), true);
    assert!(b.has_eci);
    assert_eq!(b.encodings, vec![(SegmentEncoding::Eci(26), 1)]);
    b.switch_encoding(SegmentEncoding::Charset(CharacterSet::ShiftJis), false);
    assert_eq!(b.encodings, vec![(SegmentEncoding::Eci(26), 1)]);
    b.append_bytes(b"bc");
    assert_eq!(b.bytes, b"abc".to_vec());
}

#[test]
fn mirroring_twice_reads_the_same_codewords() {
    let mut m = BitMatrix::with_single_dimension(21).unwrap();
    for (x, y) in [(12, 3), (15, 17), (20, 9), (11, 20), (9, 14)] {
        m.set(x, y);
    }
    let mut plain = BitMatrixParser::new(m.clone()).unwrap();
    let expected = plain.read_codewords().unwrap();
    let mut twice = BitMatrixParser::new(m).unwrap();
    twice.mirror();
    twice.mirror();
    assert_eq!(twice.read_codewords().unwrap(), expected);
}

#[test]
fn micro_symbol_codewords_have_a_short_one() {
    let m = BitMatrix::with_single_dimension(11).unwrap();
    let v = QrVersion::micro(1).unwrap();
    let mut fi = FormatInformation {
        hamming_distance: 0,
        error_correction_level: ErrorCorrectionLevel::L,
        data_mask: 0,
        micro_version: 1,
        is_mirrored: false,
        mask: 0,
        data: 0,
        bits_index: 0,
    };
    let codewords = read_mqrcodewords(&m, &v, &fi).unwrap();
    assert_eq!(codewords.len(), 5);
    fi.data_mask = 5;
    assert!(matches!(read_mqrcodewords(&m, &v, &fi), Err(Error::InvalidArgument)));
    assert!(matches!(read_format_information(&m), Err(Error::UnsupportedOperation)));
}

#[test]
fn four_quarter_turns_give_back_the_image() {
    let src = Luma8LuminanceSource::new(vec![1, 2, 3, 4, 5, 6], 3, 2).unwrap();
    let once = src.rotate_counter_clockwise().unwrap();
    let twice = once.rotate_counter_clockwise().unwrap();
    let thrice = twice.rotate_counter_clockwise().unwrap();
    let four = thrice.rotate_counter_clockwise().unwrap();
    assert_eq!(once.dimensions, (2, 3));
    assert_eq!(once.data, vec![3, 6, 2, 5, 1, 4]);
    assert_eq!(four.dimensions, src.dimensions);
    assert_eq!(four.data, src.data);
}

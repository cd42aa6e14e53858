use rxing_reader::ec_level::ErrorCorrectionLevel;
use rxing_reader::luma_source::Luma8LuminanceSource;
use rxing_reader::pattern::{get_pattern_row, PatternRow, PatternType, PatternView};
use rxing_reader::reed_solomon::correct_qr_errors;

const DATA_LEN: usize = 11;
const ENCODED: [u8; 20] = [
    104, 101, 108, 108, 111, 32, 119, 111, 114, 108, 100, 145, 124, 96, 105, 94, 31, 179, 149, 163,
];

#[test]
fn maps_format_bits_to_levels() {
    assert_eq!(ErrorCorrectionLevel::for_bits(0).unwrap(), ErrorCorrectionLevel::M);
    assert_eq!(ErrorCorrectionLevel::for_bits(1).unwrap(), ErrorCorrectionLevel::L);
    assert_eq!(ErrorCorrectionLevel::for_bits(2).unwrap(), ErrorCorrectionLevel::H);
    assert_eq!(ErrorCorrectionLevel::for_bits(3).unwrap(), ErrorCorrectionLevel::Q);
    assert!(ErrorCorrectionLevel::for_bits(4).is_err());
}

#[test]
fn leaves_clean_codewords_unchanged() {
    let mut codewords = ENCODED;
    correct_qr_errors(&mut codewords, DATA_LEN).unwrap();
    assert_eq!(codewords, ENCODED);
}

#[test]
fn corrects_data_codeword_errors() {
    let mut codewords = ENCODED;
    codewords[0] = 0;
    codewords[3] = 2;
    codewords[10] = 88;

    correct_qr_errors(&mut codewords, DATA_LEN).unwrap();

    assert_eq!(&codewords[..DATA_LEN], b"hello world");
}

#[test]
fn rejects_too_many_errors() {
    let mut codewords = ENCODED;
    for codeword in codewords.iter_mut().take(6) {
        *codeword ^= 0xFF;
    }

    assert!(correct_qr_errors(&mut codewords, DATA_LEN).is_err());
}

const BASE45_ALPHABET: &[u8; 45] = b"0123456789ABCDEFGHIJKLMNOPQRSTUVWXYZ $%*+-./:";

fn base45_index(c: u8) -> Option<u16> {
    BASE45_ALPHABET.iter().position(|&b| b == c).map(|i| i as u16)
}

fn base45_decode(input: &[u8]) -> Option<Vec<u8>> {
    let mut out = Vec::new();
    let mut i = 0;
    while i + 3 <= input.len() {
        let n = base45_index(input[i])? as u32
            + base45_index(input[i + 1])? as u32 * 45
            + base45_index(input[i + 2])? as u32 * 45 * 45;
        if n > 0xFFFF {
            return None;
        }
        out.push((n / 256) as u8);
        out.push((n % 256) as u8);
        i += 3;
    }
    match input.len() - i {
        0 => Some(out),
        2 => {
            let n = base45_index(input[i])? as u32 + base45_index(input[i + 1])? as u32 * 45;
            if n > 0xFF {
                return None;
            }
            out.push(n as u8);
            Some(out)
        }
        _ => None,
    }
}

#[test]
fn base45_decode_round_trips_known_vectors() {
    assert_eq!(base45_decode(b"").unwrap(), b"");
    assert_eq!(base45_decode(b"BB8").unwrap(), b"AB");
    assert_eq!(base45_decode(b"%69 VD92EX0").unwrap(), b"Hello!!");
    assert!(base45_decode(b"!!!").is_none(), "rejects non-charset");
    assert!(base45_decode(b"B").is_none(), "rejects 1-char trailing group");
}

const N: usize = 33;

#[test]
fn all_white() {
    for s in 1..=N {
        let t_in: Vec<PatternType> = vec![0; s];
        let mut pr = PatternRow::default();
        get_pattern_row(&t_in, &mut pr);

        assert_eq!(pr.0.len(), 1);
        assert_eq!(pr.0[0], s as PatternType);
    }
}

#[test]
fn all_black() {
    for s in 1..=N {
        let t_in: Vec<PatternType> = vec![0xff; s];
        let mut pr = PatternRow::default();
        get_pattern_row(&t_in, &mut pr);

        assert_eq!(pr.0.len(), 3);
        assert_eq!(pr.0[0], 0);
        assert_eq!(pr.0[1], s as PatternType);
        assert_eq!(pr.0[2], 0);
    }
}

#[test]
fn black_white() {
    for s in 1..=N {
        let mut t_in: Vec<PatternType> = vec![0; N];
        t_in[..s].copy_from_slice(&vec![1; s]);
        let mut pr = PatternRow::default();
        get_pattern_row(&t_in, &mut pr);

        assert_eq!(pr.0.len(), 3);
        assert_eq!(pr.0[0], 0);
        assert_eq!(pr.0[1], s as PatternType);
        assert_eq!(pr.0[2], (N - s) as PatternType);
    }
}

#[test]
fn white_black() {
    for s in 0..N {
        let mut t_in: Vec<PatternType> = vec![0xff; N];
        t_in[..s].copy_from_slice(&vec![0; s]);
        let mut pr = PatternRow::default();
        get_pattern_row(&t_in, &mut pr);

        assert_eq!(pr.0.len(), 3);
        assert_eq!(pr.0[0], s as PatternType);
        assert_eq!(pr.0[1], (N - s) as PatternType);
        assert_eq!(pr.0[2], 0);
    }
}

#[test]
fn basic_pattern_view() {
    let mut p_row = PatternRow::default();
    get_pattern_row(
        &[
            0_u16, 1, 0, 1, 0, 0, 1, 1, 1, 0, 0, 1, 1, 1, 1, 1, 1, 0, 0, 0, 0, 1,
        ],
        &mut p_row,
    );

    let mut pv = PatternView::new(&p_row);

    assert_eq!(pv.data().0, p_row.0);

    assert_eq!(pv.at(0), 1_u16);
    assert_eq!(pv.at(1), 1_u16);
    assert_eq!(pv.at(4), 2_u16);
    assert_eq!(pv.at(7), 6_u16);

    assert_eq!(pv.index(), 0);
    assert!(pv.shift(1));
    assert_eq!(pv.index(), 1);
    assert!(pv.skip_pair());
    assert_eq!(pv.index(), 3);
}

#[test]
fn test_rotate() {
    let src_square = vec![1, 2, 3, 4, 5, 6, 7, 8, 9];

    let src_rect = vec![0, 1, 0, 1, 0, 1, 1, 1, 1, 0, 0, 0];

    let square = Luma8LuminanceSource::new(src_square, 3, 3).expect("source");
    let rect_tall = Luma8LuminanceSource::new(src_rect.clone(), 3, 4).expect("source");
    let rect_wide = Luma8LuminanceSource::new(src_rect, 4, 3).expect("source");

    let rotated_square = square.rotate_counter_clockwise().expect("rotate");
    let rotated_wide_rect = rect_wide.rotate_counter_clockwise().expect("rotate");
    let rotated_tall_rect = rect_tall.rotate_counter_clockwise().expect("rotate");

    assert_eq!(rotated_square.dimensions, square.dimensions);
    assert_eq!(
        rotated_tall_rect.dimensions,
        (rect_tall.dimensions.1, rect_tall.dimensions.0)
    );
    assert_eq!(
        rotated_wide_rect.dimensions,
        (rect_wide.dimensions.1, rect_wide.dimensions.0)
    );

    assert_eq!(rotated_square.data.as_slice(), &[3, 6, 9, 2, 5, 8, 1, 4, 7]);

    assert_eq!(
        rotated_wide_rect.data.as_slice(),
        &[1, 1, 0, 0, 1, 0, 1, 1, 0, 0, 0, 1]
    );

    assert_eq!(
        rotated_tall_rect.data.as_slice(),
        &[0, 1, 1, 0, 1, 0, 1, 0, 0, 1, 1, 0]
    );
}

#[test]
fn odd_check_count_can_change_half_rounded_up() {
    // Three check codewords: the corrector accepts a block that is two
    // changes away from a codeword, so an Ok result may change (3 + 1) / 2
    // codewords, one more than 3 / 2.
    let mut codewords = [134u8, 201, 225, 5, 235, 94];
    correct_qr_errors(&mut codewords, 3).unwrap();
    assert_eq!(codewords, [109, 201, 225, 5, 30, 94]);
}

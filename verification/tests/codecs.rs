use rxing_reader::barcode_format::BarcodeFormat;
use rxing_reader::character_set::CharacterSet;
use rxing_reader::decode_hints::{DecodeHintValue, DecodeHints};
use rxing_reader::error::Error;
use rxing_reader::result_metadata::RXingResultMetadataType;

#[test]
fn utf16_encoding_of_ascii_and_astral_characters() {
    assert_eq!(CharacterSet::UTF16BE.encode("A").unwrap(), vec![0x00, 0x41]);
    assert_eq!(CharacterSet::UTF16LE.encode("A").unwrap(), vec![0x41, 0x00]);
    // U+1F600 is the surrogate pair D83D DE00.
    assert_eq!(
        CharacterSet::UTF16BE.encode("\u{1F600}").unwrap(),
        vec![0xD8, 0x3D, 0xDE, 0x00]
    );
}

#[test]
fn utf32_round_trip() {
    let text = "a\u{e9}\u{1F600}";
    let be = CharacterSet::UTF32BE.encode(text).unwrap();
    assert_eq!(be, vec![0, 0, 0, 0x61, 0, 0, 0, 0xE9, 0, 1, 0xF6, 0]);
    assert_eq!(CharacterSet::UTF32BE.decode(&be).unwrap(), text);
    let le = CharacterSet::UTF32LE.encode(text).unwrap();
    assert_eq!(CharacterSet::UTF32LE.decode(&le).unwrap(), text);
}

#[test]
fn utf32_rejects_trailing_bytes_and_surrogates() {
    assert_eq!(CharacterSet::UTF32BE.decode(&[0, 0, 0]), Err(Error::InvalidFormat));
    assert_eq!(CharacterSet::UTF32BE.decode(&[0, 0, 0xD8, 0]), Err(Error::InvalidFormat));
    assert_eq!(
        CharacterSet::UTF32BE.decode_replace(&[0, 0, 0xD8, 0, 0, 0, 0, 0x41, 7]).unwrap(),
        "\u{FFFD}A\u{FFFD}"
    );
}

#[test]
fn latin1_and_ascii_encoding() {
    assert_eq!(CharacterSet::ISO8859_1.encode("\u{e9}a").unwrap(), vec![0xE9, 0x61]);
    assert_eq!(CharacterSet::ISO8859_1.encode("\u{100}"), Err(Error::InvalidFormat));
    assert_eq!(CharacterSet::ASCII.encode("\u{e9}"), Err(Error::InvalidFormat));
    assert_eq!(CharacterSet::ASCII.encode_replace("a\u{e9}").unwrap(), vec![0x61, b'?']);
    assert_eq!(CharacterSet::Binary.encode_replace("\u{100}z").unwrap(), vec![b'?', b'z']);
    assert_eq!(CharacterSet::ISO8859_1.decode(&[0xE9, 0x41]).unwrap(), "\u{e9}A");
    assert_eq!(CharacterSet::ASCII.decode(&[0x80]), Err(Error::InvalidFormat));
    assert_eq!(CharacterSet::ASCII.decode_replace(&[0x41, 0x80]).unwrap(), "A\u{FFFD}");
}

#[test]
fn cp437_encoding_goes_through_the_code_page() {
    assert_eq!(CharacterSet::Cp437.encode("A\u{e9}").unwrap(), vec![0x41, 0x82]);
    assert_eq!(CharacterSet::Cp437.decode(&[0x82, 0x41]).unwrap(), "\u{e9}A");
    assert!(CharacterSet::Cp437.encode("\u{4e00}").is_err());
    assert_eq!(CharacterSet::Cp437.encode_replace("\u{4e00}A").unwrap(), vec![b'?', 0x41]);
}

#[test]
fn encoding_rs_sets_encode_and_decode() {
    assert_eq!(CharacterSet::ShiftJis.encode("\u{3042}").unwrap(), vec![0x82, 0xA0]);
    assert_eq!(CharacterSet::ShiftJis.decode(&[0x82, 0xA0]).unwrap(), "\u{3042}");
    assert_eq!(CharacterSet::UTF8.decode(&[0xC3, 0xA9]).unwrap(), "\u{e9}");
    assert_eq!(CharacterSet::UTF8.decode(&[0xFF]), Err(Error::InvalidFormat));
    assert_eq!(CharacterSet::UTF8.decode_replace(&[0xFF]).unwrap(), "\u{FFFD}");
    assert_eq!(CharacterSet::ISO8859_2.encode("\u{4e00}"), Err(Error::InvalidFormat));
    assert_eq!(CharacterSet::Unknown.decode(&[1]), Err(Error::InvalidFormat));
    assert_eq!(CharacterSet::Unknown.encode_replace("a"), Err(Error::InvalidFormat));
}

#[test]
fn barcode_format_names() {
    assert_eq!(BarcodeFormat::from("QR_CODE"), BarcodeFormat::QrCode);
    assert_eq!(BarcodeFormat::from("micro_qr"), BarcodeFormat::MicroQrCode);
    assert_eq!(BarcodeFormat::from("Data Matrix"), BarcodeFormat::DataMatrix);
    assert_eq!(BarcodeFormat::from("nothing"), BarcodeFormat::UnsupportedFormat);
    assert_eq!(BarcodeFormat::QrCode.to_string(), "qrcode");
    assert_eq!(BarcodeFormat::Code128.name(), "code 128");
    assert_eq!(BarcodeFormat::from_str("rmqr"), Ok(BarcodeFormat::RectangularMicroQrCode));
    assert_eq!(BarcodeFormat::from_str("nothing"), Err(Error::InvalidFormat));
}

#[test]
fn metadata_type_names() {
    assert_eq!(
        RXingResultMetadataType::from("ecLevel".to_string()),
        RXingResultMetadataType::ErrorCorrectionLevel
    );
    assert_eq!(
        RXingResultMetadataType::from("isMirrored".to_string()),
        RXingResultMetadataType::IsMirrored
    );
    assert_eq!(
        RXingResultMetadataType::from("nope".to_string()),
        RXingResultMetadataType::OTHER
    );
}

#[test]
fn hints_keep_each_possible_format_once() {
    let hints = DecodeHints::default()
        .with(DecodeHintValue::TryHarder(true))
        .with(DecodeHintValue::PossibleFormats(vec![
            BarcodeFormat::QrCode,
            BarcodeFormat::MicroQrCode,
            BarcodeFormat::QrCode,
        ]));
    assert_eq!(hints.try_harder, Some(true));
    assert_eq!(
        hints.possible_formats,
        Some(vec![BarcodeFormat::QrCode, BarcodeFormat::MicroQrCode])
    );
    assert_eq!(hints.character_set, None);
}

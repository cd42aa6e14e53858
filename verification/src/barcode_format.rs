use vstd::prelude::*;
use crate::character_set::{ascii_lowercase, is_ascii_str, lowercase_of, str_equals, to_lowercase};
use crate::error::Error;

verus! {

/// The barcode formats that results can carry.
#[derive(Debug, PartialEq, Eq, Hash, Clone, Copy, Structural)]
pub enum BarcodeFormat {
    /// Aztec 2D barcode format.
    Aztec,
    /// CODABAR 1D format.
    Codabar,
    /// Code 39 1D format.
    Code39,
    /// Code 93 1D format.
    Code93,
    /// Code 128 1D format.
    Code128,
    /// Data Matrix 2D barcode format.
    DataMatrix,
    /// EAN-8 1D format.
    Ean8,
    /// EAN-13 1D format.
    Ean13,
    /// ITF (Interleaved Two of Five) 1D format.
    Itf,
    /// MaxiCode 2D barcode format.
    Maxicode,
    /// PDF417 format.
    Pdf417,
    /// QR Code 2D barcode format.
    QrCode,
    /// Micro QR Code 2D barcode format.
    MicroQrCode,
    /// Rectangular Micro QR Code 2D barcode format.
    RectangularMicroQrCode,
    /// RSS 14.
    Rss14,
    /// RSS Expanded.
    RssExpanded,
    /// Telepen 1D format.
    Telepen,
    /// UPC-A 1D format.
    UpcA,
    /// UPC-E 1D format.
    UpcE,
    /// UPC/EAN extension format. Not a stand-alone format.
    UpcEanExtension,
    /// DX film edge format.
    DxFilmEdge,
    /// A format that this library does not know.
    UnsupportedFormat,
}

/// The display name of a format.
pub open spec fn spec_format_name(f: BarcodeFormat) -> Seq<char> {
    match f {
        BarcodeFormat::Aztec => "aztec"@,
        BarcodeFormat::Codabar => "codabar"@,
        BarcodeFormat::Code39 => "code 39"@,
        BarcodeFormat::Code93 => "code 93"@,
        BarcodeFormat::Code128 => "code 128"@,
        BarcodeFormat::DataMatrix => "datamatrix"@,
        BarcodeFormat::Ean8 => "ean 8"@,
        BarcodeFormat::Ean13 => "ean 13"@,
        BarcodeFormat::Itf => "itf"@,
        BarcodeFormat::Maxicode => "maxicode"@,
        BarcodeFormat::Pdf417 => "pdf 417"@,
        BarcodeFormat::QrCode => "qrcode"@,
        BarcodeFormat::MicroQrCode => "mqr"@,
        BarcodeFormat::RectangularMicroQrCode => "rmqr"@,
        BarcodeFormat::Rss14 => "rss 14"@,
        BarcodeFormat::RssExpanded => "rss expanded"@,
        BarcodeFormat::Telepen => "telepen"@,
        BarcodeFormat::UpcA => "upc a"@,
        BarcodeFormat::UpcE => "upc e"@,
        BarcodeFormat::UpcEanExtension => "upc/ean extension"@,
        BarcodeFormat::DxFilmEdge => "DXFilmEdge"@,
        BarcodeFormat::UnsupportedFormat => "Unsupported"@,
    }
}

/// The format that a lower-case name denotes; `UnsupportedFormat` for a
/// name that denotes none.
pub open spec fn format_for_name(name: Seq<char>) -> BarcodeFormat {
    if name == "aztec"@ || name == "aztec code"@ || name == "aztec_code"@ {
        BarcodeFormat::Aztec
    } else if name == "codabar"@ || name == "coda"@ || name == "coda_bar"@ || name == "cod_a_bar"@ || name == "cod_a"@ {
        BarcodeFormat::Codabar
    } else if name == "code 39"@ || name == "code_39"@ || name == "code39"@ || name == "alpha39"@ || name == "code_3_of_9"@ || name == "uss_39"@ || name == "usd-3"@ {
        BarcodeFormat::Code39
    } else if name == "code 93"@ || name == "code_93"@ || name == "code93"@ {
        BarcodeFormat::Code93
    } else if name == "code 128"@ || name == "code_128"@ || name == "code128"@ || name == "iso/iec 15417:2007"@ || name == "iso/_15417:2007"@ {
        BarcodeFormat::Code128
    } else if name == "datamatrix"@ || name == "data matrix"@ || name == "data_matrix"@ {
        BarcodeFormat::DataMatrix
    } else if name == "ean 8"@ || name == "ean_8"@ || name == "ean8"@ {
        BarcodeFormat::Ean8
    } else if name == "ean 13"@ || name == "ean_13"@ || name == "ean13"@ {
        BarcodeFormat::Ean13
    } else if name == "itf"@ || name == "itf_code"@ || name == "itf14"@ || name == "itf 14"@ || name == "itf_14"@ || name == "interleaved 2 of 5"@ {
        BarcodeFormat::Itf
    } else if name == "maxicode"@ || name == "maxi_code"@ {
        BarcodeFormat::Maxicode
    } else if name == "pdf 417"@ || name == "pdf_417"@ || name == "pdf417"@ || name == "iso 15438"@ || name == "iso_15438"@ {
        BarcodeFormat::Pdf417
    } else if name == "qrcode"@ || name == "qr_code"@ || name == "qr code"@ {
        BarcodeFormat::QrCode
    } else if name == "mqr"@ || name == "microqr"@ || name == "micro_qr"@ || name == "micro_qrcode"@ || name == "micro_qr_code"@ || name == "mqr_code"@ {
        BarcodeFormat::MicroQrCode
    } else if name == "rmqr"@ || name == "rectangular_mqr"@ || name == "rectangular_micro_qr"@ || name == "rmqr_code"@ {
        BarcodeFormat::RectangularMicroQrCode
    } else if name == "rss 14"@ || name == "rss_14"@ || name == "rss14"@ || name == "gs1 databar"@ || name == "gs1 databar coupon"@ || name == "gs1_databar_coupon"@ {
        BarcodeFormat::Rss14
    } else if name == "rss expanded"@ || name == "expanded rss"@ || name == "rss_expanded"@ {
        BarcodeFormat::RssExpanded
    } else if name == "telepen"@ {
        BarcodeFormat::Telepen
    } else if name == "upc a"@ || name == "upc_a"@ || name == "upca"@ {
        BarcodeFormat::UpcA
    } else if name == "upc e"@ || name == "upc_e"@ || name == "upce"@ {
        BarcodeFormat::UpcE
    } else if name == "upc ean extension"@ || name == "upc extension"@ || name == "ean extension"@ || name == "upc/ean extension"@ || name == "upc_ean_extension"@ {
        BarcodeFormat::UpcEanExtension
    } else if name == "DXFilmEdge"@ || name == "dxfilmedge"@ || name == "dx film edge"@ {
        BarcodeFormat::DxFilmEdge
    } else {
        BarcodeFormat::UnsupportedFormat
    }
}

impl BarcodeFormat {
    /// The display name of this format.
    pub fn name(&self) -> (res: &'static str)
        ensures
            res@ == spec_format_name(*self),
    {
        match self {
            BarcodeFormat::Aztec => "aztec",
            BarcodeFormat::Codabar => "codabar",
            BarcodeFormat::Code39 => "code 39",
            BarcodeFormat::Code93 => "code 93",
            BarcodeFormat::Code128 => "code 128",
            BarcodeFormat::DataMatrix => "datamatrix",
            BarcodeFormat::Ean8 => "ean 8",
            BarcodeFormat::Ean13 => "ean 13",
            BarcodeFormat::Itf => "itf",
            BarcodeFormat::Maxicode => "maxicode",
            BarcodeFormat::Pdf417 => "pdf 417",
            BarcodeFormat::QrCode => "qrcode",
            BarcodeFormat::MicroQrCode => "mqr",
            BarcodeFormat::RectangularMicroQrCode => "rmqr",
            BarcodeFormat::Rss14 => "rss 14",
            BarcodeFormat::RssExpanded => "rss expanded",
            BarcodeFormat::Telepen => "telepen",
            BarcodeFormat::UpcA => "upc a",
            BarcodeFormat::UpcE => "upc e",
            BarcodeFormat::UpcEanExtension => "upc/ean extension",
            BarcodeFormat::DxFilmEdge => "DXFilmEdge",
            BarcodeFormat::UnsupportedFormat => "Unsupported",
        }
    }

    /// The display name of this format, as a `String`.
    pub fn to_string(&self) -> (res: String)
        ensures
            res@ == spec_format_name(*self),
    {
        self.name().to_owned()
    }

    /// The format that `value` names, compared without regard to case;
    /// `UnsupportedFormat` for a name that denotes none.
    pub fn from(value: &str) -> (res: BarcodeFormat)
        ensures
            res == format_for_name(lowercase_of(value@)),
            is_ascii_str(value@) ==> res == format_for_name(ascii_lowercase(value@)),
    {
        let lower = to_lowercase(value);
        let name = lower.as_str();
        if str_equals(name, "aztec") || str_equals(name, "aztec code") || str_equals(name, "aztec_code") {
            BarcodeFormat::Aztec
        } else if str_equals(name, "codabar") || str_equals(name, "coda") || str_equals(name, "coda_bar") || str_equals(name, "cod_a_bar") || str_equals(name, "cod_a") {
            BarcodeFormat::Codabar
        } else if str_equals(name, "code 39") || str_equals(name, "code_39") || str_equals(name, "code39") || str_equals(name, "alpha39") || str_equals(name, "code_3_of_9") || str_equals(name, "uss_39") || str_equals(name, "usd-3") {
            BarcodeFormat::Code39
        } else if str_equals(name, "code 93") || str_equals(name, "code_93") || str_equals(name, "code93") {
            BarcodeFormat::Code93
        } else if str_equals(name, "code 128") || str_equals(name, "code_128") || str_equals(name, "code128") || str_equals(name, "iso/iec 15417:2007") || str_equals(name, "iso/_15417:2007") {
            BarcodeFormat::Code128
        } else if str_equals(name, "datamatrix") || str_equals(name, "data matrix") || str_equals(name, "data_matrix") {
            BarcodeFormat::DataMatrix
        } else if str_equals(name, "ean 8") || str_equals(name, "ean_8") || str_equals(name, "ean8") {
            BarcodeFormat::Ean8
        } else if str_equals(name, "ean 13") || str_equals(name, "ean_13") || str_equals(name, "ean13") {
            BarcodeFormat::Ean13
        } else if str_equals(name, "itf") || str_equals(name, "itf_code") || str_equals(name, "itf14") || str_equals(name, "itf 14") || str_equals(name, "itf_14") || str_equals(name, "interleaved 2 of 5") {
            BarcodeFormat::Itf
        } else if str_equals(name, "maxicode") || str_equals(name, "maxi_code") {
            BarcodeFormat::Maxicode
        } else if str_equals(name, "pdf 417") || str_equals(name, "pdf_417") || str_equals(name, "pdf417") || str_equals(name, "iso 15438") || str_equals(name, "iso_15438") {
            BarcodeFormat::Pdf417
        } else if str_equals(name, "qrcode") || str_equals(name, "qr_code") || str_equals(name, "qr code") {
            BarcodeFormat::QrCode
        } else if str_equals(name, "mqr") || str_equals(name, "microqr") || str_equals(name, "micro_qr") || str_equals(name, "micro_qrcode") || str_equals(name, "micro_qr_code") || str_equals(name, "mqr_code") {
            BarcodeFormat::MicroQrCode
        } else if str_equals(name, "rmqr") || str_equals(name, "rectangular_mqr") || str_equals(name, "rectangular_micro_qr") || str_equals(name, "rmqr_code") {
            BarcodeFormat::RectangularMicroQrCode
        } else if str_equals(name, "rss 14") || str_equals(name, "rss_14") || str_equals(name, "rss14") || str_equals(name, "gs1 databar") || str_equals(name, "gs1 databar coupon") || str_equals(name, "gs1_databar_coupon") {
            BarcodeFormat::Rss14
        } else if str_equals(name, "rss expanded") || str_equals(name, "expanded rss") || str_equals(name, "rss_expanded") {
            BarcodeFormat::RssExpanded
        } else if str_equals(name, "telepen") {
            BarcodeFormat::Telepen
        } else if str_equals(name, "upc a") || str_equals(name, "upc_a") || str_equals(name, "upca") {
            BarcodeFormat::UpcA
        } else if str_equals(name, "upc e") || str_equals(name, "upc_e") || str_equals(name, "upce") {
            BarcodeFormat::UpcE
        } else if str_equals(name, "upc ean extension") || str_equals(name, "upc extension") || str_equals(name, "ean extension") || str_equals(name, "upc/ean extension") || str_equals(name, "upc_ean_extension") {
            BarcodeFormat::UpcEanExtension
        } else if str_equals(name, "DXFilmEdge") || str_equals(name, "dxfilmedge") || str_equals(name, "dx film edge") {
            BarcodeFormat::DxFilmEdge
        } else {
            BarcodeFormat::UnsupportedFormat
        }
    }

    /// The format that `s` names, compared without regard to case; a name
    /// that denotes no supported format is an invalid format.
    pub fn from_str(s: &str) -> (res: Result<BarcodeFormat, Error>)
        ensures
            format_for_name(lowercase_of(s@)) == BarcodeFormat::UnsupportedFormat ==> res == Err::<
                BarcodeFormat,
                Error,
            >(Error::InvalidFormat),
            format_for_name(lowercase_of(s@)) != BarcodeFormat::UnsupportedFormat ==> res == Ok::<
                BarcodeFormat,
                Error,
            >(format_for_name(lowercase_of(s@))),
            is_ascii_str(s@) ==> res == (if format_for_name(ascii_lowercase(s@))
                == BarcodeFormat::UnsupportedFormat {
                Err::<BarcodeFormat, Error>(Error::InvalidFormat)
            } else {
                Ok::<BarcodeFormat, Error>(format_for_name(ascii_lowercase(s@)))
            }),
    {
        let format = BarcodeFormat::from(s);
        match format {
            BarcodeFormat::UnsupportedFormat => Err(Error::InvalidFormat),
            _ => Ok(format),
        }
    }
}

} // verus!

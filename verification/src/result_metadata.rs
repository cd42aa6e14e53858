use vstd::prelude::*;
use crate::character_set::{is_ascii_str, str_equals};

verus! {

/// The kinds of metadata that a result can carry.
#[derive(PartialEq, Eq, Hash, Debug, Clone, Copy, Structural)]
pub enum RXingResultMetadataType {
    /// Unspecified, application-specific metadata.
    OTHER,
    /// Degrees of rotation, clockwise, that the result needs to be read upright.
    ORIENTATION,
    /// The raw bytes of the byte segments of the barcode.
    ByteSegments,
    /// The error correction level of the barcode, if it has one.
    ErrorCorrectionLevel,
    /// The issue number of a periodical, for some formats.
    IssueNumber,
    /// A suggested retail price, for some formats.
    SuggestedPrice,
    /// The country that issued the product code, for some formats.
    PossibleCountry,
    /// The extension of a UPC or EAN code.
    UpcEanExtension,
    /// The sequence number of a symbol in a structured append.
    StructuredAppendSequence,
    /// The parity of the data of a structured append.
    StructuredAppendParity,
    /// The symbology identifier (ISO/IEC 15424).
    SymbologyIdentifier,
    /// Whether the symbol was read mirrored.
    IsMirrored,
    /// The type of the content that the barcode carries.
    ContentType,
    /// Whether the symbol was read with its colours inverted.
    IsInverted,
    /// Whether the image was closed by a filter before it was read.
    FilteredClosed,
    /// The resolution of the filter the image was read with.
    FilteredResolution,
}

/// The upper-case form of a string, as `str::to_uppercase` gives it.
pub uninterp spec fn uppercase_of(s: Seq<char>) -> Seq<char>;

/// A string with the ASCII letters `a` to `z` made `A` to `Z` and every
/// other character left as it is.
pub open spec fn ascii_uppercase(s: Seq<char>) -> Seq<char> {
    Seq::new(
        s.len(),
        |i: int|
            if 'a' <= s[i] && s[i] <= 'z' {
                ((s[i] as u32) - 32) as char
            } else {
                s[i]
            },
    )
}

/// Upper-cases a string.
///
/// Calls `str::to_uppercase`; the contract names its result
/// (`uppercase_of`), which depends on the string alone, and states what the
/// documentation gives for an ASCII string: `a` to `z` become `A` to `Z`
/// and every other character stays. Of other strings nothing more is stated.
#[verifier::external_body]
pub(crate) fn to_uppercase(s: &str) -> (res: String)
    ensures
        res@ == uppercase_of(s@),
        is_ascii_str(s@) ==> res@ == ascii_uppercase(s@),
{
    s.to_uppercase()
}

/// The kind of metadata that an upper-case name denotes; `OTHER` for a
/// name that denotes none.
pub open spec fn metadata_type_for_name(name: Seq<char>) -> RXingResultMetadataType {
    if name == "OTHER"@ {
        RXingResultMetadataType::OTHER
    } else if name == "ORIENTATION"@ {
        RXingResultMetadataType::ORIENTATION
    } else if name == "BYTESEGMENTS"@ {
        RXingResultMetadataType::ByteSegments
    } else if name == "ERRORCORRECTIONLEVEL"@ || name == "ECLEVEL"@ {
        RXingResultMetadataType::ErrorCorrectionLevel
    } else if name == "ISSUENUMBER"@ {
        RXingResultMetadataType::IssueNumber
    } else if name == "SUGGESTEDPRICE"@ {
        RXingResultMetadataType::SuggestedPrice
    } else if name == "POSSIBLECOUNTRY"@ {
        RXingResultMetadataType::PossibleCountry
    } else if name == "UPCEANEXTENSION"@ {
        RXingResultMetadataType::UpcEanExtension
    } else if name == "STRUCTUREDAPPENDSEQUENCE"@ {
        RXingResultMetadataType::StructuredAppendSequence
    } else if name == "STRUCTUREDAPPENDPARITY"@ {
        RXingResultMetadataType::StructuredAppendParity
    } else if name == "SYMBOLOGYIDENTIFIER"@ {
        RXingResultMetadataType::SymbologyIdentifier
    } else if name == "ISMIRRORED"@ {
        RXingResultMetadataType::IsMirrored
    } else if name == "CONTENTTYPE"@ {
        RXingResultMetadataType::ContentType
    } else if name == "ISINVERTED"@ {
        RXingResultMetadataType::IsInverted
    } else if name == "FILTEREDCLOSED"@ {
        RXingResultMetadataType::FilteredClosed
    } else if name == "FILTEREDRESOLUTION"@ {
        RXingResultMetadataType::FilteredResolution
    } else {
        RXingResultMetadataType::OTHER
    }
}

impl RXingResultMetadataType {
    /// The kind of metadata that `in_str` names, compared without regard to
    /// case; `OTHER` for a name that denotes none.
    pub fn from(in_str: String) -> (res: RXingResultMetadataType)
        ensures
            res == metadata_type_for_name(uppercase_of(in_str@)),
            is_ascii_str(in_str@) ==> res == metadata_type_for_name(ascii_uppercase(in_str@)),
    {
        let upper = to_uppercase(in_str.as_str());
        let name = upper.as_str();
        if str_equals(name, "OTHER") {
            RXingResultMetadataType::OTHER
        } else if str_equals(name, "ORIENTATION") {
            RXingResultMetadataType::ORIENTATION
        } else if str_equals(name, "BYTESEGMENTS") {
            RXingResultMetadataType::ByteSegments
        } else if str_equals(name, "ERRORCORRECTIONLEVEL") || str_equals(name, "ECLEVEL") {
            RXingResultMetadataType::ErrorCorrectionLevel
        } else if str_equals(name, "ISSUENUMBER") {
            RXingResultMetadataType::IssueNumber
        } else if str_equals(name, "SUGGESTEDPRICE") {
            RXingResultMetadataType::SuggestedPrice
        } else if str_equals(name, "POSSIBLECOUNTRY") {
            RXingResultMetadataType::PossibleCountry
        } else if str_equals(name, "UPCEANEXTENSION") {
            RXingResultMetadataType::UpcEanExtension
        } else if str_equals(name, "STRUCTUREDAPPENDSEQUENCE") {
            RXingResultMetadataType::StructuredAppendSequence
        } else if str_equals(name, "STRUCTUREDAPPENDPARITY") {
            RXingResultMetadataType::StructuredAppendParity
        } else if str_equals(name, "SYMBOLOGYIDENTIFIER") {
            RXingResultMetadataType::SymbologyIdentifier
        } else if str_equals(name, "ISMIRRORED") {
            RXingResultMetadataType::IsMirrored
        } else if str_equals(name, "CONTENTTYPE") {
            RXingResultMetadataType::ContentType
        } else if str_equals(name, "ISINVERTED") {
            RXingResultMetadataType::IsInverted
        } else if str_equals(name, "FILTEREDCLOSED") {
            RXingResultMetadataType::FilteredClosed
        } else if str_equals(name, "FILTEREDRESOLUTION") {
            RXingResultMetadataType::FilteredResolution
        } else {
            RXingResultMetadataType::OTHER
        }
    }
}

/// A piece of metadata with its value.
#[derive(Debug, PartialEq, Eq)]
pub enum RXingResultMetadataValue {
    /// Unspecified, application-specific metadata.
    OTHER(String),
    /// Degrees of rotation, clockwise, that the result needs to be read upright.
    Orientation(i32),
    /// The raw bytes of the byte segments of the barcode.
    ByteSegments(Vec<Vec<u8>>),
    /// The error correction level of the barcode, if it has one.
    ErrorCorrectionLevel(String),
    /// The issue number of a periodical, for some formats.
    IssueNumber(i32),
    /// A suggested retail price, for some formats.
    SuggestedPrice(String),
    /// The country that issued the product code, for some formats.
    PossibleCountry(String),
    /// The extension of a UPC or EAN code.
    UpcEanExtension(String),
    /// The sequence number of a symbol in a structured append.
    StructuredAppendSequence(i32),
    /// The parity of the data of a structured append.
    StructuredAppendParity(i32),
    /// The symbology identifier (ISO/IEC 15424).
    SymbologyIdentifier(String),
    /// Whether the symbol was read mirrored.
    IsMirrored(bool),
    /// The type of the content that the barcode carries.
    ContentType(String),
    /// Whether the symbol was read with its colours inverted.
    IsInverted(bool),
    /// Whether the image was closed by a filter before it was read.
    FilteredClosed(bool),
    /// The resolution of the filter the image was read with.
    FilteredResolution((usize, usize)),
}

} // verus!
